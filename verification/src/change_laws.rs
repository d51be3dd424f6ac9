//! What becomes of the entries of a column: what listings deliver, what changes on disk, and what
//! is selected.
use vstd::prelude::*;

use crate::entry::FileEntryView;
use crate::event::{EventView, RequestView};
use crate::laws::{lemma_column_from, lemma_entry_position, lemma_place_is_merge};
use crate::model::{LocationKey, LocationView};
use crate::order::{entry_order, is_sorted, lemma_merged, lemma_sorted, sorted};
use crate::selection_laws::{lemma_splices_replay, with_splices};
use crate::sorting::{lemma_insertions_replay, with_insertions};
use crate::state::{
    batch_arrived, changed, column_from, column_of, directory_changed, entry_position,
    focus_followed, followed, load_failed, load_finished, place, take_out, upsert, without,
    BrowserState, Change, ChangeView, ColumnState, PeekState,
};

verus! {

// Changes on disk.

/// Whether the entries stand for different places.
pub open spec fn places_differ(entries: Seq<FileEntryView>) -> bool {
    forall|i: int, j: int|
        0 <= i < j < entries.len() ==> (#[trigger] entries[i]).location.key() != (
        #[trigger] entries[j]).location.key()
}

/// Whether an entry stands for the place.
pub open spec fn stands_for(entry: FileEntryView, place: LocationView) -> bool {
    entry.location.key() == place.key()
}

/// The entries that stand for another place are the same ones, each as often.
pub open spec fn same_elsewhere(
    before: Seq<FileEntryView>,
    after: Seq<FileEntryView>,
    place: LocationView,
) -> bool {
    forall|e: FileEntryView|
        !stands_for(e, place) ==> #[trigger] after.to_multiset().count(e)
            == before.to_multiset().count(e)
}

/// Whether a row is the one that has the focus: the first one that stands for the focused place.
/// Where there is none, no row has it.
pub open spec fn tells_focus(column: ColumnState, row: Option<int>) -> bool {
    match row {
        Some(at) => {
            &&& 0 <= at < column.entries.len()
            &&& column.focused matches Some(place) && stands_for(column.entries[at], place)
                && forall|i: int| 0 <= i < at ==> !stands_for(#[trigger] column.entries[i], place)
        },
        None => column.focused matches Some(place) ==> forall|i: int|
            0 <= i < column.entries.len() ==> !stands_for(#[trigger] column.entries[i], place),
    }
}

proof fn lemma_tells_focus(column: ColumnState)
    ensures
        tells_focus(column, column.focused_position()),
{
    if let Some(place) = column.focused {
        lemma_entry_position(column.entries, place.key(), 0);
    }
}

proof fn lemma_inserted(s: Seq<FileEntryView>, at: int, entry: FileEntryView)
    requires
        0 <= at <= s.len(),
    ensures
        s.insert(at, entry).to_multiset() == s.to_multiset().insert(entry),
        s.insert(at, entry).contains(entry),
        forall|e: FileEntryView| #[trigger]
            s.insert(at, entry).contains(e) <==> e == entry || s.contains(e),
        places_differ(s) && (forall|i: int|
            0 <= i < s.len() ==> !stands_for(#[trigger] s[i], entry.location)) ==> places_differ(
            s.insert(at, entry),
        ),
{
    broadcast use vstd::seq_lib::group_to_multiset_ensures;

    let t = s.insert(at, entry);
    assert(t.remove(at) =~= s);
    assert(t.to_multiset() =~= s.to_multiset().insert(entry));
    assert(t[at] == entry);
    assert forall|e: FileEntryView| #[trigger] t.contains(e) <==> e == entry || s.contains(e) by {
        if s.contains(e) {
            let k = choose|k: int| 0 <= k < s.len() && s[k] == e;
            assert(t[if k < at { k } else { k + 1 }] == e);
        }
    }
    if places_differ(s) && (forall|i: int|
        0 <= i < s.len() ==> !stands_for(#[trigger] s[i], entry.location)) {
        assert forall|i: int, j: int| 0 <= i < j < t.len() implies (#[trigger] t[i]).location.key()
            != (#[trigger] t[j]).location.key() by {
            let m = if i < at { i } else { i - 1 };
            let n = if j < at { j } else { j - 1 };
            if i == at {
                assert(t[j] == s[n]);
            } else if j == at {
                assert(t[i] == s[m]);
            } else {
                assert(t[i] == s[m] && t[j] == s[n]);
            }
        }
    }
}

proof fn lemma_taken(s: Seq<FileEntryView>, at: int)
    requires
        0 <= at < s.len(),
    ensures
        s.remove(at).to_multiset() == s.to_multiset().remove(s[at]),
        places_differ(s) ==> places_differ(s.remove(at)),
        places_differ(s) ==> forall|e: FileEntryView| #[trigger]
            s.remove(at).contains(e) <==> s.contains(e) && !stands_for(e, s[at].location),
        places_differ(s) ==> forall|i: int|
            0 <= i < s.len() - 1 ==> !stands_for(#[trigger] s.remove(at)[i], s[at].location),
{
    broadcast use vstd::seq_lib::group_to_multiset_ensures;

    let t = s.remove(at);
    assert(t.to_multiset() =~= s.to_multiset().remove(s[at]));
    if places_differ(s) {
        assert forall|i: int, j: int| 0 <= i < j < t.len() implies (#[trigger] t[i]).location.key()
            != (#[trigger] t[j]).location.key() by {
            let m = if i < at { i } else { i + 1 };
            let n = if j < at { j } else { j + 1 };
            assert(t[i] == s[m] && t[j] == s[n]);
        }
        assert forall|i: int| 0 <= i < t.len() implies !stands_for(#[trigger] t[i], s[at].location) by {
            let m = if i < at { i } else { i + 1 };
            assert(t[i] == s[m]);
            assert(s[m].location.key() != s[at].location.key());
        }
        assert forall|e: FileEntryView| #[trigger] t.contains(e) <==> s.contains(e) && !stands_for(
            e,
            s[at].location,
        ) by {
            if t.contains(e) {
                let k = choose|k: int| 0 <= k < t.len() && t[k] == e;
                assert(s[if k < at { k } else { k + 1 }] == e);
            }
            if s.contains(e) && !stands_for(e, s[at].location) {
                let k = choose|k: int| 0 <= k < s.len() && s[k] == e;
                assert(k != at);
                assert(t[if k < at { k } else { k - 1 }] == e);
            }
        }
    }
}

/// What a column holds after an entry has been put into it: the entry itself for its place, and for
/// other places what it held.
pub open spec fn holds_instead(
    before: Seq<FileEntryView>,
    after: Seq<FileEntryView>,
    entry: FileEntryView,
) -> bool {
    &&& after.contains(entry)
    &&& same_elsewhere(before, after, entry.location)
    &&& places_differ(before) ==> {
        &&& places_differ(after)
        &&& forall|e: FileEntryView| #[trigger]
            after.contains(e) <==> e == entry || (before.contains(e) && !stands_for(
                e,
                entry.location,
            ))
    }
}

proof fn lemma_upsert(c: Change, entry: FileEntryView)
    ensures
        holds_instead(c.column.entries, upsert(c, entry).column.entries, entry),
        upsert(c, entry).splices.len() > c.splices.len(),
        upsert(c, entry).column == (ColumnState {
            entries: upsert(c, entry).column.entries,
            ..c.column
        }),
{
    let s = c.column.entries;
    lemma_entry_position(s, entry.location.key(), 0);
    match entry_position(s, entry.location) {
        Some(at) => {
            let rest = s.remove(at);
            let p = place(c.column.sort, rest, entry);
            lemma_place_is_merge(c.column.sort, rest, entry);
            lemma_taken(s, at);
            lemma_inserted(rest, p, entry);
            if p == at {
                assert(s.update(at, entry) =~= rest.insert(p, entry));
            }
            let t = upsert(c, entry).column.entries;
            assert(t == rest.insert(p, entry));
            if places_differ(s) {
                assert forall|e: FileEntryView| #[trigger] t.contains(e) <==> e == entry || (
                s.contains(e) && !stands_for(e, entry.location)) by {
                    assert(rest.contains(e) <==> s.contains(e) && !stands_for(e, s[at].location));
                }
                assert forall|i: int| 0 <= i < rest.len() implies !stands_for(
                    #[trigger] rest[i],
                    entry.location,
                ) by {
                    assert(!stands_for(s.remove(at)[i], s[at].location));
                }
                assert(places_differ(t));
            }
        },
        None => {
            let p = place(c.column.sort, s, entry);
            lemma_place_is_merge(c.column.sort, s, entry);
            lemma_inserted(s, p, entry);
            let t = upsert(c, entry).column.entries;
            assert forall|i: int| 0 <= i < s.len() implies !stands_for(
                #[trigger] s[i],
                entry.location,
            ) by {}
            assert forall|e: FileEntryView| s.contains(e) implies !stands_for(e, entry.location) by {
                let k = choose|k: int| 0 <= k < s.len() && s[k] == e;
                assert(s[k].location.key() != entry.location.key());
            }
            assert forall|e: FileEntryView| #[trigger] t.contains(e) <==> e == entry || (
            s.contains(e) && !stands_for(e, entry.location)) by {}
        },
    }
}

/// After an entry has been added or has changed, a column that has been listed holds that entry for
/// its place, and for every other place what it held. This is told.
pub proof fn lemma_changed_entry(b: BrowserState, depth: int, entry: FileEntryView)
    requires
        0 <= depth < b.columns.len(),
        !b.columns[depth].loading,
        forall|i: int| 0 <= i < depth ==> (#[trigger] b.columns[i]).id != b.columns[depth].id,
    ensures
        ({
            let before = b.columns[depth];
            let t = directory_changed(b, before.id, ChangeView::Upsert(entry));
            let after = t.browser.columns[depth];
            &&& holds_instead(before.entries, after.entries, entry)
            &&& after == (ColumnState { entries: after.entries, ..before })
            &&& t.browser == (BrowserState { columns: b.columns.update(depth, after), ..b })
            &&& t.requests.len() == 0
            &&& t.events.len() == 1
            &&& t.events[0] is EntriesSpliced
            &&& t.events[0]->EntriesSpliced_depth == depth
            &&& with_splices(before.entries, t.events[0]->EntriesSpliced_splices) == after.entries
            &&& t.events[0]->EntriesSpliced_splices.len() > 0
            &&& tells_focus(after, t.events[0]->EntriesSpliced_selected)
        }),
{
    lemma_the_column(b, depth);
    lemma_upsert(Change { column: b.columns[depth], splices: Seq::empty() }, entry);
    lemma_splices_replay(b.columns[depth], ChangeView::Upsert(entry));
    lemma_tells_focus(changed(b.columns[depth], ChangeView::Upsert(entry)).column);
}

proof fn lemma_the_column(b: BrowserState, depth: int)
    requires
        0 <= depth < b.columns.len(),
        forall|i: int| 0 <= i < depth ==> (#[trigger] b.columns[i]).id != b.columns[depth].id,
    ensures
        column_of(b.columns, b.columns[depth].id) == Some(depth),
{
    lemma_first_column(b.columns, b.columns[depth].id, 0, depth);
}

proof fn lemma_first_column(columns: Seq<ColumnState>, id: int, at: int, depth: int)
    requires
        0 <= at <= depth < columns.len(),
        columns[depth].id == id,
        forall|i: int| at <= i < depth ==> (#[trigger] columns[i]).id != id,
    ensures
        column_from(columns, id, at) == Some(depth),
    decreases depth - at,
{
    if at < depth {
        lemma_first_column(columns, id, at + 1, depth);
    }
}

/// After an entry has gone, a column that has been listed holds nothing for its place, and for
/// every other place what it held; the place is selected and focused no longer. Where the column
/// held nothing for it, nothing happens.
pub proof fn lemma_gone_entry(b: BrowserState, depth: int, from: LocationView)
    requires
        0 <= depth < b.columns.len(),
        !b.columns[depth].loading,
        forall|i: int| 0 <= i < depth ==> (#[trigger] b.columns[i]).id != b.columns[depth].id,
    ensures
        ({
            let before = b.columns[depth];
            let t = directory_changed(b, before.id, ChangeView::Removed(from));
            let after = t.browser.columns[depth];
            let listed = exists|i: int|
                0 <= i < before.entries.len() && stands_for(#[trigger] before.entries[i], from);
            &&& t.requests.len() == 0
            &&& t.browser == (BrowserState { columns: b.columns.update(depth, after), ..b })
            &&& same_elsewhere(before.entries, after.entries, from)
            &&& places_differ(before.entries) ==> forall|e: FileEntryView| #[trigger]
                after.entries.contains(e) <==> before.entries.contains(e) && !stands_for(e, from)
            &&& !listed ==> t.browser == b && t.events.len() == 0
            &&& listed ==> {
                &&& after.entries.len() == before.entries.len() - 1
                &&& t.events.len() == 1
                &&& t.events[0] is EntriesSpliced
                &&& t.events[0]->EntriesSpliced_depth == depth
                &&& with_splices(before.entries, t.events[0]->EntriesSpliced_splices)
                    == after.entries
                &&& tells_focus(after, t.events[0]->EntriesSpliced_selected)
                &&& forall|p: LocationView| #[trigger]
                    after.selected.contains(p) <==> before.selected.contains(p) && p.key()
                        != from.key()
                &&& match before.focused {
                    Some(p) => after.focused == if p.key() == from.key() {
                        None
                    } else {
                        Some(p)
                    },
                    None => after.focused is None,
                }
            }
        }),
{
    let before = b.columns[depth];
    lemma_the_column(b, depth);
    lemma_entry_position(before.entries, from.key(), 0);
    lemma_splices_replay(before, ChangeView::Removed(from));
    lemma_tells_focus(changed(before, ChangeView::Removed(from)).column);
    lemma_without(before.selected, from.key());
    let t = directory_changed(b, before.id, ChangeView::Removed(from));
    match entry_position(before.entries, from) {
        Some(at) => {
            lemma_taken(before.entries, at);
            assert(stands_for(before.entries[at], from));
            assert(t.browser.columns =~= b.columns.update(depth, t.browser.columns[depth]));
            if places_differ(before.entries) {
                assert forall|e: FileEntryView| #[trigger]
                    t.browser.columns[depth].entries.contains(e) <==> before.entries.contains(e)
                        && !stands_for(e, from) by {
                    assert(before.entries.remove(at).contains(e) <==> before.entries.contains(e)
                        && !stands_for(e, before.entries[at].location));
                }
            }
        },
        None => {
            assert(t.browser.columns =~= b.columns);
            assert forall|e: FileEntryView| before.entries.contains(e) implies !stands_for(e, from) by {
                let k = choose|k: int| 0 <= k < before.entries.len() && before.entries[k] == e;
                assert(before.entries[k].location.key() != from.key());
            }
        },
    }
}

proof fn lemma_without(places: Seq<LocationView>, key: LocationKey)
    ensures
        forall|p: LocationView| #[trigger]
            without(places, key).contains(p) <==> places.contains(p) && p.key() != key,
    decreases places.len(),
{
    if places.len() > 0 {
        let rest = places.drop_last();
        let kept = without(rest, key);
        lemma_without(rest, key);
        assert forall|p: LocationView| #[trigger]
            without(places, key).contains(p) <==> places.contains(p) && p.key() != key by {
            assert(kept.contains(p) <==> rest.contains(p) && p.key() != key);
            if rest.contains(p) {
                let k = choose|k: int| 0 <= k < rest.len() && rest[k] == p;
                assert(places[k] == p);
            }
            if places.contains(p) {
                let k = choose|k: int| 0 <= k < places.len() && places[k] == p;
                if k < rest.len() {
                    assert(rest[k] == p);
                } else {
                    assert(p == places.last());
                }
            }
            assert(places[places.len() - 1] == places.last());
            if places.last().key() != key {
                let longer = kept.push(places.last());
                assert(longer[kept.len() as int] == places.last());
                if kept.contains(p) {
                    let k = choose|k: int| 0 <= k < kept.len() && kept[k] == p;
                    assert(longer[k] == p);
                }
                if longer.contains(p) {
                    let k = choose|k: int| 0 <= k < longer.len() && longer[k] == p;
                    if k < kept.len() {
                        assert(kept[k] == p);
                    }
                }
            }
        }
    }
}

/// After an entry has moved within a column that has been listed, the column holds the entry for
/// its new place, nothing for the place it came from, and for all other places what it held. Where
/// the place it came from was selected or focused, the new place is.
pub proof fn lemma_moved_entry(
    b: BrowserState,
    depth: int,
    from: LocationView,
    entry: FileEntryView,
)
    requires
        0 <= depth < b.columns.len(),
        !b.columns[depth].loading,
        forall|i: int| 0 <= i < depth ==> (#[trigger] b.columns[i]).id != b.columns[depth].id,
    ensures
        ({
            let before = b.columns[depth];
            let t = directory_changed(b, before.id, ChangeView::Moved { from, entry });
            let after = t.browser.columns[depth];
            let listed = exists|i: int|
                0 <= i < before.entries.len() && stands_for(#[trigger] before.entries[i], from);
            &&& after.entries.contains(entry)
            &&& forall|e: FileEntryView|
                !stands_for(e, entry.location) && !stands_for(e, from)
                    ==> #[trigger] after.entries.to_multiset().count(e)
                    == before.entries.to_multiset().count(e)
            &&& places_differ(before.entries) ==> {
                &&& places_differ(after.entries)
                &&& forall|e: FileEntryView| #[trigger]
                    after.entries.contains(e) <==> e == entry || (before.entries.contains(e)
                        && !stands_for(e, entry.location) && !stands_for(e, from))
            }
            &&& t.requests.len() == 0
            &&& t.browser == (BrowserState { columns: b.columns.update(depth, after), ..b })
            &&& t.events.len() == 1
            &&& t.events[0] is EntriesSpliced
            &&& t.events[0]->EntriesSpliced_depth == depth
            &&& with_splices(before.entries, t.events[0]->EntriesSpliced_splices) == after.entries
            &&& tells_focus(after, t.events[0]->EntriesSpliced_selected)
            &&& !listed ==> after.selected == before.selected && after.focused == before.focused
            &&& listed ==> {
                &&& after.selected.len() == before.selected.len()
                &&& forall|k: int|
                    0 <= k < before.selected.len() ==> #[trigger] after.selected[k]
                        == if before.selected[k].key() == from.key() {
                        entry.location
                    } else {
                        before.selected[k]
                    }
                &&& match before.focused {
                    Some(p) => after.focused == if p.key() == from.key() {
                        Some(entry.location)
                    } else {
                        Some(p)
                    },
                    None => after.focused is None,
                }
            }
        }),
{
    let before = b.columns[depth];
    let c = Change { column: before, splices: Seq::empty() };
    lemma_the_column(b, depth);
    lemma_entry_position(before.entries, from.key(), 0);
    lemma_splices_replay(before, ChangeView::Moved { from, entry });
    lemma_tells_focus(changed(before, ChangeView::Moved { from, entry }).column);
    let t = directory_changed(b, before.id, ChangeView::Moved { from, entry });
    let after = t.browser.columns[depth];
    match entry_position(before.entries, from) {
        Some(at) => {
            assert(stands_for(before.entries[at], from));
            lemma_taken(before.entries, at);
            let out = take_out(c, at);
            let kept = Change {
                column: ColumnState {
                    selected: followed(before.selected, from.key(), entry.location),
                    focused: focus_followed(
                        before.focused,
                        from.key(),
                        entry.location,
                    ),
                    ..out.column
                },
                ..out
            };
            lemma_upsert(kept, entry);
            let rest = before.entries.remove(at);
            assert forall|e: FileEntryView|
                !stands_for(e, entry.location) && !stands_for(e, from) implies #[trigger] after.entries.to_multiset().count(
            e) == before.entries.to_multiset().count(e) by {
                assert(rest.to_multiset().count(e) == before.entries.to_multiset().count(e));
            }
            if places_differ(before.entries) {
                assert forall|e: FileEntryView| #[trigger]
                    after.entries.contains(e) <==> e == entry || (before.entries.contains(e)
                        && !stands_for(e, entry.location) && !stands_for(e, from)) by {
                    assert(rest.contains(e) <==> before.entries.contains(e) && !stands_for(
                        e,
                        before.entries[at].location,
                    ));
                }
            }
        },
        None => {
            lemma_upsert(c, entry);
            assert forall|e: FileEntryView| before.entries.contains(e) implies !stands_for(e, from) by {
                let k = choose|k: int| 0 <= k < before.entries.len() && before.entries[k] == e;
                assert(before.entries[k].location.key() != from.key());
            }
        },
    }
}

/// A change that cannot be told exactly, or that comes while a column is still being listed, has
/// the column listed anew.
pub proof fn lemma_listed_anew(b: BrowserState, depth: int, change: ChangeView)
    requires
        0 <= depth < b.columns.len(),
        change is Rescan || b.columns[depth].loading,
        forall|i: int| 0 <= i < depth ==> (#[trigger] b.columns[i]).id != b.columns[depth].id,
    ensures
        ({
            let before = b.columns[depth];
            let t = directory_changed(b, before.id, change);
            let n = t.requests.len();
            &&& t.browser.columns == b.columns.update(
                depth,
                ColumnState { entries: Seq::empty(), id: b.next_id, loading: true, ..before },
            )
            &&& t.events == seq![EventView::ColumnReloaded { depth }]
            &&& n >= 2
            &&& t.requests[n - 2] == (RequestView::Enumerate {
                id: b.next_id,
                location: before.location,
                include_hidden: b.include_hidden,
            })
            &&& t.requests[n - 1] == (RequestView::Watch {
                id: b.next_id,
                location: before.location,
                include_hidden: b.include_hidden,
            })
            &&& t.requests[n - 3] == (RequestView::StopWatch { id: before.id })
        }),
{
    lemma_the_column(b, depth);
}

// Listings.

/// A batch of the listing that fills a column adds its entries to those that are there, all of them
/// and nothing else, in the order of the column. The insertions that are told make the new rows out
/// of the old ones.
pub proof fn lemma_batch_is_added(b: BrowserState, depth: int, batch: Seq<FileEntryView>)
    requires
        0 <= depth < b.columns.len(),
        b.columns[depth].loading,
        is_sorted(b.columns[depth].sort, b.columns[depth].entries),
        forall|i: int| 0 <= i < depth ==> (#[trigger] b.columns[i]).id != b.columns[depth].id,
    ensures
        ({
            let before = b.columns[depth];
            let t = batch_arrived(b, before.id, batch);
            let after = t.browser.columns[depth];
            &&& after.entries.to_multiset() == before.entries.to_multiset().add(batch.to_multiset())
            &&& after.entries.len() == before.entries.len() + batch.len()
            &&& forall|i: int, j: int|
                0 <= i < j < after.entries.len() ==> entry_order(
                    before.sort,
                    #[trigger] after.entries[i],
                    #[trigger] after.entries[j],
                ) <= 0
            &&& after == (ColumnState { entries: after.entries, ..before })
            &&& t.browser == (BrowserState { columns: b.columns.update(depth, after), ..b })
            &&& t.requests.len() == 0
            &&& t.events.len() == 1
            &&& t.events[0] is EntriesInserted
            &&& t.events[0]->EntriesInserted_depth == depth
            &&& with_insertions(before.entries, t.events[0]->EntriesInserted_insertions)
                == after.entries
        }),
{
    let before = b.columns[depth];
    lemma_the_column(b, depth);
    lemma_sorted(before.sort, batch);
    lemma_merged(before.sort, before.entries, sorted(before.sort, batch));
    lemma_insertions_replay(before.sort, before.entries, sorted(before.sort, batch));
}

/// A batch of the listing that fills the peek is told as it came, and changes nothing.
pub proof fn lemma_batch_is_peeked_at(b: BrowserState, peek: PeekState, batch: Seq<FileEntryView>)
    requires
        b.peek == Some(peek),
        peek.loading,
        forall|i: int| 0 <= i < b.columns.len() ==> (#[trigger] b.columns[i]).id != peek.id,
    ensures
        ({
            let t = batch_arrived(b, peek.id, batch);
            &&& t.browser == b
            &&& t.requests.len() == 0
            &&& t.events == seq![EventView::PeekEntriesAdded { entries: batch }]
        }),
{
    lemma_column_from(b.columns, peek.id, 0);
}

/// The end of a listing is told, and its failure with the message. The column or the peek that it
/// filled is filled no longer, and keeps all that it has.
pub proof fn lemma_listing_ends(b: BrowserState, depth: int, message: Seq<char>)
    requires
        0 <= depth < b.columns.len(),
        b.columns[depth].loading,
        forall|i: int| 0 <= i < depth ==> (#[trigger] b.columns[i]).id != b.columns[depth].id,
    ensures
        ({
            let before = b.columns[depth];
            let ended = BrowserState {
                columns: b.columns.update(depth, ColumnState { loading: false, ..before }),
                ..b
            };
            let done = load_finished(b, before.id);
            let broken = load_failed(b, before.id, message);
            &&& done.browser == ended
            &&& done.requests.len() == 0
            &&& done.events[0] == (EventView::LoadFinished { depth })
            &&& done.events.len() <= 2
            &&& done.events.len() == 2 ==> done.events[1] is SelectionSetChanged
            &&& broken.browser == ended
            &&& broken.requests.len() == 0
            &&& broken.events == seq![EventView::LoadFailed { depth, message }]
        }),
{
    lemma_the_column(b, depth);
}

/// The end of the listing that fills the peek is told, and its failure with the message.
pub proof fn lemma_peek_listing_ends(b: BrowserState, peek: PeekState, message: Seq<char>)
    requires
        b.peek == Some(peek),
        peek.loading,
        forall|i: int| 0 <= i < b.columns.len() ==> (#[trigger] b.columns[i]).id != peek.id,
    ensures
        ({
            let ended = BrowserState { peek: Some(PeekState { loading: false, ..peek }), ..b };
            let done = load_finished(b, peek.id);
            let broken = load_failed(b, peek.id, message);
            &&& done.browser == ended && broken.browser == ended
            &&& done.requests.len() == 0 && broken.requests.len() == 0
            &&& done.events == seq![EventView::PeekFinished]
            &&& broken.events == seq![EventView::PeekFailed { message }]
        }),
{
    lemma_column_from(b.columns, peek.id, 0);
}

/// What is told of a listing that fills no column changes nothing.
pub proof fn lemma_changes_elsewhere(b: BrowserState, id: int, change: ChangeView)
    requires
        forall|i: int| 0 <= i < b.columns.len() ==> (#[trigger] b.columns[i]).id != id,
    ensures
        directory_changed(b, id, change).browser == b,
        directory_changed(b, id, change).events.len() == 0,
        directory_changed(b, id, change).requests.len() == 0,
{
    lemma_column_from(b.columns, id, 0);
}

} // verus!
