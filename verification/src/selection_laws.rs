//! What holds of selections and of rows, whatever happens to a column.
use vstd::prelude::*;

use crate::entry::FileEntryView;
use crate::event::SpliceView;
use crate::laws::{
    lemma_column_from, lemma_entry_position, lemma_place_is_merge, lemma_run_keeps_well_formed,
    well_formed, Command,
};
use crate::model::{LocationKey, LocationView};
use crate::order::{lemma_merged, lemma_sorted, merged, sorted, SortPreference};
use crate::sorting::spliced;
use crate::state::{
    among, batch_arrived, changed, column_of, descend, directory_changed, entry_position,
    focus_followed, followed, has_entry, load_finished, place, preview, put_in, rename_item, resort,
    retry_column, selected_below, take_out, upsert, BrowserState, Change, ChangeView, ColumnState,
};

verus! {

/// Whether the entry stands in the column and is selected there.
pub open spec fn is_selected(column: ColumnState, entry: FileEntryView) -> bool {
    exists|i: int|
        column.selected_positions().contains(i) && #[trigger] column.entries[i] == entry
}

proof fn lemma_selected_below(entries: Seq<FileEntryView>, selected: Seq<LocationView>, n: int)
    requires
        0 <= n <= entries.len(),
    ensures
        forall|i: int|
            selected_below(entries, selected, n).contains(i) <==> 0 <= i < n && among(
                selected,
                #[trigger] entries[i].location.key(),
            ),
        forall|k: int, l: int|
            0 <= k < l < selected_below(entries, selected, n).len() ==> selected_below(
                entries,
                selected,
                n,
            )[k] < selected_below(entries, selected, n)[l],
    decreases n,
{
    if n > 0 {
        lemma_selected_below(entries, selected, n - 1);
        let before = selected_below(entries, selected, n - 1);
        let all = selected_below(entries, selected, n);
        assert forall|k: int| 0 <= k < before.len() implies before[k] < n - 1 by {
            assert(before.contains(before[k]));
            assert(among(selected, entries[before[k]].location.key()));
        }
        assert forall|i: int|
            all.contains(i) <==> 0 <= i < n && among(
                selected,
                #[trigger] entries[i].location.key(),
            ) by {
            if all.len() > before.len() {
                assert(all == before.push(n - 1));
                assert(all[before.len() as int] == n - 1);
                if before.contains(i) {
                    let k = choose|k: int| 0 <= k < before.len() && before[k] == i;
                    assert(all[k] == i);
                }
                if all.contains(i) && i != n - 1 {
                    let k = choose|k: int| 0 <= k < all.len() && all[k] == i;
                    assert(before[k] == i);
                }
            }
        }
    }
}

/// The selected positions are the rows whose places are selected, from top to bottom.
pub proof fn lemma_selected_positions(column: ColumnState)
    ensures
        forall|i: int|
            column.selected_positions().contains(i) <==> 0 <= i < column.entries.len() && among(
                column.selected,
                #[trigger] column.entries[i].location.key(),
            ),
        forall|k: int, l: int|
            0 <= k < l < column.selected_positions().len() ==> column.selected_positions()[k]
                < column.selected_positions()[l],
{
    lemma_selected_below(column.entries, column.selected, column.entries.len() as int);
}

/// Sorting a column another way keeps its selection: the same entries are selected before and
/// after, and the same place has the focus.
pub proof fn lemma_sorting_keeps_selection(
    b: BrowserState,
    depth: int,
    sort: SortPreference,
    entry: FileEntryView,
)
    requires
        0 <= depth < b.columns.len(),
    ensures
        is_selected(resort(b, depth, sort).browser.columns[depth], entry) == is_selected(
            b.columns[depth],
            entry,
        ),
        resort(b, depth, sort).browser.columns[depth].focused == b.columns[depth].focused,
{
    broadcast use vstd::seq_lib::group_to_multiset_ensures;

    let before = b.columns[depth];
    let after = resort(b, depth, sort).browser.columns[depth];
    lemma_selected_positions(before);
    lemma_selected_positions(after);
    lemma_sorted(sort, before.entries);
    assert(after.entries.contains(entry) == before.entries.contains(entry)) by {
        assert(after.entries.to_multiset().contains(entry) == before.entries.to_multiset().contains(
            entry,
        ));
    }
    lemma_is_selected(before, entry);
    lemma_is_selected(after, entry);
}

proof fn lemma_is_selected(column: ColumnState, entry: FileEntryView)
    ensures
        is_selected(column, entry) == (column.entries.contains(entry) && among(
            column.selected,
            entry.location.key(),
        )),
{
    lemma_selected_positions(column);
    if column.entries.contains(entry) && among(column.selected, entry.location.key()) {
        let i = choose|i: int| 0 <= i < column.entries.len() && column.entries[i] == entry;
        assert(among(column.selected, column.entries[i].location.key()));
        assert(column.selected_positions().contains(i));
        assert(column.entries[i] == entry);
    }
    if is_selected(column, entry) {
        let i = choose|i: int|
            column.selected_positions().contains(i) && #[trigger] column.entries[i] == entry;
        assert(among(column.selected, column.entries[i].location.key()));
    }
}

/// The browser after the batches of a listing, one after the other.
pub open spec fn listed(b: BrowserState, id: int, batches: Seq<Seq<FileEntryView>>) -> BrowserState
    decreases batches.len(),
{
    if batches.len() == 0 {
        b
    } else {
        batch_arrived(listed(b, id, batches.drop_last()), id, batches.last()).browser
    }
}

/// Whether an entry is in one of the batches.
pub open spec fn in_batches(batches: Seq<Seq<FileEntryView>>, entry: FileEntryView) -> bool {
    exists|k: int| 0 <= k < batches.len() && (#[trigger] batches[k]).contains(entry)
}

proof fn lemma_column_of(b: BrowserState, depth: int)
    requires
        well_formed(b),
        0 <= depth < b.columns.len(),
    ensures
        column_of(b.columns, b.columns[depth].id) == Some(depth),
{
    reveal(well_formed);
    lemma_column_from(b.columns, b.columns[depth].id, 0);
}

proof fn lemma_batch_arrived(
    b: BrowserState,
    depth: int,
    batch: Seq<FileEntryView>,
    entry: FileEntryView,
)
    requires
        well_formed(b),
        0 <= depth < b.columns.len(),
        b.columns[depth].loading,
    ensures
        ({
            let before = b.columns[depth];
            let next = batch_arrived(b, before.id, batch).browser;
            &&& next.columns.len() == b.columns.len()
            &&& next.columns[depth] == ColumnState {
                entries: next.columns[depth].entries,
                ..before
            }
            &&& next.columns[depth].entries.contains(entry) == (before.entries.contains(entry)
                || batch.contains(entry))
        }),
{
    broadcast use vstd::seq_lib::group_to_multiset_ensures;

    lemma_column_of(b, depth);
    let before = b.columns[depth];
    let arrived = sorted(before.sort, batch);
    lemma_sorted(before.sort, batch);
    lemma_merged(before.sort, before.entries, arrived);
    let all = merged(before.sort, before.entries, arrived);
    assert(all.to_multiset().contains(entry) == (before.entries.to_multiset().contains(entry)
        || batch.to_multiset().contains(entry)));
}

proof fn lemma_listed(
    b: BrowserState,
    depth: int,
    batches: Seq<Seq<FileEntryView>>,
    entry: FileEntryView,
)
    requires
        well_formed(b),
        0 <= depth < b.columns.len(),
        b.columns[depth].loading,
        b.columns[depth].entries.len() == 0,
    ensures
        ({
            let next = listed(b, b.columns[depth].id, batches);
            &&& well_formed(next)
            &&& next.columns.len() == b.columns.len()
            &&& next.columns[depth] == ColumnState {
                entries: next.columns[depth].entries,
                ..b.columns[depth]
            }
            &&& next.columns[depth].entries.contains(entry) == in_batches(batches, entry)
        }),
    decreases batches.len(),
{
    if batches.len() > 0 {
        let before = batches.drop_last();
        let id = b.columns[depth].id;
        lemma_listed(b, depth, before, entry);
        let partly = listed(b, id, before);
        lemma_batch_arrived(partly, depth, batches.last(), entry);
        lemma_run_keeps_well_formed(partly, Command::BatchArrived { id, batch: batches.last() });
        if in_batches(before, entry) {
            let k = choose|k: int| 0 <= k < before.len() && (#[trigger] before[k]).contains(entry);
            assert(batches[k].contains(entry));
        }
        if in_batches(batches, entry) {
            let k = choose|k: int|
                0 <= k < batches.len() && (#[trigger] batches[k]).contains(entry);
            if k < before.len() {
                assert(before[k].contains(entry));
            }
        }
        if batches.last().contains(entry) {
            assert(batches[batches.len() - 1].contains(entry));
        }
    }
}

/// A reload keeps the selection. In whatever batches the listing comes, an entry of it is selected
/// exactly if its place was selected before, and the same place has the focus. A change that cannot
/// be told exactly is such a reload.
pub proof fn lemma_reload_keeps_selection(
    b: BrowserState,
    depth: int,
    batches: Seq<Seq<FileEntryView>>,
    entry: FileEntryView,
)
    requires
        well_formed(b),
        0 <= depth < b.columns.len(),
    ensures
        ({
            let id = b.next_id;
            let reloaded = retry_column(b, depth).browser;
            let done = load_finished(listed(reloaded, id, batches), id).browser;
            &&& is_selected(done.columns[depth], entry) == (in_batches(batches, entry) && among(
                b.columns[depth].selected,
                entry.location.key(),
            ))
            &&& done.columns[depth].focused == b.columns[depth].focused
            &&& !done.columns[depth].loading
        }),
        directory_changed(b, b.columns[depth].id, ChangeView::Rescan) == retry_column(b, depth),
{
    let id = b.next_id;
    let reloaded = retry_column(b, depth).browser;
    lemma_column_of(b, depth);
    lemma_run_keeps_well_formed(b, Command::RetryColumn { depth });
    lemma_listed(reloaded, depth, batches, entry);
    let all = listed(reloaded, id, batches);
    lemma_column_of(all, depth);
    let done = load_finished(all, id).browser;
    lemma_is_selected(done.columns[depth], entry);
}

/// The rows after all splices, one after the other.
pub open spec fn with_splices(rows: Seq<FileEntryView>, splices: Seq<SpliceView>) -> Seq<
    FileEntryView,
>
    decreases splices.len(),
{
    if splices.len() == 0 {
        rows
    } else {
        let before = with_splices(rows, splices.drop_last());
        let last = splices.last();
        spliced(before, last.position, last.removed, last.entries)
    }
}

/// A column whose splices lead from `rows` to its entries.
spec fn replays(rows: Seq<FileEntryView>, c: Change) -> bool {
    with_splices(rows, c.splices) == c.column.entries
}

proof fn lemma_take_out_replays(rows: Seq<FileEntryView>, c: Change, at: int)
    requires
        replays(rows, c),
        0 <= at < c.column.entries.len(),
    ensures
        replays(rows, take_out(c, at)),
{
    let done = take_out(c, at);
    assert(done.splices.drop_last() =~= c.splices);
    assert(done.column.entries =~= spliced(c.column.entries, at, 1, Seq::empty()));
}

proof fn lemma_put_in_replays(rows: Seq<FileEntryView>, c: Change, entry: FileEntryView)
    requires
        replays(rows, c),
    ensures
        replays(rows, put_in(c, entry)),
{
    let done = put_in(c, entry);
    lemma_place_is_merge(c.column.sort, c.column.entries, entry);
    let at = place(c.column.sort, c.column.entries, entry);
    assert(done.splices.drop_last() =~= c.splices);
    assert(done.column.entries =~= spliced(c.column.entries, at, 0, seq![entry]));
}

proof fn lemma_upsert_replays(rows: Seq<FileEntryView>, c: Change, entry: FileEntryView)
    requires
        replays(rows, c),
    ensures
        replays(rows, upsert(c, entry)),
{
    lemma_entry_position(c.column.entries, entry.location.key(), 0);
    match entry_position(c.column.entries, entry.location) {
        Some(at) => {
            if place(c.column.sort, c.column.entries.remove(at), entry) == at {
                let done = upsert(c, entry);
                assert(done.splices.drop_last() =~= c.splices);
                assert(done.column.entries =~= spliced(c.column.entries, at, 1, seq![entry]));
            } else {
                lemma_take_out_replays(rows, c, at);
                lemma_put_in_replays(rows, take_out(c, at), entry);
            }
        },
        None => {
            lemma_put_in_replays(rows, c, entry);
        },
    }
}

/// The splices that a change gives rise to turn the rows of the column as it was into the rows
/// of the column as it is.
pub proof fn lemma_splices_replay(column: ColumnState, change: ChangeView)
    ensures
        with_splices(column.entries, changed(column, change).splices) == changed(
            column,
            change,
        ).column.entries,
{
    let c = Change { column, splices: Seq::empty() };
    assert(replays(column.entries, c));
    match change {
        ChangeView::Upsert(entry) => {
            lemma_upsert_replays(column.entries, c, entry);
        },
        ChangeView::Removed(from) => {
            lemma_entry_position(column.entries, from.key(), 0);
            if let Some(at) = entry_position(column.entries, from) {
                lemma_take_out_replays(column.entries, c, at);
            }
        },
        ChangeView::Moved { from, entry } => {
            lemma_entry_position(column.entries, from.key(), 0);
            match entry_position(column.entries, from) {
                Some(at) => {
                    lemma_take_out_replays(column.entries, c, at);
                    let out = take_out(c, at);
                    let kept = Change {
                        column: ColumnState {
                            selected: followed(column.selected, from.key(), entry.location),
                            focused: focus_followed(column.focused, from.key(), entry.location),
                            ..out.column
                        },
                        ..out
                    };
                    lemma_upsert_replays(column.entries, kept, entry);
                },
                None => {
                    lemma_upsert_replays(column.entries, c, entry);
                },
            }
        },
        ChangeView::Rescan => {},
    }
}

/// A change selects nothing that was not selected, and unselects only what is gone: a place
/// other than the one that changed is selected after the change exactly if it was before. What
/// moves stays selected under its new place, and where what moves was not listed, the selection and
/// the focus stay as they are.
pub proof fn lemma_change_keeps_selection(column: ColumnState, change: ChangeView, key: LocationKey)
    ensures
        change is Upsert || change is Rescan ==> changed(column, change).column.selected
            == column.selected && changed(column, change).column.focused == column.focused,
        change matches ChangeView::Removed(from) ==> key != from.key() ==> among(
            changed(column, change).column.selected,
            key,
        ) == among(column.selected, key),
        change matches ChangeView::Moved { from, entry } ==> entry_position(column.entries, from)
            is Some ==> {
            &&& key != from.key() && key != entry.location.key() ==> among(
                changed(column, change).column.selected,
                key,
            ) == among(column.selected, key)
            &&& among(column.selected, from.key()) ==> among(
                changed(column, change).column.selected,
                entry.location.key(),
            )
        },
        change matches ChangeView::Moved { from, .. } ==> entry_position(column.entries, from)
            is None ==> changed(column, change).column.selected == column.selected && changed(
            column,
            change,
        ).column.focused == column.focused,
{
    match change {
        ChangeView::Removed(from) => {
            if key != from.key() {
                lemma_without(column.selected, from.key(), key);
            }
        },
        ChangeView::Moved { from, entry } => {
            if entry_position(column.entries, from) is Some {
                let after = followed(column.selected, from.key(), entry.location);
                if among(column.selected, from.key()) {
                    let k = choose|k: int|
                        0 <= k < column.selected.len() && (#[trigger] column.selected[k]).key()
                            == from.key();
                    assert(after[k] == entry.location);
                }
                if key != from.key() && key != entry.location.key() {
                    if among(column.selected, key) {
                        let k = choose|k: int|
                            0 <= k < column.selected.len() && (#[trigger] column.selected[k]).key()
                                == key;
                        assert(after[k] == column.selected[k]);
                    }
                    if among(after, key) {
                        let k = choose|k: int|
                            0 <= k < after.len() && (#[trigger] after[k]).key() == key;
                        assert(after[k] == column.selected[k]);
                    }
                }
            }
        },
        _ => {},
    }
}

proof fn lemma_without(places: Seq<LocationView>, gone: LocationKey, key: LocationKey)
    requires
        gone != key,
    ensures
        among(crate::state::without(places, gone), key) == among(places, key),
    decreases places.len(),
{
    if places.len() > 0 {
        let before = places.drop_last();
        let kept = crate::state::without(before, gone);
        lemma_without(before, gone, key);
        let all = crate::state::without(places, gone);
        if among(before, key) {
            let k = choose|k: int| 0 <= k < before.len() && (#[trigger] before[k]).key() == key;
            assert(places[k].key() == key);
            let l = choose|l: int| 0 <= l < kept.len() && (#[trigger] kept[l]).key() == key;
            assert(all[l].key() == key);
        }
        if places.last().key() == key {
            assert(places[places.len() - 1].key() == key);
            assert(all[kept.len() as int].key() == key);
        }
        if among(places, key) && places.last().key() != key {
            let k = choose|k: int| 0 <= k < places.len() && (#[trigger] places[k]).key() == key;
            assert(before[k].key() == key);
        }
        if among(all, key) {
            let l = choose|l: int| 0 <= l < all.len() && (#[trigger] all[l]).key() == key;
            if l < kept.len() {
                assert(kept[l].key() == key);
            }
        }
    }
}

/// A folder that has been opened out of the last column stays what a rename is for, as long as
/// nothing has the focus in the column that shows it.
pub proof fn lemma_open_folder_is_rename_target(b: BrowserState, position: int)
    requires
        b.columns.len() > 0,
        has_entry(b, b.columns.len() - 1, position),
        b.columns.last().entries[position].is_directory(),
        forall|i: int|
            0 <= i < position ==> (#[trigger] b.columns.last().entries[i]).location.key()
                != b.columns.last().entries[position].location.key(),
    ensures
        ({
            let depth = b.columns.len() - 1;
            let entry = b.columns[depth].entries[position];
            let opened = descend(preview(b, depth, position).browser, depth, entry.location, Ok(()));
            rename_item(opened.browser) == Some((depth, position, entry))
        }),
{
    let depth = b.columns.len() - 1;
    let entry = b.columns[depth].entries[position];
    let entries = b.columns[depth].entries;
    lemma_entry_position(entries, entry.location.key(), 0);
    let opened = descend(
        preview(b, depth, position).browser,
        depth,
        entry.location,
        Ok(()),
    ).browser;
    assert(opened.columns.len() == depth + 2);
    assert(opened.columns[depth].entries == entries);
}

} // verus!
