//! What the order of a column means: which of two entries comes first.
use vstd::prelude::*;

use crate::entry::{EntryKind, FileEntryView, MetadataValue};
use crate::order::{
    entry_order, lemma_entry_order_is_total, lemma_sorted, sorted, text_order, SortDirection,
    SortKey, SortPreference,
};
use crate::state::{set_folders_first, set_sort_direction, set_sort_key, BrowserState, ColumnState};

verus! {

/// Whether an entry is a folder or leads to one.
pub open spec fn is_folder(entry: FileEntryView) -> bool {
    entry.kind is Directory || entry.kind is DirectoryLink
}

/// Whether nothing but the key and the direction decides between two entries: they are both folders
/// or both none, or folders are not put first.
pub open spec fn on_a_par(sort: SortPreference, a: FileEntryView, b: FileEntryView) -> bool {
    sort.folders_first ==> is_folder(a) == is_folder(b)
}

/// Where folders come first, every folder comes before every other entry, by every key and in both
/// directions.
pub proof fn lemma_folders_come_first(sort: SortPreference, folder: FileEntryView, other: FileEntryView)
    requires
        sort.folders_first,
        is_folder(folder),
        !is_folder(other),
    ensures
        entry_order(sort, folder, other) < 0,
        entry_order(sort, other, folder) > 0,
{
}

/// By every key, descending is ascending the other way round.
pub proof fn lemma_descending_is_reversed(
    up: SortPreference,
    down: SortPreference,
    a: FileEntryView,
    b: FileEntryView,
)
    requires
        up.direction is Ascending,
        down.direction is Descending,
        up.key == down.key,
        up.folders_first == down.folders_first,
        on_a_par(up, a, b),
    ensures
        entry_order(down, a, b) == entry_order(up, b, a),
        entry_order(down, a, b) == -entry_order(up, a, b),
{
    lemma_entry_order_is_total(up, a, b, a);
}

/// By size, of two entries whose sizes are known and different, the smaller one comes first when
/// ascending, and the larger one when descending. An entry whose size is not known counts as
/// smaller than any other.
pub proof fn lemma_order_by_size(sort: SortPreference, a: FileEntryView, b: FileEntryView)
    requires
        sort.key is Size,
        on_a_par(sort, a, b),
        match (a.size, b.size) {
            (MetadataValue::Known(m), MetadataValue::Known(n)) => m < n,
            (MetadataValue::Known(_), _) => false,
            (_, MetadataValue::Known(_)) => true,
            _ => false,
        },
    ensures
        sort.direction is Ascending ==> entry_order(sort, a, b) < 0 && entry_order(sort, b, a) > 0,
        sort.direction is Descending ==> entry_order(sort, b, a) < 0 && entry_order(sort, a, b) > 0,
{
}

/// By time, of two entries whose times are known and different, the earlier one comes first when
/// ascending, and the later one when descending. An entry whose time is not known counts as earlier
/// than any other.
pub proof fn lemma_order_by_time(sort: SortPreference, a: FileEntryView, b: FileEntryView)
    requires
        sort.key is Modified,
        on_a_par(sort, a, b),
        match (a.modified_unix_seconds, b.modified_unix_seconds) {
            (MetadataValue::Known(m), MetadataValue::Known(n)) => m < n,
            (MetadataValue::Known(_), _) => false,
            (_, MetadataValue::Known(_)) => true,
            _ => false,
        },
    ensures
        sort.direction is Ascending ==> entry_order(sort, a, b) < 0 && entry_order(sort, b, a) > 0,
        sort.direction is Descending ==> entry_order(sort, b, a) < 0 && entry_order(sort, a, b) > 0,
{
}

/// Whether entries of the one kind come before entries of the other by type: directories, then
/// files, then links to directories, to files and to nothing.
pub open spec fn comes_before_by_type(a: EntryKind, b: EntryKind) -> bool {
    match a {
        EntryKind::Directory => !(b is Directory),
        EntryKind::File => b is DirectoryLink || b is FileLink || b is BrokenLink,
        EntryKind::DirectoryLink => b is FileLink || b is BrokenLink,
        EntryKind::FileLink => b is BrokenLink,
        EntryKind::BrokenLink => false,
    }
}

/// By type, entries of different kinds come in the order of their kinds, the other way round when
/// descending.
pub proof fn lemma_order_by_type(sort: SortPreference, a: FileEntryView, b: FileEntryView)
    requires
        sort.key is Type,
        on_a_par(sort, a, b),
        comes_before_by_type(a.kind, b.kind),
    ensures
        sort.direction is Ascending ==> entry_order(sort, a, b) < 0 && entry_order(sort, b, a) > 0,
        sort.direction is Descending ==> entry_order(sort, b, a) < 0 && entry_order(sort, a, b) > 0,
{
}

/// Whether a text comes before another: it is a beginning of the other, or has the smaller
/// character where they first differ.
pub open spec fn reads_before(a: Seq<char>, b: Seq<char>) -> bool {
    exists|n: int| #[trigger] differ_first_at(a, b, n)
}

/// Whether the texts agree up to a position, at which the first has ended or has the smaller
/// character.
pub open spec fn differ_first_at(a: Seq<char>, b: Seq<char>, n: int) -> bool {
    &&& 0 <= n <= a.len()
    &&& n < b.len()
    &&& forall|i: int| 0 <= i < n ==> #[trigger] a[i] == b[i]
    &&& n < a.len() ==> a[n] < b[n]
}

/// Texts come in the order of the dictionary, and only equal texts tie.
pub proof fn lemma_text_order(a: Seq<char>, b: Seq<char>)
    ensures
        text_order(a, b) < 0 <==> reads_before(a, b),
        text_order(a, b) > 0 <==> reads_before(b, a),
        text_order(a, b) == 0 <==> a == b,
    decreases a.len(),
{
    if a.len() == 0 || b.len() == 0 {
        if a.len() == 0 && b.len() > 0 {
            assert(differ_first_at(a, b, 0));
        }
        if b.len() == 0 && a.len() > 0 {
            assert(differ_first_at(b, a, 0));
        }
        if a.len() == 0 && b.len() == 0 {
            assert(a =~= b);
        }
    } else if a[0] != b[0] {
        if a[0] < b[0] {
            assert(differ_first_at(a, b, 0));
            assert forall|n: int| !differ_first_at(b, a, n) by {
                if differ_first_at(b, a, n) {
                    assert(n == 0 || b[0] == a[0]);
                }
            }
        } else {
            assert(differ_first_at(b, a, 0));
            assert forall|n: int| !differ_first_at(a, b, n) by {
                if differ_first_at(a, b, n) {
                    assert(n == 0 || b[0] == a[0]);
                }
            }
        }
    } else {
        let x = a.drop_first();
        let y = b.drop_first();
        lemma_text_order(x, y);
        lemma_reads_before_rest(a, b);
        lemma_reads_before_rest(b, a);
        if x == y {
            assert(a =~= seq![a[0]] + x);
            assert(b =~= seq![b[0]] + y);
        }
    }
}

proof fn lemma_reads_before_rest(a: Seq<char>, b: Seq<char>)
    requires
        a.len() > 0,
        b.len() > 0,
        a[0] == b[0],
    ensures
        reads_before(a, b) <==> reads_before(a.drop_first(), b.drop_first()),
{
    let x = a.drop_first();
    let y = b.drop_first();
    if reads_before(a, b) {
        let n = choose|n: int| differ_first_at(a, b, n);
        assert(n > 0);
        assert forall|i: int| 0 <= i < n - 1 implies #[trigger] x[i] == y[i] by {
            assert(a[i + 1] == b[i + 1]);
        }
        assert(differ_first_at(x, y, n - 1));
    }
    if reads_before(x, y) {
        let n = choose|n: int| differ_first_at(x, y, n);
        assert forall|i: int| 0 <= i < n + 1 implies #[trigger] a[i] == b[i] by {
            if i > 0 {
                assert(x[i - 1] == y[i - 1]);
            }
        }
        assert(differ_first_at(a, b, n + 1));
    }
}

/// Whether a key tells two entries apart.
pub open spec fn told_apart(key: SortKey, a: FileEntryView, b: FileEntryView) -> bool {
    match key {
        SortKey::Name => false,
        SortKey::Size => match (a.size, b.size) {
            (MetadataValue::Known(m), MetadataValue::Known(n)) => m != n,
            (MetadataValue::Known(_), _) => true,
            (_, MetadataValue::Known(_)) => true,
            _ => false,
        },
        SortKey::Modified => match (a.modified_unix_seconds, b.modified_unix_seconds) {
            (MetadataValue::Known(m), MetadataValue::Known(n)) => m != n,
            (MetadataValue::Known(_), _) => true,
            (_, MetadataValue::Known(_)) => true,
            _ => false,
        },
        SortKey::Type => a.kind != b.kind,
    }
}

/// By name, and between entries that the key does not tell apart, the names decide: ascending, the
/// name that reads first comes first; descending, it comes last. Entries of one name tie.
pub proof fn lemma_order_by_name(sort: SortPreference, a: FileEntryView, b: FileEntryView)
    requires
        on_a_par(sort, a, b),
        !told_apart(sort.key, a, b),
    ensures
        reads_before(a.display_name, b.display_name) ==> {
            &&& sort.direction is Ascending ==> entry_order(sort, a, b) < 0
            &&& sort.direction is Descending ==> entry_order(sort, a, b) > 0
        },
        a.display_name == b.display_name <==> entry_order(sort, a, b) == 0,
{
    lemma_text_order(a.display_name, b.display_name);
    lemma_text_order(b.display_name, a.display_name);
    if a.display_name == b.display_name {
        lemma_text_order(a.display_name, a.display_name);
    }
}

/// A column that has been sorted another way: it is sorted by the preference, holds what it held,
/// and is otherwise as it was.
pub open spec fn sorted_anew(before: ColumnState, sort: SortPreference, after: ColumnState) -> bool {
    &&& after.sort == sort
    &&& after.entries.to_multiset() == before.entries.to_multiset()
    &&& after.entries.len() == before.entries.len()
    &&& forall|i: int, j: int|
        0 <= i < j < after.entries.len() ==> entry_order(
            sort,
            #[trigger] after.entries[i],
            #[trigger] after.entries[j],
        ) <= 0
    &&& after.location == before.location
    &&& after.selected == before.selected
    &&& after.focused == before.focused
    &&& after.id == before.id
    &&& after.loading == before.loading
}

/// Each choice of an order changes that part of the preference of that column, and no other; the
/// entries stay the same and come into that order. The other columns, the history and the peek
/// stay, and nothing is asked for. The new rows are told.
pub proof fn lemma_choosing_an_order(
    b: BrowserState,
    depth: int,
    key: SortKey,
    direction: SortDirection,
    folders_first: bool,
)
    requires
        0 <= depth < b.columns.len(),
    ensures
        ({
            let before = b.columns[depth];
            let keyed = set_sort_key(b, depth, key);
            let directed = set_sort_direction(b, depth, direction);
            let grouped = set_folders_first(b, depth, folders_first);
            &&& sorted_anew(
                before,
                SortPreference {
                    key,
                    direction: before.sort.direction,
                    folders_first: before.sort.folders_first,
                },
                keyed.browser.columns[depth],
            )
            &&& sorted_anew(
                before,
                SortPreference {
                    key: before.sort.key,
                    direction,
                    folders_first: before.sort.folders_first,
                },
                directed.browser.columns[depth],
            )
            &&& sorted_anew(
                before,
                SortPreference {
                    key: before.sort.key,
                    direction: before.sort.direction,
                    folders_first,
                },
                grouped.browser.columns[depth],
            )
            &&& forall|i: int|
                0 <= i < b.columns.len() && i != depth ==> {
                    &&& #[trigger] keyed.browser.columns[i] == b.columns[i]
                    &&& directed.browser.columns[i] == b.columns[i]
                    &&& grouped.browser.columns[i] == b.columns[i]
                }
            &&& keyed.browser == (BrowserState { columns: keyed.browser.columns, ..b })
            &&& directed.browser == (BrowserState { columns: directed.browser.columns, ..b })
            &&& grouped.browser == (BrowserState { columns: grouped.browser.columns, ..b })
            &&& keyed.browser.columns.len() == b.columns.len()
            &&& directed.browser.columns.len() == b.columns.len()
            &&& grouped.browser.columns.len() == b.columns.len()
            &&& keyed.requests.len() == 0 && directed.requests.len() == 0 && grouped.requests.len()
                == 0
            &&& keyed.events[0]->EntriesReplaced_entries == keyed.browser.columns[depth].entries
            &&& directed.events[0]->EntriesReplaced_entries
                == directed.browser.columns[depth].entries
            &&& grouped.events[0]->EntriesReplaced_entries == grouped.browser.columns[depth].entries
            &&& keyed.events[0] is EntriesReplaced && keyed.events[0]->EntriesReplaced_depth == depth
            &&& directed.events[0] is EntriesReplaced && directed.events[0]->EntriesReplaced_depth
                == depth
            &&& grouped.events[0] is EntriesReplaced && grouped.events[0]->EntriesReplaced_depth
                == depth
        }),
{
    let sort = b.columns[depth].sort;
    lemma_sorted(SortPreference { key, ..sort }, b.columns[depth].entries);
    lemma_sorted(SortPreference { direction, ..sort }, b.columns[depth].entries);
    lemma_sorted(SortPreference { folders_first, ..sort }, b.columns[depth].entries);
}

/// In a column that is sorted by size with the largest first, no entry is larger than one before
/// it, folders aside where they come first.
pub proof fn lemma_largest_first(b: BrowserState, depth: int, i: int, j: int)
    requires
        0 <= depth < b.columns.len(),
        0 <= i < j < b.columns[depth].entries.len(),
    ensures
        ({
            let by_size = set_sort_key(b, depth, SortKey::Size).browser;
            let down = set_sort_direction(by_size, depth, SortDirection::Descending).browser;
            let up = set_sort_direction(by_size, depth, SortDirection::Ascending).browser;
            let sort = b.columns[depth].sort;
            &&& down.columns[depth].entries.len() == b.columns[depth].entries.len()
            &&& up.columns[depth].entries.len() == b.columns[depth].entries.len()
            &&& {
                let larger = down.columns[depth].entries[i];
                let smaller = down.columns[depth].entries[j];
                on_a_par(sort, larger, smaller) && larger.size is Known && smaller.size is Known
                    ==> larger.size->Known_0 >= smaller.size->Known_0
            }
            &&& {
                let smaller = up.columns[depth].entries[i];
                let larger = up.columns[depth].entries[j];
                on_a_par(sort, smaller, larger) && larger.size is Known && smaller.size is Known
                    ==> smaller.size->Known_0 <= larger.size->Known_0
            }
        }),
{
    lemma_choosing_an_order(b, depth, SortKey::Size, SortDirection::Descending, true);
    let by_size = set_sort_key(b, depth, SortKey::Size).browser;
    lemma_choosing_an_order(by_size, depth, SortKey::Size, SortDirection::Descending, true);
    lemma_choosing_an_order(by_size, depth, SortKey::Size, SortDirection::Ascending, true);
    let down = set_sort_direction(by_size, depth, SortDirection::Descending).browser.columns[depth];
    let up = set_sort_direction(by_size, depth, SortDirection::Ascending).browser.columns[depth];
    assert(entry_order(down.sort, down.entries[i], down.entries[j]) <= 0);
    assert(entry_order(up.sort, up.entries[i], up.entries[j]) <= 0);
}

/// Choosing an order for a column that is not there does nothing.
pub proof fn lemma_no_column_to_sort(
    b: BrowserState,
    depth: int,
    key: SortKey,
    direction: SortDirection,
    folders_first: bool,
)
    requires
        !(0 <= depth < b.columns.len()),
    ensures
        set_sort_key(b, depth, key).browser == b,
        set_sort_direction(b, depth, direction).browser == b,
        set_folders_first(b, depth, folders_first).browser == b,
        set_sort_key(b, depth, key).events.len() == 0,
        set_sort_direction(b, depth, direction).events.len() == 0,
        set_folders_first(b, depth, folders_first).events.len() == 0,
{
}

} // verus!
