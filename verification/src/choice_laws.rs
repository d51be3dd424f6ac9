//! What it means to select, to preview, to open and to move the focus.
use vstd::prelude::*;

use crate::change_laws::lemma_listing_ends;
use crate::entry::FileEntryView;
use crate::event::{EventView, RequestView};
use crate::laws::lemma_entry_position;
use crate::model::LocationView;
use crate::order::SortKey;
use crate::selection_laws::lemma_selected_positions;
use crate::state::{
    activate, activate_focused, active_child_position, active_depth, active_location, among,
    entry_position, focus_active, load_finished, location_at, move_selection, places_at, preview,
    rename_item, restored_focus, select, selected_entries, selection_depth, set_selection,
    set_sort_key, BrowserState, ColumnState,
};

verus! {

/// Whether a row is the one that stands for a place: the first one that does.
pub open spec fn is_row_of(entries: Seq<FileEntryView>, place: LocationView, row: int) -> bool {
    &&& 0 <= row < entries.len()
    &&& entries[row].location.key() == place.key()
    &&& forall|i: int| 0 <= i < row ==> (#[trigger] entries[i]).location.key() != place.key()
}

/// Whether no row stands for a place.
pub open spec fn has_no_row(entries: Seq<FileEntryView>, place: LocationView) -> bool {
    forall|i: int| 0 <= i < entries.len() ==> (#[trigger] entries[i]).location.key() != place.key()
}

/// The focused row is the one that stands for the focused place. Without a focused place, and where
/// no row stands for it, there is none.
pub proof fn lemma_focused_row(column: ColumnState)
    ensures
        column.focused is None ==> column.focused_position() is None,
        column.focused matches Some(place) ==> match column.focused_position() {
            Some(row) => is_row_of(column.entries, place, row),
            None => has_no_row(column.entries, place),
        },
{
    if let Some(place) = column.focused {
        lemma_entry_position(column.entries, place.key(), 0);
    }
}

/// The one thing that a command on a row changes: the row is selected, alone, and has the focus.
pub open spec fn row_is_chosen(b: BrowserState, depth: int, row: int, after: BrowserState) -> bool {
    let place = b.columns[depth].entries[row].location;
    &&& after.columns[depth].selected == seq![place]
    &&& after.columns[depth].focused == Some(place)
    &&& after.columns[depth].entries == b.columns[depth].entries
    &&& after.columns[depth].location == b.columns[depth].location
    &&& after.columns[depth].sort == b.columns[depth].sort
    &&& after.columns[depth].id == b.columns[depth].id
    &&& after.columns[depth].loading == b.columns[depth].loading
    &&& after == (BrowserState { columns: b.columns.update(depth, after.columns[depth]), ..b })
}

/// Selecting a row selects that row alone and tells that it has the focus.
pub proof fn lemma_selecting_a_row(b: BrowserState, depth: int, row: int)
    ensures
        ({
            let t = select(b, depth, row);
            if 0 <= depth < b.columns.len() && 0 <= row < b.columns[depth].entries.len() {
                &&& row_is_chosen(b, depth, row, t.browser)
                &&& t.events == seq![EventView::FocusChanged { depth, position: Some(row) }]
                &&& t.requests.len() == 0
            } else {
                t.browser == b && t.events.len() == 0 && t.requests.len() == 0
            }
        }),
{
}

/// Previewing a row selects it. What can be browsed is to be checked, to be opened out of its
/// column; of anything else a preview is asked for.
pub proof fn lemma_previewing_a_row(b: BrowserState, depth: int, row: int)
    ensures
        ({
            let t = preview(b, depth, row);
            if 0 <= depth < b.columns.len() && 0 <= row < b.columns[depth].entries.len() {
                let entry = b.columns[depth].entries[row];
                &&& row_is_chosen(b, depth, row, t.browser)
                &&& if entry.kind is Directory || entry.kind is DirectoryLink {
                    &&& t.requests == seq![RequestView::Validate { depth, location: entry.location }]
                    &&& t.events.len() == 0
                } else {
                    &&& t.requests.len() == 0
                    &&& t.events == seq![EventView::PreviewRequested { entry }]
                }
            } else {
                t.browser == b && t.events.len() == 0 && t.requests.len() == 0
            }
        }),
{
}

/// Opening a row selects it. What can be browsed is to be checked, to be opened out of its column;
/// anything else is to be opened by its application.
pub proof fn lemma_opening_a_row(b: BrowserState, depth: int, row: int)
    ensures
        ({
            let t = activate(b, depth, row);
            if 0 <= depth < b.columns.len() && 0 <= row < b.columns[depth].entries.len() {
                let entry = b.columns[depth].entries[row];
                &&& row_is_chosen(b, depth, row, t.browser)
                &&& if entry.kind is Directory || entry.kind is DirectoryLink {
                    &&& t.requests == seq![RequestView::Validate { depth, location: entry.location }]
                    &&& t.events.len() == 0
                } else {
                    &&& t.requests.len() == 0
                    &&& t.events == seq![EventView::OpenRequested { location: entry.location }]
                }
            } else {
                t.browser == b && t.events.len() == 0 && t.requests.len() == 0
            }
        }),
{
}

/// Opening without saying what opens the focused row of the last column. Without such a row nothing
/// happens.
pub proof fn lemma_opening_the_focus(b: BrowserState, row: int)
    ensures
        b.columns.len() == 0 ==> activate_focused(b).browser == b && activate_focused(b).events.len()
            == 0 && activate_focused(b).requests.len() == 0,
        b.columns.len() > 0 && b.columns.last().focused is None ==> activate_focused(b).browser == b
            && activate_focused(b).events.len() == 0 && activate_focused(b).requests.len() == 0,
        b.columns.len() > 0 ==> (b.columns.last().focused matches Some(place) ==> is_row_of(
            b.columns.last().entries,
            place,
            row,
        ) ==> activate_focused(b) == activate(b, b.columns.len() - 1, row)),
{
    if b.columns.len() > 0 {
        let column = b.columns[b.columns.len() - 1];
        assert(column == b.columns.last());
        lemma_focused_row(column);
        if let Some(place) = column.focused {
            if is_row_of(column.entries, place, row) {
                lemma_one_row(column.entries, place, row);
            }
        }
    }
}

proof fn lemma_one_row(entries: Seq<FileEntryView>, place: LocationView, row: int)
    requires
        is_row_of(entries, place, row),
    ensures
        entry_position(entries, place) == Some(row),
{
    lemma_entry_position(entries, place.key(), 0);
    match entry_position(entries, place) {
        Some(found) => {
            if found < row {
                assert(entries[found].location.key() != place.key());
            }
            if row < found {
                assert(entries[row].location.key() != place.key());
            }
        },
        None => {
            assert(entries[row].location.key() != place.key());
        },
    }
}

/// Moving the focus selects a row of the last column: the row that lies that far from the focused
/// one, and where there is no such row, the last one on the way. Without a focus, going down starts
/// at the first row and going up at the last. A column without rows stays as it is.
pub proof fn lemma_moving_the_focus(b: BrowserState, row: int, delta: int)
    requires
        b.columns.len() > 0,
    ensures
        ({
            let depth = b.columns.len() - 1;
            let column = b.columns[depth];
            let last = column.entries.len() - 1;
            let t = move_selection(b, delta);
            &&& column.entries.len() == 0 ==> t.browser == b && t.events.len() == 0
                && t.requests.len() == 0
            &&& column.entries.len() > 0 && column.focused is None ==> t == select(
                b,
                depth,
                if delta < 0 {
                    last
                } else {
                    0
                },
            )
            &&& column.focused matches Some(place) ==> is_row_of(column.entries, place, row) ==> {
                &&& 0 <= row + delta <= last ==> t == select(b, depth, row + delta)
                &&& row + delta < 0 ==> t == select(b, depth, 0)
                &&& row + delta > last ==> t == select(b, depth, last)
            }
        }),
{
    let column = b.columns[b.columns.len() - 1];
    if let Some(place) = column.focused {
        if is_row_of(column.entries, place, row) {
            lemma_one_row(column.entries, place, row);
        }
    }
}

/// Moving the focus without any column does nothing.
pub proof fn lemma_nothing_to_move(b: BrowserState, delta: int)
    requires
        b.columns.len() == 0,
    ensures
        move_selection(b, delta).browser == b,
        move_selection(b, delta).events.len() == 0,
        move_selection(b, delta).requests.len() == 0,
{
}

/// Giving the last column the focus tells its depth and its focused row, and changes nothing.
pub proof fn lemma_focusing_the_last_column(b: BrowserState)
    ensures
        ({
            let t = focus_active(b);
            &&& t.browser == b
            &&& t.requests.len() == 0
            &&& b.columns.len() == 0 ==> t.events.len() == 0
            &&& b.columns.len() > 0 ==> {
                &&& t.events.len() == 1
                &&& t.events[0] is FocusChanged
                &&& t.events[0]->FocusChanged_depth == b.columns.len() - 1
                &&& match t.events[0]->FocusChanged_position {
                    Some(row) => b.columns.last().focused matches Some(place) && is_row_of(
                        b.columns.last().entries,
                        place,
                        row,
                    ),
                    None => b.columns.last().focused matches Some(place) ==> has_no_row(
                        b.columns.last().entries,
                        place,
                    ),
                }
            }
        }),
{
    if b.columns.len() > 0 {
        lemma_focused_row(b.columns[b.columns.len() - 1]);
    }
}

/// The places are those of the rows at the positions, where there are such rows; nothing else.
proof fn lemma_places_at(entries: Seq<FileEntryView>, positions: Seq<int>)
    ensures
        forall|k: int|
            0 <= k < positions.len() && 0 <= #[trigger] positions[k] < entries.len() ==> places_at(
                entries,
                positions,
            ).contains(entries[positions[k]].location),
        forall|p: LocationView| #[trigger]
            places_at(entries, positions).contains(p) ==> exists|k: int|
                0 <= k < positions.len() && 0 <= #[trigger] positions[k] < entries.len()
                    && entries[positions[k]].location == p,
        (forall|k: int| 0 <= k < positions.len() ==> 0 <= #[trigger] positions[k] < entries.len())
            ==> {
            &&& places_at(entries, positions).len() == positions.len()
            &&& forall|k: int|
                0 <= k < positions.len() ==> #[trigger] places_at(entries, positions)[k]
                    == entries[positions[k]].location
        },
    decreases positions.len(),
{
    if positions.len() > 0 {
        let fewer = positions.drop_last();
        let before = places_at(entries, fewer);
        let all = places_at(entries, positions);
        lemma_places_at(entries, fewer);
        assert forall|k: int|
            0 <= k < positions.len() && 0 <= #[trigger] positions[k] < entries.len() implies all.contains(
        entries[positions[k]].location) by {
            if k < fewer.len() {
                assert(fewer[k] == positions[k]);
                let place = entries[positions[k]].location;
                assert(before.contains(place));
                let l = choose|l: int| 0 <= l < before.len() && before[l] == place;
                assert(all[l] == place);
            } else {
                assert(all[before.len() as int] == entries[positions[k]].location);
            }
        }
        assert forall|p: LocationView| #[trigger] all.contains(p) implies exists|k: int|
            0 <= k < positions.len() && 0 <= #[trigger] positions[k] < entries.len()
                && entries[positions[k]].location == p by {
            let l = choose|l: int| 0 <= l < all.len() && all[l] == p;
            if l < before.len() {
                assert(before[l] == p);
                assert(before.contains(p));
                let k = choose|k: int|
                    0 <= k < fewer.len() && 0 <= #[trigger] fewer[k] < entries.len()
                        && entries[fewer[k]].location == p;
                assert(positions[k] == fewer[k]);
            } else {
                assert(positions[positions.len() - 1] == positions.last());
            }
        }
        if forall|k: int| 0 <= k < positions.len() ==> 0 <= #[trigger] positions[k] < entries.len() {
            assert forall|k: int| 0 <= k < fewer.len() implies 0 <= #[trigger] fewer[k]
                < entries.len() by {
                assert(fewer[k] == positions[k]);
            }
            assert(positions[positions.len() - 1] == positions.last());
            assert forall|k: int| 0 <= k < positions.len() implies #[trigger] all[k]
                == entries[positions[k]].location by {
                if k < fewer.len() {
                    assert(before[k] == entries[fewer[k]].location);
                }
            }
        }
    }
}

/// Taking over a selection selects the places of the rows at the positions, and no others, and
/// gives the focus to the place of the row that is said to have it. Nothing else changes.
pub proof fn lemma_taking_over_a_selection(
    b: BrowserState,
    depth: int,
    positions: Seq<int>,
    focused: Option<int>,
)
    requires
        0 <= depth < b.columns.len(),
    ensures
        ({
            let before = b.columns[depth];
            let after = set_selection(b, depth, positions, focused).columns[depth];
            &&& forall|p: LocationView| #[trigger]
                after.selected.contains(p) <==> exists|k: int|
                    0 <= k < positions.len() && 0 <= #[trigger] positions[k] < before.entries.len()
                        && before.entries[positions[k]].location == p
            &&& (forall|k: int|
                0 <= k < positions.len() ==> 0 <= #[trigger] positions[k] < before.entries.len())
                ==> after.selected.len() == positions.len()
            &&& match focused {
                Some(row) => after.focused == if 0 <= row < before.entries.len() {
                    Some(before.entries[row].location)
                } else {
                    None
                },
                None => after.focused is None,
            }
            &&& after == (ColumnState {
                selected: after.selected,
                focused: after.focused,
                ..before
            })
            &&& set_selection(b, depth, positions, focused) == (BrowserState {
                columns: b.columns.update(depth, after),
                ..b
            })
        }),
{
    let before = b.columns[depth];
    let after = set_selection(b, depth, positions, focused).columns[depth];
    lemma_places_at(before.entries, positions);
    assert forall|p: LocationView| #[trigger] after.selected.contains(p) <==> exists|k: int|
        0 <= k < positions.len() && 0 <= #[trigger] positions[k] < before.entries.len()
            && before.entries[positions[k]].location == p by {}
}

/// Whether a row of a column is selected: its place is among the selected ones.
pub open spec fn row_is_selected(column: ColumnState, row: int) -> bool {
    &&& 0 <= row < column.entries.len()
    &&& exists|k: int|
        0 <= k < column.selected.len() && (#[trigger] column.selected[k]).key()
            == column.entries[row].location.key()
}

/// The rows that are told to be selected are exactly those whose places are selected, from top to
/// bottom, each once.
pub proof fn lemma_selected_rows(column: ColumnState)
    ensures
        ({
            let rows = column.selected_positions();
            &&& forall|row: int| #[trigger] rows.contains(row) <==> row_is_selected(column, row)
            &&& forall|k: int, l: int| 0 <= k < l < rows.len() ==> #[trigger] rows[k] < #[trigger] rows[l]
        }),
{
    lemma_selected_positions(column);
    let rows = column.selected_positions();
    assert forall|row: int| #[trigger] rows.contains(row) <==> row_is_selected(column, row) by {
        if 0 <= row < column.entries.len() {
            assert(among(column.selected, column.entries[row].location.key()) == row_is_selected(
                column,
                row,
            ));
        }
        if rows.contains(row) {
            assert(among(column.selected, column.entries[row].location.key()));
        }
    }
}

proof fn lemma_selection_depth(b: BrowserState, n: int)
    requires
        0 <= n <= b.columns.len(),
    ensures
        match selection_depth(b, n) {
            Some(depth) => {
                &&& 0 <= depth < n
                &&& b.columns[depth].selected_positions().len() > 0
                &&& forall|d: int|
                    depth < d < n ==> (#[trigger] b.columns[d]).selected_positions().len() == 0
            },
            None => forall|d: int|
                0 <= d < n ==> (#[trigger] b.columns[d]).selected_positions().len() == 0,
        },
    decreases n,
{
    if n > 0 && b.columns[n - 1].selected_positions().len() == 0 {
        lemma_selection_depth(b, n - 1);
    }
}

/// The selected entries are the entries of the selected rows of one column, all of them, from top
/// to bottom; no column behind that one has a selected row. Without a selected row there are none.
pub proof fn lemma_selected_entries(b: BrowserState)
    ensures
        selected_entries(b).len() == 0 ==> forall|d: int, row: int|
            0 <= d < b.columns.len() ==> !#[trigger] row_is_selected(b.columns[d], row),
        selected_entries(b).len() > 0 ==> exists|depth: int| #[trigger] come_from(
            b,
            depth,
            selected_entries(b),
        ),
{
    let n = b.columns.len() as int;
    lemma_selection_depth(b, n);
    match selection_depth(b, n) {
        Some(depth) => {
            let rows = b.columns[depth].selected_positions();
            lemma_selected_rows(b.columns[depth]);
            assert forall|d: int, row: int| depth < d < n implies !#[trigger] row_is_selected(
                b.columns[d],
                row,
            ) by {
                lemma_selected_rows(b.columns[d]);
                assert(!b.columns[d].selected_positions().contains(row));
            }
            assert(entries_of_rows(b.columns[depth], rows, selected_entries(b)));
            assert(come_from(b, depth, selected_entries(b)));
        },
        None => {
            assert forall|d: int, row: int| 0 <= d < n implies !#[trigger] row_is_selected(
                b.columns[d],
                row,
            ) by {
                lemma_selected_rows(b.columns[d]);
                assert(!b.columns[d].selected_positions().contains(row));
            }
        },
    }
}

/// Whether entries are those of the rows of a column, one for one.
pub open spec fn entries_of_rows(
    column: ColumnState,
    rows: Seq<int>,
    entries: Seq<FileEntryView>,
) -> bool {
    &&& entries.len() == rows.len()
    &&& forall|k: int| 0 <= k < rows.len() ==> #[trigger] entries[k] == column.entries[rows[k]]
    &&& forall|k: int, l: int| 0 <= k < l < rows.len() ==> #[trigger] rows[k] < #[trigger] rows[l]
    &&& forall|row: int| #[trigger] rows.contains(row) <==> row_is_selected(column, row)
}

/// Whether entries are those of the selected rows of the column at a depth, behind which nothing is
/// selected.
pub open spec fn come_from(b: BrowserState, depth: int, entries: Seq<FileEntryView>) -> bool {
    &&& 0 <= depth < b.columns.len()
    &&& exists|rows: Seq<int>| #[trigger] entries_of_rows(b.columns[depth], rows, entries)
    &&& forall|d: int, row: int|
        depth < d < b.columns.len() ==> !#[trigger] row_is_selected(b.columns[d], row)
}

/// The row behind which the next column opens is the one that stands for the place which that
/// column shows. The last column has none.
pub proof fn lemma_open_row(b: BrowserState, depth: int)
    ensures
        0 <= depth < b.columns.len() - 1 ==> match active_child_position(b, depth) {
            Some(row) => is_row_of(b.columns[depth].entries, b.columns[depth + 1].location, row),
            None => has_no_row(b.columns[depth].entries, b.columns[depth + 1].location),
        },
        !(0 <= depth < b.columns.len() - 1) ==> active_child_position(b, depth) is None,
{
    if 0 <= depth < b.columns.len() - 1 {
        lemma_entry_position(b.columns[depth].entries, b.columns[depth + 1].location.key(), 0);
    }
}

/// What a rename is for: the focused row of the last column; without one, the row of the column
/// before it behind which the last column opens; without that, nothing.
pub proof fn lemma_rename_target(b: BrowserState, row: int)
    requires
        b.columns.len() > 0,
    ensures
        ({
            let last = b.columns.len() - 1;
            let column = b.columns[last];
            let unfocused = column.focused matches Some(place) ==> has_no_row(column.entries, place);
            &&& column.focused matches Some(place) ==> is_row_of(column.entries, place, row)
                ==> rename_item(b) == Some((last, row, column.entries[row]))
            &&& unfocused && last > 0 && is_row_of(
                b.columns[last - 1].entries,
                column.location,
                row,
            ) ==> rename_item(b) == Some((last - 1, row, b.columns[last - 1].entries[row]))
            &&& unfocused && (last == 0 || has_no_row(
                b.columns[last - 1].entries,
                column.location,
            )) ==> rename_item(b) is None
        }),
{
    let last = b.columns.len() - 1;
    let column = b.columns[last];
    lemma_focused_row(column);
    if let Some(place) = column.focused {
        if is_row_of(column.entries, place, row) {
            lemma_one_row(column.entries, place, row);
        }
        if has_no_row(column.entries, place) {
            if let Some(found) = column.focused_position() {
                assert(column.entries[found].location.key() != place.key());
            }
        }
    }
    if last > 0 {
        lemma_open_row(b, last - 1);
        let before = b.columns[last - 1].entries;
        if is_row_of(before, column.location, row) {
            lemma_one_row(before, column.location, row);
        }
        if has_no_row(before, column.location) {
            if let Some(found) = active_child_position(b, last - 1) {
                assert(before[found].location.key() != column.location.key());
            }
        }
    }
}

/// Each column is at its depth, the last one is the active one, and what is shown there is told by
/// its place.
pub proof fn lemma_places_of_columns(b: BrowserState, depth: int)
    ensures
        0 <= depth < b.columns.len() ==> location_at(b, depth) == Some(b.columns[depth].location),
        !(0 <= depth < b.columns.len()) ==> location_at(b, depth) is None,
        b.columns.len() == 0 ==> active_depth(b) is None && active_location(b) is None,
        b.columns.len() > 0 ==> active_depth(b) == Some(b.columns.len() - 1) && active_location(b)
            == Some(b.columns.last().location),
{
}

/// When the listing of a column has ended, the rows whose places are selected are told, from top to
/// bottom, together with the focused row, or else the last selected one. Without a selected row
/// nothing is told of it.
pub proof fn lemma_selection_is_told_again(b: BrowserState, depth: int)
    requires
        0 <= depth < b.columns.len(),
        b.columns[depth].loading,
        forall|i: int| 0 <= i < depth ==> (#[trigger] b.columns[i]).id != b.columns[depth].id,
    ensures
        ({
            let column = b.columns[depth];
            let t = load_finished(b, column.id);
            &&& (forall|row: int| !#[trigger] row_is_selected(column, row)) ==> t.events.len() == 1
            &&& (exists|row: int| #[trigger] row_is_selected(column, row)) ==> {
                &&& t.events.len() == 2
                &&& t.events[1] is SelectionSetChanged
                &&& t.events[1]->SelectionSetChanged_depth == depth
                &&& tells_selection(
                    column,
                    t.events[1]->SelectionSetChanged_positions,
                    t.events[1]->SelectionSetChanged_focused,
                )
            }
        }),
{
    let column = b.columns[depth];
    let after = load_finished(b, column.id).browser.columns[depth];
    lemma_listing_ends(b, depth, Seq::empty());
    assert(after.selected_positions() == column.selected_positions());
    lemma_selected_rows(column);
    let rows = column.selected_positions();
    if rows.len() > 0 {
        lemma_tells_selection(column, after);
        assert(rows.contains(rows[0]));
        assert(row_is_selected(column, rows[0]));
    }
    if exists|row: int| #[trigger] row_is_selected(column, row) {
        let row = choose|row: int| #[trigger] row_is_selected(column, row);
        assert(rows.contains(row));
    }
}

/// Whether rows and a focus tell the selection of a column.
pub open spec fn tells_selection(column: ColumnState, rows: Seq<int>, focus: int) -> bool {
    &&& forall|row: int| #[trigger] rows.contains(row) <==> row_is_selected(column, row)
    &&& forall|k: int, l: int| 0 <= k < l < rows.len() ==> #[trigger] rows[k] < #[trigger] rows[l]
    &&& match column.focused {
        Some(place) => is_row_of(column.entries, place, focus) || (has_no_row(column.entries, place)
            && focus == rows.last()),
        None => focus == rows.last(),
    }
}

proof fn lemma_tells_selection(column: ColumnState, after: ColumnState)
    requires
        after.entries == column.entries,
        after.selected == column.selected,
        after.focused == column.focused,
        column.selected_positions().len() > 0,
    ensures
        tells_selection(
            column,
            after.selected_positions(),
            restored_focus(after),
        ),
{
    lemma_selected_rows(column);
    lemma_focused_row(column);
}

/// When a column is sorted another way, the rows whose places are selected are told again as they
/// now stand.
pub proof fn lemma_selection_is_told_after_sorting(
    b: BrowserState,
    depth: int,
    key: SortKey,
)
    requires
        0 <= depth < b.columns.len(),
    ensures
        ({
            let t = set_sort_key(b, depth, key);
            let column = t.browser.columns[depth];
            &&& (forall|row: int| !#[trigger] row_is_selected(column, row)) ==> t.events.len() == 1
            &&& (exists|row: int| #[trigger] row_is_selected(column, row)) ==> {
                &&& t.events.len() == 2
                &&& t.events[1] is SelectionSetChanged
                &&& t.events[1]->SelectionSetChanged_depth == depth
                &&& tells_selection(
                    column,
                    t.events[1]->SelectionSetChanged_positions,
                    t.events[1]->SelectionSetChanged_focused,
                )
            }
        }),
{
    let column = set_sort_key(b, depth, key).browser.columns[depth];
    lemma_selected_rows(column);
    let rows = column.selected_positions();
    if rows.len() > 0 {
        assert(rows.contains(rows[0]));
        assert(row_is_selected(column, rows[0]));
        lemma_tells_selection(column, column);
    }
    if exists|row: int| #[trigger] row_is_selected(column, row) {
        let row = choose|row: int| #[trigger] row_is_selected(column, row);
        assert(rows.contains(row));
    }
}

/// Taking over a selection of a column that is not there does nothing.
pub proof fn lemma_no_column_to_select_in(
    b: BrowserState,
    depth: int,
    positions: Seq<int>,
    focused: Option<int>,
)
    requires
        !(0 <= depth < b.columns.len()),
    ensures
        set_selection(b, depth, positions, focused) == b,
{
}

} // verus!
