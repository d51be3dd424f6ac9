//! What is done on the screen when the browser tells something.
use vstd::prelude::*;

use super::{
    lemma_append_column, lemma_cancel_rename, lemma_close_peek, lemma_end_peek, lemma_focus,
    lemma_new_column, lemma_refresh, lemma_truncate,
};
use crate::choice_laws::is_row_of;
use crate::entry::FileEntryView;
use crate::event::{EventView, RequestView, SpliceView};
use crate::labels::placeholder;
use crate::laws::lemma_entry_position;
use crate::location_bar::crumbs;
use crate::model::{name_text, path_text, LocationView};
use crate::presentation::{unreadable, Page, PeekBehavior, PresentationView};
use crate::rows::{fitting, lemma_filter_positions, lemma_longest_run_fits, row_of, rows_of};
use crate::screen::{
    active_row, append_peek, blank, cancel_new_folder, cancel_rename, capped, close_peek_visual,
    column_reloaded, count_after, end_peek, entries_inserted, entries_replaced, entries_spliced,
    focus_active, focus_shown, handle, handled, insert_runs, load_failed, load_finished, mark_first,
    peek_entries_added, peek_failed, peek_finished, present, refresh_active_path_rows,
    replace_ranges, run_total, selection_set_changed, set_busy, set_count, set_location,
    splice_rows, stop_close_timer, stop_peek_timer, sync_active_location, truncate, ColumnScreen,
    Scene, ViewActionView, ViewState,
};
use crate::sorting::{spliced, InsertionView};
use crate::state;

verus! {

/// Whether these things are done after those that were to be done before, in this order, and
/// nothing after them but to mark rows.
pub open spec fn does(
    before: Seq<ViewActionView>,
    done: Seq<ViewActionView>,
    after: Seq<ViewActionView>,
) -> bool {
    &&& after.len() >= before.len() + done.len()
    &&& forall|k: int| 0 <= k < before.len() ==> #[trigger] after[k] == before[k]
    &&& forall|k: int|
        0 <= k < done.len() ==> after[before.len() + k] == #[trigger] done[k]
    &&& forall|k: int|
        before.len() + done.len() <= k < after.len() ==> #[trigger] after[k] is MarkActiveRow
}

/// Whether a row is the one to be marked in a column: it shows the entry for the place that the
/// next column shows. Where no row shows it, none is to be marked.
pub open spec fn is_marked_rightly(s: Scene, depth: int, active: Option<int>) -> bool {
    let column = s.view.columns[depth];
    let place = s.browser.columns[depth + 1].location;
    let entries = s.browser.columns[depth].entries;
    match active {
        Some(row) => {
            &&& depth + 1 < s.browser.columns.len()
            &&& exists|position: int| #[trigger]
                is_row_of(entries, place, position) && column.source(row) == Some(position)
        },
        None => depth + 1 < s.browser.columns.len() ==> forall|position: int| #[trigger]
            is_row_of(entries, place, position) ==> column.shown(position) is None,
    }
}

proof fn lemma_marks(s: Scene, count: int)
    requires
        0 <= count,
    ensures
        ({
            let t = mark_first(s, count);
            &&& t.view == s.view && t.browser == s.browser && t.requests == s.requests
            &&& t.actions.len() == s.actions.len() + count
            &&& forall|k: int| 0 <= k < s.actions.len() ==> #[trigger] t.actions[k] == s.actions[k]
            &&& forall|d: int|
                0 <= d < count ==> #[trigger] t.actions[s.actions.len() + d] == (
                ViewActionView::MarkActiveRow { depth: d, active: active_row(s, d) })
        }),
    decreases count,
{
    if count > 0 {
        lemma_marks(s, count - 1);
    }
}

proof fn lemma_refreshed(s: Scene, before: Seq<ViewActionView>, done: Seq<ViewActionView>)
    requires
        s.actions == before + done,
    ensures
        ({
            let t = refresh_active_path_rows(s);
            &&& does(before, done, t.actions)
            &&& t.view == s.view && t.browser == s.browser && t.requests == s.requests
        }),
{
    reveal(refresh_active_path_rows);
    let n = s.view.columns.len() as int;
    lemma_marks(s, n);
    let t = refresh_active_path_rows(s);
    assert forall|k: int|
        before.len() + done.len() <= k < t.actions.len() implies #[trigger] t.actions[k] is MarkActiveRow by {
        let d = k - s.actions.len();
        assert(t.actions[s.actions.len() + d] is MarkActiveRow);
    }
}

/// Whatever the browser tells, in the end each column has its row marked: the one that shows the
/// entry for the place which the next column shows.
pub proof fn lemma_rows_are_marked(s: Scene, event: EventView, depth: int)
    requires
        0 <= depth < handle(s, event).view.columns.len(),
    ensures
        ({
            let t = handle(s, event);
            let at = t.actions.len() - t.view.columns.len() + depth;
            &&& at >= 0
            &&& t.actions[at] is MarkActiveRow
            &&& t.actions[at]->MarkActiveRow_depth == depth
            &&& is_marked_rightly(t, depth, t.actions[at]->MarkActiveRow_active)
        }),
{
    reveal(refresh_active_path_rows);
    let h = handled(s, event);
    let t = handle(s, event);
    lemma_marks(h, h.view.columns.len() as int);
    let at = t.actions.len() - t.view.columns.len() + depth;
    assert(at == h.actions.len() + depth);
    lemma_marked_rightly(h, depth);
}

proof fn lemma_marked_rightly(s: Scene, depth: int)
    requires
        s.has_column(depth),
    ensures
        is_marked_rightly(s, depth, active_row(s, depth)),
{
    let column = s.view.columns[depth];
    lemma_filter_positions(column.rows, column.query);
    if depth + 1 < s.browser.columns.len() {
        let place = s.browser.columns[depth + 1].location;
        let entries = s.browser.columns[depth].entries;
        lemma_entry_position(entries, place.key(), 0);
        match state::active_child_position(s.browser, depth) {
            Some(position) => {
                assert(is_row_of(entries, place, position));
                assert forall|other: int| #[trigger] is_row_of(entries, place, other) implies other
                    == position by {
                    if other < position {
                        assert(entries[other].location.key() != place.key());
                    }
                    if position < other {
                        assert(entries[position].location.key() != place.key());
                    }
                }
                if let Some(row) = column.shown(position) {
                    assert(column.source(row) == Some(position));
                }
            },
            None => {
                assert forall|other: int| #[trigger] is_row_of(entries, place, other) implies false by {
                    assert(entries[other].location.key() != place.key());
                }
            },
        }
    }
}

// What is told with words.

/// What is to be opened is opened, and what is to be previewed is left to others. What went wrong
/// is shown with its message.
pub proof fn lemma_words_are_shown(
    s: Scene,
    location: LocationView,
    entry: FileEntryView,
    message: Seq<char>,
)
    ensures
        ({
            let opened = handle(s, EventView::OpenRequested { location });
            let previewed = handle(s, EventView::PreviewRequested { entry });
            let failed = handle(s, EventView::OperationFailed { message });
            let rejected = handle(s, EventView::NavigationRejected { message });
            &&& does(s.actions, seq![ViewActionView::OpenFile { location }], opened.actions)
            &&& does(s.actions, Seq::empty(), previewed.actions)
            &&& does(
                s.actions,
                seq![
                    ViewActionView::ShowError {
                        message: "Unable to complete operation"@,
                        detail: message,
                    },
                ],
                failed.actions,
            )
            &&& does(
                s.actions,
                seq![
                    ViewActionView::ShowError {
                        message: "Unable to open directory"@,
                        detail: message,
                    },
                ],
                rejected.actions,
            )
            &&& opened.view == s.view && previewed.view == s.view && failed.view == s.view
                && rejected.view == s.view
            &&& opened.browser == s.browser && failed.browser == s.browser
        }),
{
    lemma_refreshed(
        handled(s, EventView::OpenRequested { location }),
        s.actions,
        seq![ViewActionView::OpenFile { location }],
    );
    assert(s.actions + Seq::empty() =~= s.actions);
    lemma_refreshed(s, s.actions, Seq::empty());
    lemma_refreshed(
        handled(s, EventView::OperationFailed { message }),
        s.actions,
        seq![
            ViewActionView::ShowError {
                message: "Unable to complete operation"@,
                detail: message,
            },
        ],
    );
    lemma_refreshed(
        handled(s, EventView::NavigationRejected { message }),
        s.actions,
        seq![
            ViewActionView::ShowError { message: "Unable to open directory"@, detail: message },
        ],
    );
}

/// A name that cannot be given is told where the name is edited. Where no name is edited, it is not
/// told.
pub proof fn lemma_refused_name_is_shown(s: Scene, message: Seq<char>)
    ensures
        ({
            let t = handle(s, EventView::RenameFailed { message });
            &&& t.view == s.view
            &&& does(
                s.actions,
                if s.view.renaming is Some {
                    seq![ViewActionView::RejectName { message }]
                } else {
                    Seq::empty()
                },
                t.actions,
            )
        }),
{
    assert(s.actions + Seq::empty() =~= s.actions);
    lemma_refreshed(
        handled(s, EventView::RenameFailed { message }),
        s.actions,
        if s.view.renaming is Some {
            seq![ViewActionView::RejectName { message }]
        } else {
            Seq::empty()
        },
    );
}

// Selections.

/// Where a row has the focus, the row that shows it is selected and brought into sight; the column
/// gets the focus in any case.
pub proof fn lemma_focus_is_shown(s: Scene, depth: int, position: Option<int>)
    requires
        s.has_column(depth),
    ensures
        ({
            let t = handle(s, EventView::FocusChanged { depth, position });
            let shown = match position {
                Some(at) => s.view.columns[depth].shown(at),
                None => None,
            };
            &&& t.view == s.view && t.browser == s.browser && t.requests == s.requests
            &&& does(
                s.actions,
                match shown {
                    Some(row) => seq![
                        ViewActionView::SelectRows { depth, positions: seq![row] },
                        ViewActionView::FocusRow { depth, row },
                        ViewActionView::FocusColumn { depth },
                    ],
                    None => seq![ViewActionView::FocusColumn { depth }],
                },
                t.actions,
            )
        }),
{
    reveal(focus_shown);
    let h = handled(s, EventView::FocusChanged { depth, position });
    let shown = s.view.columns[depth].shown_of(position);
    let done = match shown {
        Some(row) => seq![
            ViewActionView::SelectRows { depth, positions: seq![row] },
            ViewActionView::FocusRow { depth, row },
            ViewActionView::FocusColumn { depth },
        ],
        None => seq![ViewActionView::FocusColumn { depth }],
    };
    assert(h.actions =~= s.actions + done);
    lemma_refreshed(h, s.actions, done);
}

proof fn lemma_shown_all(column: ColumnScreen, positions: Seq<int>)
    ensures
        forall|row: int| #[trigger]
            column.shown_all(positions).contains(row) <==> exists|k: int|
                0 <= k < positions.len() && column.shown(#[trigger] positions[k]) == Some(row),
    decreases positions.len(),
{
    if positions.len() > 0 {
        let fewer = positions.drop_last();
        let before = column.shown_all(fewer);
        let all = column.shown_all(positions);
        lemma_shown_all(column, fewer);
        assert(positions[positions.len() - 1] == positions.last());
        assert forall|row: int| #[trigger] all.contains(row) <==> exists|k: int|
            0 <= k < positions.len() && column.shown(#[trigger] positions[k]) == Some(row) by {
            if all.contains(row) {
                let j = choose|j: int| 0 <= j < all.len() && all[j] == row;
                if j < before.len() {
                    assert(before[j] == row);
                    assert(before.contains(row));
                    let k = choose|k: int|
                        0 <= k < fewer.len() && column.shown(#[trigger] fewer[k]) == Some(row);
                    assert(positions[k] == fewer[k]);
                }
            }
            if exists|k: int|
                0 <= k < positions.len() && column.shown(#[trigger] positions[k]) == Some(row) {
                let k = choose|k: int|
                    0 <= k < positions.len() && column.shown(#[trigger] positions[k]) == Some(row);
                if k < fewer.len() {
                    assert(fewer[k] == positions[k]);
                    assert(before.contains(row));
                    let j = choose|j: int| 0 <= j < before.len() && before[j] == row;
                    assert(all[j] == row);
                } else {
                    assert(all[before.len() as int] == row);
                }
            }
        }
    }
}

/// A selection that is told is shown: exactly those rows are selected that show one of the selected
/// entries, the focused one is brought into sight where it is shown, and the column has the focus.
pub proof fn lemma_selection_is_shown(s: Scene, depth: int, positions: Seq<int>, focused: int)
    requires
        s.has_column(depth),
    ensures
        ({
            let t = handle(s, EventView::SelectionSetChanged { depth, positions, focused });
            let column = s.view.columns[depth];
            let n = s.actions.len() as int;
            &&& t.view == s.view && t.browser == s.browser
            &&& t.actions[n] is SelectRows
            &&& t.actions[n]->SelectRows_depth == depth
            &&& forall|row: int| #[trigger]
                t.actions[n]->SelectRows_positions.contains(row) <==> exists|k: int|
                    0 <= k < positions.len() && column.shown(#[trigger] positions[k]) == Some(row)
            &&& does(
                s.actions.push(t.actions[n]),
                match column.shown(focused) {
                    Some(row) => seq![
                        ViewActionView::FocusRow { depth, row },
                        ViewActionView::FocusColumn { depth },
                    ],
                    None => seq![ViewActionView::FocusColumn { depth }],
                },
                t.actions,
            )
        }),
{
    reveal(selection_set_changed);
    let column = s.view.columns[depth];
    let event = EventView::SelectionSetChanged { depth, positions, focused };
    let h = handled(s, event);
    lemma_shown_all(column, positions);
    let first = ViewActionView::SelectRows { depth, positions: column.shown_all(positions) };
    let before = s.actions.push(first);
    let done = match column.shown(focused) {
        Some(row) => seq![
            ViewActionView::FocusRow { depth, row },
            ViewActionView::FocusColumn { depth },
        ],
        None => seq![ViewActionView::FocusColumn { depth }],
    };
    assert(h.actions =~= before + done);
    lemma_refreshed(h, before, done);
    assert(handle(s, event).actions[s.actions.len() as int] == before[s.actions.len() as int]);
}

// Rows.

/// The rows of a column after those things are done that replace some of them.
pub open spec fn rows_after(
    rows: Seq<Seq<char>>,
    actions: Seq<ViewActionView>,
    depth: int,
) -> Seq<Seq<char>>
    decreases actions.len(),
{
    if actions.len() == 0 {
        rows
    } else {
        let before = rows_after(rows, actions.drop_last(), depth);
        match actions.last() {
            ViewActionView::SpliceRows { depth: at, position, removed, rows: added } => if at
                == depth {
                spliced(before, position, removed, added)
            } else {
                before
            },
            _ => before,
        }
    }
}

/// Whether all that changes in a column is done on the screen too.
pub open spec fn column_is_told(s: Scene, t: Scene, depth: int) -> bool {
    let before = s.view.columns[depth];
    let after = t.view.columns[depth];
    let n = s.actions.len() as int;
    let done = t.actions.skip(n);
    &&& t.actions.len() >= n
    &&& forall|k: int| 0 <= k < n ==> #[trigger] t.actions[k] == s.actions[k]
    &&& rows_after(before.rows, done, depth) == after.rows
    &&& after.presentation != before.presentation ==> done.contains(
        ViewActionView::Present { depth, presentation: after.presentation },
    )
    &&& after.busy != before.busy ==> done.contains(
        ViewActionView::SetBusy { depth, busy: after.busy },
    )
    &&& after.placeholder != before.placeholder ==> done.contains(
        ViewActionView::SetFilterPlaceholder { depth, text: after.placeholder },
    )
}

/// The things that are done to a column and change what is known of it.
spec fn one_step(s: Scene, t: Scene, depth: int, action: ViewActionView) -> bool {
    let before = s.view.columns[depth];
    let after = t.view.columns[depth];
    &&& t.actions == s.actions.push(action)
    &&& match action {
        ViewActionView::SpliceRows { depth: at, position, removed, rows } => at == depth
            && after.rows == spliced(before.rows, position, removed, rows) && after.presentation
            == before.presentation && after.busy == before.busy && after.placeholder
            == before.placeholder,
        ViewActionView::Present { depth: at, presentation } => at == depth && after.rows
            == before.rows && after.presentation == presentation && after.busy == before.busy
            && after.placeholder == before.placeholder,
        ViewActionView::SetBusy { depth: at, busy } => at == depth && after.rows == before.rows
            && after.presentation == before.presentation && after.busy == busy
            && after.placeholder == before.placeholder,
        ViewActionView::SetFilterPlaceholder { depth: at, text } => at == depth && after.rows
            == before.rows && after.presentation == before.presentation && after.busy
            == before.busy && after.placeholder == text,
        _ => after == before,
    }
}

proof fn lemma_told_step(s: Scene, t: Scene, u: Scene, depth: int, action: ViewActionView)
    requires
        column_is_told(s, t, depth),
        one_step(t, u, depth, action),
    ensures
        column_is_told(s, u, depth),
{
    let n = s.actions.len() as int;
    let before = t.actions.skip(n);
    let done = u.actions.skip(n);
    assert(done =~= before.push(action));
    assert(done.drop_last() =~= before);
    assert(done[before.len() as int] == action);
    assert forall|a: ViewActionView| before.contains(a) implies done.contains(a) by {
        let k = choose|k: int| 0 <= k < before.len() && before[k] == a;
        assert(done[k] == a);
    }
    assert(done.contains(action));
}

proof fn lemma_told_nothing(s: Scene, depth: int)
    ensures
        column_is_told(s, s, depth),
{
    assert(s.actions.skip(s.actions.len() as int) =~= Seq::empty());
}

proof fn lemma_told_runs(s: Scene, t: Scene, depth: int, insertions: Seq<InsertionView>)
    requires
        column_is_told(s, t, depth),
        t.has_column(depth),
    ensures
        column_is_told(s, insert_runs(t, depth, insertions), depth),
        insert_runs(t, depth, insertions).has_column(depth),
    decreases insertions.len(),
{
    if insertions.len() > 0 {
        let first = insertions[0];
        let u = splice_rows(t, depth, first.position, 0, rows_of(first.entries));
        lemma_told_step(
            s,
            t,
            u,
            depth,
            ViewActionView::SpliceRows {
                depth,
                position: first.position,
                removed: 0,
                rows: rows_of(first.entries),
            },
        );
        lemma_told_runs(s, u, depth, insertions.drop_first());
    }
}

proof fn lemma_told_ranges(s: Scene, depth: int, splices: Seq<SpliceView>)
    requires
        s.has_column(depth),
    ensures
        column_is_told(s, replace_ranges(s, depth, splices), depth),
        replace_ranges(s, depth, splices).has_column(depth),
    decreases splices.len(),
{
    lemma_told_nothing(s, depth);
    if splices.len() > 0 {
        let t = replace_ranges(s, depth, splices.drop_last());
        lemma_told_ranges(s, depth, splices.drop_last());
        let last = splices.last();
        lemma_told_step(
            s,
            t,
            replace_ranges(s, depth, splices),
            depth,
            ViewActionView::SpliceRows {
                depth,
                position: last.position,
                removed: last.removed,
                rows: rows_of(last.entries),
            },
        );
    }
}

proof fn lemma_told_present(
    s: Scene,
    t: Scene,
    depth: int,
    presentation: PresentationView,
)
    requires
        column_is_told(s, t, depth),
        t.has_column(depth),
    ensures
        column_is_told(s, present(t, depth, presentation), depth),
{
    lemma_told_step(
        s,
        t,
        present(t, depth, presentation),
        depth,
        ViewActionView::Present { depth, presentation },
    );
}

proof fn lemma_told_count(s: Scene, t: Scene, depth: int, count: int)
    requires
        column_is_told(s, t, depth),
        t.has_column(depth),
    ensures
        column_is_told(s, set_count(t, depth, count), depth),
{
    lemma_told_step(
        s,
        t,
        set_count(t, depth, count),
        depth,
        ViewActionView::SetFilterPlaceholder {
            depth,
            text: placeholder(count as nat),
        },
    );
}

proof fn lemma_told_busy(s: Scene, t: Scene, depth: int, busy: bool)
    requires
        column_is_told(s, t, depth),
        t.has_column(depth),
    ensures
        column_is_told(s, set_busy(t, depth, busy), depth),
{
    lemma_told_step(
        s,
        t,
        set_busy(t, depth, busy),
        depth,
        ViewActionView::SetBusy { depth, busy },
    );
}

proof fn lemma_told_rows(
    s: Scene,
    t: Scene,
    depth: int,
    position: int,
    removed: int,
    rows: Seq<Seq<char>>,
)
    requires
        column_is_told(s, t, depth),
        t.has_column(depth),
    ensures
        column_is_told(s, splice_rows(t, depth, position, removed, rows), depth),
{
    lemma_told_step(
        s,
        t,
        splice_rows(t, depth, position, removed, rows),
        depth,
        ViewActionView::SpliceRows { depth, position, removed, rows },
    );
}

proof fn lemma_told_marks(s: Scene, t: Scene, depth: int, count: int)
    requires
        column_is_told(s, t, depth),
        0 <= count,
    ensures
        column_is_told(s, mark_first(t, count), depth),
    decreases count,
{
    if count > 0 {
        lemma_told_marks(s, t, depth, count - 1);
        lemma_marks(t, count - 1);
        lemma_told_step(
            s,
            mark_first(t, count - 1),
            mark_first(t, count),
            depth,
            ViewActionView::MarkActiveRow { depth: count - 1, active: active_row(t, count - 1) },
        );
    }
}

/// The depth of the column whose entries or whose listing an event is about.
pub open spec fn column_told_of(event: EventView) -> Option<int> {
    match event {
        EventView::EntriesInserted { depth, .. } => Some(depth),
        EventView::EntriesReplaced { depth, .. } => Some(depth),
        EventView::EntriesSpliced { depth, .. } => Some(depth),
        EventView::ColumnReloaded { depth } => Some(depth),
        EventView::LoadFinished { depth } => Some(depth),
        EventView::LoadFailed { depth, .. } => Some(depth),
        _ => None,
    }
}

/// Whatever an event changes in a column is done on the screen: its rows by the replacements that
/// make the new ones out of the old ones, and what it shows in their place, whether it is being
/// filled, and what stands in its filter, each by what it is now.
pub proof fn lemma_changes_are_done(s: Scene, event: EventView, depth: int)
    requires
        column_told_of(event) == Some(depth),
        s.has_column(depth),
    ensures
        column_is_told(s, handle(s, event), depth),
{
    lemma_told_nothing(s, depth);
    let h = handled(s, event);
    match event {
        EventView::EntriesInserted { insertions, .. } => {
            reveal(entries_inserted);
            let page = s.view.columns[depth].presentation.content();
            lemma_told_present(s, s, depth, page);
            let shown = if run_total(insertions) > 0 {
                present(s, depth, page)
            } else {
                s
            };
            lemma_told_runs(s, shown, depth, insertions);
            lemma_told_count(
                s,
                insert_runs(shown, depth, insertions),
                depth,
                capped(s.view.columns[depth].count + run_total(insertions)),
            );
        },
        EventView::EntriesReplaced { entries, .. } => {
            reveal(entries_replaced);
            let page = s.view.columns[depth].presentation.content();
            lemma_told_present(s, s, depth, page);
            let shown = if entries.len() > 0 {
                present(s, depth, page)
            } else {
                s
            };
            let length = shown.view.columns[depth].rows.len() as int;
            lemma_told_rows(s, shown, depth, 0, length, rows_of(entries));
            lemma_told_count(
                s,
                splice_rows(shown, depth, 0, length, rows_of(entries)),
                depth,
                entries.len() as int,
            );
        },
        EventView::EntriesSpliced { splices, selected, .. } => {
            reveal(entries_spliced);
            lemma_told_ranges(s, depth, splices);
            let r = replace_ranges(s, depth, splices);
            let count = count_after(s.view.columns[depth].count, splices);
            lemma_told_count(s, r, depth, count);
            let t = set_count(r, depth, count);
            let column = t.view.columns[depth];
            let rows = match column.shown_of(selected) {
                Some(row) => seq![row],
                None => Seq::empty(),
            };
            let action = ViewActionView::SelectRows { depth, positions: rows };
            lemma_told_step(s, t, t.act(action), depth, action);
            lemma_told_present(
                s,
                t.act(action),
                depth,
                column.presentation.finished(column.count),
            );
        },
        EventView::ColumnReloaded { .. } => {
            reveal(column_reloaded);
            let length = s.view.columns[depth].rows.len() as int;
            lemma_told_rows(s, s, depth, 0, length, Seq::empty());
            let r = splice_rows(s, depth, 0, length, Seq::empty());
            lemma_told_count(s, r, depth, 0);
            let t = set_count(r, depth, 0);
            lemma_told_busy(s, t, depth, true);
            let u = set_busy(t, depth, true);
            lemma_told_present(s, u, depth, u.view.columns[depth].presentation.loading());
        },
        EventView::LoadFinished { .. } => {
            reveal(load_finished);
            lemma_told_busy(s, s, depth, false);
            let t = set_busy(s, depth, false);
            let column = t.view.columns[depth];
            lemma_told_present(s, t, depth, column.presentation.finished(column.count));
        },
        EventView::LoadFailed { message, .. } => {
            reveal(load_failed);
            lemma_told_busy(s, s, depth, false);
            let t = set_busy(s, depth, false);
            lemma_told_present(
                s,
                t,
                depth,
                t.view.columns[depth].presentation.failed(
                    unreadable(message),
                ),
            );
        },
        _ => {},
    }
    assert(column_is_told(s, h, depth));
    reveal(refresh_active_path_rows);
    lemma_told_marks(s, h, depth, h.view.columns.len() as int);
}

/// What a column shows once it has been told of entries: rows, where there are any. A column that
/// is listed anew has no rows, counts none and shows that it is being filled. One whose listing
/// ended shows its rows or that it has none, and one whose listing failed says why.
pub proof fn lemma_what_a_column_shows(
    s: Scene,
    depth: int,
    entries: Seq<FileEntryView>,
    message: Seq<char>,
)
    requires
        s.has_column(depth),
    ensures
        ({
            let before = s.view.columns[depth];
            let replaced = handle(s, EventView::EntriesReplaced { depth, entries });
            let reloaded = handle(s, EventView::ColumnReloaded { depth });
            let done = handle(s, EventView::LoadFinished { depth });
            let broken = handle(s, EventView::LoadFailed { depth, message });
            &&& {
                let after = replaced.view.columns[depth];
                &&& after.rows.len() == entries.len()
                &&& forall|k: int|
                    0 <= k < entries.len() ==> #[trigger] after.rows[k] == row_of(entries[k])
                &&& after.count == entries.len()
                &&& entries.len() > 0 ==> after.presentation.page == Page::Content
                &&& after.query == before.query && after.location == before.location
            }
            &&& {
                let after = reloaded.view.columns[depth];
                &&& after.rows.len() == 0 && after.count == 0
                &&& after.busy
                &&& after.presentation.page == Page::Loading
                &&& !after.presentation.retry_shown
                &&& after.location == before.location
            }
            &&& {
                let after = done.view.columns[depth];
                &&& !after.busy && after.rows == before.rows && after.count == before.count
                &&& before.count > 0 ==> after.presentation.page == Page::Content
                &&& before.count == 0 ==> {
                    &&& after.presentation.page == Page::Feedback
                    &&& !after.presentation.error
                    &&& after.presentation.message == "This directory is empty"@
                }
            }
            &&& {
                let after = broken.view.columns[depth];
                &&& !after.busy && after.rows == before.rows
                &&& after.presentation.page == Page::Feedback
                &&& after.presentation.error
                &&& after.presentation.message == "Unable to read this directory\n"@ + message
                &&& after.presentation.retry_shown == before.presentation.can_retry
            }
        }),
{
    let replaced = EventView::EntriesReplaced { depth, entries };
    lemma_refresh(handled(s, replaced));
    lemma_refresh(handled(s, EventView::ColumnReloaded { depth }));
    lemma_refresh(handled(s, EventView::LoadFinished { depth }));
    lemma_refresh(handled(s, EventView::LoadFailed { depth, message }));
    reveal(entries_replaced);
    reveal(column_reloaded);
    reveal(load_finished);
    reveal(load_failed);
    let rows = s.view.columns[depth].rows;
    assert(spliced(rows, 0, rows.len() as int, rows_of(entries)) =~= rows_of(entries));
    assert(spliced(rows, 0, rows.len() as int, Seq::empty()) =~= Seq::empty());
    assert(handle(s, replaced).view.columns[depth].rows == rows_of(entries));
    assert forall|k: int| 0 <= k < entries.len() implies #[trigger] rows_of(entries)[k] == row_of(
        entries[k],
    ) by {}
}

/// Once entries come in or change, the column shows rows where it has any. Of what changed, the row
/// that has the focus is selected, or none.
pub proof fn lemma_what_a_change_shows(
    s: Scene,
    depth: int,
    insertions: Seq<InsertionView>,
    splices: Seq<SpliceView>,
    selected: Option<int>,
)
    requires
        s.has_column(depth),
    ensures
        ({
            let inserted = handle(s, EventView::EntriesInserted { depth, insertions });
            let changed = handle(s, EventView::EntriesSpliced { depth, splices, selected });
            let column = changed.view.columns[depth];
            let shown = match selected {
                Some(position) => column.shown(position),
                None => None,
            };
            &&& (exists|k: int|
                0 <= k < insertions.len() && (#[trigger] insertions[k]).entries.len() > 0)
                ==> inserted.view.columns[depth].presentation.page == Page::Content
            &&& column.count > 0 ==> column.presentation.page == Page::Content
            &&& column.count == 0 ==> column.presentation.page == Page::Feedback
                && !column.presentation.error
            &&& changed.actions.contains(
                ViewActionView::SelectRows {
                    depth,
                    positions: match shown {
                        Some(row) => seq![row],
                        None => Seq::empty(),
                    },
                },
            )
        }),
{
    let insertion = EventView::EntriesInserted { depth, insertions };
    let change = EventView::EntriesSpliced { depth, splices, selected };
    lemma_refresh(handled(s, insertion));
    lemma_refresh(handled(s, change));
    reveal(entries_inserted);
    reveal(entries_spliced);
    let page = s.view.columns[depth].presentation.content();
    let shown = if run_total(insertions) > 0 {
        present(s, depth, page)
    } else {
        s
    };
    lemma_runs_keep_the_page(shown, depth, insertions);
    if exists|k: int| 0 <= k < insertions.len() && (#[trigger] insertions[k]).entries.len() > 0 {
        let k = choose|k: int|
            0 <= k < insertions.len() && (#[trigger] insertions[k]).entries.len() > 0;
        lemma_run_total(insertions, k);
    }
    lemma_ranges_keep_columns(s, depth, splices);
    let count = count_after(s.view.columns[depth].count, splices);
    let t = set_count(replace_ranges(s, depth, splices), depth, count);
    let column = t.view.columns[depth];
    let rows = match column.shown_of(selected) {
        Some(row) => seq![row],
        None => Seq::empty(),
    };
    let action = ViewActionView::SelectRows { depth, positions: rows };
    let h = handled(s, change);
    assert(h.actions[t.actions.len() as int] == action);
    reveal(refresh_active_path_rows);
    lemma_marks(h, h.view.columns.len() as int);
    assert(handle(s, change).actions[t.actions.len() as int] == action);
    assert(handle(s, change).view.columns[depth].rows == column.rows);
    assert(handle(s, change).view.columns[depth].query == column.query);
}

proof fn lemma_runs_keep_the_page(s: Scene, depth: int, insertions: Seq<InsertionView>)
    requires
        s.has_column(depth),
    ensures
        insert_runs(s, depth, insertions).has_column(depth),
        insert_runs(s, depth, insertions).view.columns[depth].presentation
            == s.view.columns[depth].presentation,
    decreases insertions.len(),
{
    if insertions.len() > 0 {
        let first = insertions[0];
        lemma_runs_keep_the_page(
            splice_rows(s, depth, first.position, 0, rows_of(first.entries)),
            depth,
            insertions.drop_first(),
        );
    }
}

proof fn lemma_ranges_keep_columns(s: Scene, depth: int, splices: Seq<SpliceView>)
    requires
        s.has_column(depth),
    ensures
        replace_ranges(s, depth, splices).has_column(depth),
    decreases splices.len(),
{
    if splices.len() > 0 {
        lemma_ranges_keep_columns(s, depth, splices.drop_last());
    }
}

proof fn lemma_run_total(insertions: Seq<InsertionView>, k: int)
    requires
        0 <= k < insertions.len(),
    ensures
        run_total(insertions) >= insertions[k].entries.len(),
    decreases insertions.len(),
{
    if k < insertions.len() - 1 {
        lemma_run_total(insertions.drop_last(), k);
    }
}

// Columns.

/// When all columns are gone, nothing is left on the screen: no column, no peek, and nothing that
/// is edited. What was wrong with a location is taken away.
pub proof fn lemma_reset_clears_the_screen(s: Scene)
    ensures
        ({
            let t = handle(s, EventView::Reset);
            &&& t.view.columns.len() == 0
            &&& t.view.peek is None && t.view.pending_peek is None && !t.view.pending_close
            &&& t.view.renaming is None && t.view.new_folder is None
            &&& s.view.columns.len() > 0 ==> t.actions.contains(
                ViewActionView::RemoveColumns { len: 0 },
            )
            &&& t.actions.contains(ViewActionView::ClearLocationError)
        }),
{
    lemma_truncate(s, 0);
    let h = handled(s, EventView::Reset);
    lemma_refreshed(h, h.actions, Seq::empty());
    assert(h.actions + Seq::empty() =~= h.actions);
    let t = handle(s, EventView::Reset);
    lemma_truncate_actions(s, 0);
    let cut = truncate(s, 0);
    assert(h.actions[cut.actions.len() as int] == ViewActionView::ClearLocationError);
    assert(t.actions[cut.actions.len() as int] == ViewActionView::ClearLocationError);
    if s.view.columns.len() > 0 {
        let k = choose|k: int|
            0 <= k < cut.actions.len() && cut.actions[k] == (ViewActionView::RemoveColumns {
                len: 0,
            });
        assert(h.actions[k] == cut.actions[k]);
        assert(t.actions[k] == cut.actions[k]);
    }
}

proof fn lemma_truncate_actions(s: Scene, len: int)
    ensures
        0 <= len < s.view.columns.len() ==> truncate(s, len).actions.contains(
            ViewActionView::RemoveColumns { len },
        ),
        truncate(s, len).requests == s.requests,
{
    reveal(truncate);
    lemma_close_peek(s);
    reveal(close_peek_visual);
    reveal(cancel_rename);
    let t = cancel_new_folder(cancel_rename(close_peek_visual(s)));
    lemma_cancel_rename(close_peek_visual(s));
    if 0 <= len < s.view.columns.len() {
        assert(truncate(s, len).actions[t.actions.len() as int] == (ViewActionView::RemoveColumns {
            len,
        }));
    }
}

/// When columns are closed, those that are left stay as they are. With them a peek and all that is
/// edited end, and the location of the last column is shown.
pub proof fn lemma_closed_columns_are_taken_away(s: Scene, len: int)
    requires
        0 <= len < s.view.columns.len(),
    ensures
        ({
            let t = handle(s, EventView::ColumnsTruncated { len });
            &&& t.view.columns == s.view.columns.take(len)
            &&& t.view.peek is None && t.view.pending_peek is None && !t.view.pending_close
            &&& t.view.renaming is None && t.view.new_folder is None
            &&& t.actions.contains(ViewActionView::RemoveColumns { len })
            &&& s.browser.columns.len() > 0 ==> t.actions.contains(
                ViewActionView::ShowLocation {
                    text: path_text(s.browser.columns.last().location),
                    crumbs: crumbs(s.browser.columns.last().location, s.view.home),
                },
            )
        }),
{
    lemma_truncate(s, len);
    lemma_truncate_actions(s, len);
    reveal(sync_active_location);
    reveal(set_location);
    let cut = truncate(s, len);
    let h = handled(s, EventView::ColumnsTruncated { len });
    assert(h.actions + Seq::empty() =~= h.actions);
    lemma_refreshed(h, h.actions, Seq::empty());
    let t = handle(s, EventView::ColumnsTruncated { len });
    let k = choose|k: int|
        0 <= k < cut.actions.len() && cut.actions[k] == (ViewActionView::RemoveColumns { len });
    assert(h.actions[k] == cut.actions[k]);
    assert(t.actions[k] == cut.actions[k]);
    if s.browser.columns.len() > 0 {
        assert(h.actions[cut.actions.len() as int] is ShowLocation);
        assert(t.actions[cut.actions.len() as int] == h.actions[cut.actions.len() as int]);
    }
}

/// A column that is opened is set up behind the others, under the name of its place, and its
/// location is shown. Only the first column cannot be closed.
pub proof fn lemma_opened_column_is_set_up(s: Scene, location: LocationView)
    ensures
        ({
            let n = s.view.columns.len() as int;
            let m = s.actions.len() as int;
            let t = handle(s, EventView::ColumnAdded { depth: n, location });
            &&& t.view.columns.len() == n + 1
            &&& forall|d: int| 0 <= d < n ==> #[trigger] t.view.columns[d] == s.view.columns[d]
            &&& t.view.columns[n].location == location
            &&& t.view.columns[n].rows.len() == 0
            &&& t.view.columns[n].query.len() == 0
            &&& t.view.columns[n].busy
            &&& t.actions[m] == (ViewActionView::ShowLocation {
                text: path_text(location),
                crumbs: crumbs(location, s.view.home),
            })
            &&& t.actions[m + 1] == ViewActionView::ClearLocationError
            &&& t.actions[m + 2] is AddColumn
            &&& t.actions[m + 2]->AddColumn_depth == n
            &&& t.actions[m + 2]->AddColumn_location == location
            &&& t.actions[m + 2]->AddColumn_heading == name_text(location)
            &&& t.actions[m + 2]->AddColumn_closable == (n > 0)
            &&& t.actions.contains(ViewActionView::RevealColumn { depth: n })
        }),
{
    let n = s.view.columns.len() as int;
    let m = s.actions.len() as int;
    reveal(set_location);
    let u = set_location(s, location).act(ViewActionView::ClearLocationError);
    lemma_append_column(u, n, location);
    lemma_new_column(u, location);
    let h = handled(s, EventView::ColumnAdded { depth: n, location });
    assert(h.actions + Seq::empty() =~= h.actions);
    lemma_refreshed(h, h.actions, Seq::empty());
    let t = handle(s, EventView::ColumnAdded { depth: n, location });
    assert forall|k: int| 0 <= k < u.actions.len() implies #[trigger] h.actions[k] == u.actions[k] by {
        assert(h.actions.take(u.actions.len() as int)[k] == h.actions[k]);
    }
    assert(t.actions[u.actions.len() as int] == h.actions[u.actions.len() as int]);
    assert(t.actions[m] == u.actions[m]);
    assert(t.actions[m + 1] == u.actions[m + 1]);
    assert(t.actions[h.actions.len() - 1] == h.actions.last());
}

/// The end of a rename ends the editing of the name, and the last column has the focus again.
pub proof fn lemma_end_of_a_rename_is_shown(s: Scene)
    ensures
        ({
            let t = handle(s, EventView::RenameCompleted);
            let depth = s.browser.columns.len() - 1;
            &&& t.view == (ViewState { renaming: None, ..s.view })
            &&& s.view.renaming is Some ==> t.actions.contains(ViewActionView::EndEditName)
            &&& depth >= 0 && s.has_column(depth) ==> t.actions.contains(
                ViewActionView::FocusColumn { depth },
            )
        }),
{
    let event = EventView::RenameCompleted;
    let depth = s.browser.columns.len() - 1;
    lemma_cancel_rename(s);
    reveal(cancel_rename);
    let c = cancel_rename(s);
    lemma_focus(c, 0, None);
    reveal(focus_active);
    reveal(focus_shown);
    let h = handled(s, event);
    if depth >= 0 {
        let f = if c.has_column(depth) {
            focus_shown(c, depth, c.browser.columns[depth].focused_position())
        } else {
            c
        };
        assert(f.actions + Seq::empty() =~= f.actions);
        lemma_refreshed(f, f.actions, Seq::empty());
        assert(h == refresh_active_path_rows(f));
        if c.has_column(depth) {
            assert(f.actions[f.actions.len() - 1] == (ViewActionView::FocusColumn { depth }));
            assert(h.actions[f.actions.len() - 1] == f.actions[f.actions.len() - 1]);
        }
        assert forall|k: int| 0 <= k < c.actions.len() implies #[trigger] h.actions[k]
            == c.actions[k] by {
            assert(f.actions[k] == c.actions[k]);
        }
        if s.view.renaming is Some {
            assert(h.actions[s.actions.len() as int] == ViewActionView::EndEditName);
        }
        assert(h.actions + Seq::empty() =~= h.actions);
        lemma_refreshed(h, h.actions, Seq::empty());
        let t = handle(s, event);
        if c.has_column(depth) {
            assert(t.actions[f.actions.len() - 1] == h.actions[f.actions.len() - 1]);
        }
        if s.view.renaming is Some {
            assert(t.actions[s.actions.len() as int] == ViewActionView::EndEditName);
        }
    } else {
        assert(h == c);
        assert(h.actions + Seq::empty() =~= h.actions);
        lemma_refreshed(h, h.actions, Seq::empty());
        if s.view.renaming is Some {
            assert(handle(s, event).actions[s.actions.len() as int]
                == ViewActionView::EndEditName);
        }
    }
}

// Peeks.

/// A peek is set up beside the row that the pointer rests on, with nothing in it yet, in the place
/// of the one before it. Where there is no such row, the browser ends it.
pub proof fn lemma_peek_is_set_up(s: Scene, location: LocationView)
    ensures
        ({
            let t = handle(s, EventView::PeekStarted { location });
            &&& t.view.columns == s.view.columns
            &&& !t.view.anchored
            &&& t.view.pending_peek is None && !t.view.pending_close
            &&& s.view.anchored ==> {
                &&& t.browser == s.browser
                &&& t.requests == s.requests
                &&& t.view.peek is Some
                &&& t.view.peek->0.location == location
                &&& t.view.peek->0.rows.len() == 0
                &&& t.view.peek->0.busy
                &&& t.view.peek->0.presentation.page == Page::Loading
                &&& t.actions.contains(
                    ViewActionView::ShowPeek { location, heading: name_text(location) },
                )
                &&& s.view.peek is Some ==> t.actions.contains(ViewActionView::ClosePeek)
            }
            &&& !s.view.anchored ==> {
                &&& t.browser.peek is None
                &&& t.view.peek is None
                &&& s.browser.peek matches Some(peek) ==> peek.loading ==> t.requests.contains(
                    RequestView::CancelLoad { id: peek.id },
                )
            }
        }),
{
    reveal(append_peek);
    reveal(close_peek_visual);
    let u = s.with(ViewState { anchored: false, ..s.view });
    let c = close_peek_visual(u);
    lemma_close_peek(u);
    lemma_end_peek(c);
    let h = handled(s, EventView::PeekStarted { location });
    assert(h.actions + Seq::empty() =~= h.actions);
    lemma_refreshed(h, h.actions, Seq::empty());
    let t = handle(s, EventView::PeekStarted { location });
    if s.view.anchored {
        assert(h.actions[c.actions.len() as int] == (ViewActionView::ShowPeek {
            location,
            heading: name_text(location),
        }));
        assert(t.actions[c.actions.len() as int] == h.actions[c.actions.len() as int]);
        if s.view.peek is Some {
            assert(h.actions[c.actions.len() - 1] == ViewActionView::ClosePeek);
            assert(t.actions[c.actions.len() - 1] == h.actions[c.actions.len() - 1]);
        }
    } else {
        reveal(end_peek);
        let f = state::end_peek(state::start(c.browser));
        if let Some(peek) = s.browser.peek {
            let base = Scene { browser: f.browser, requests: c.requests + f.requests, ..c };
            let v = close_peek_visual(base);
            assert(v.actions + Seq::empty() =~= v.actions);
            lemma_refreshed(v, v.actions, Seq::empty());
            if peek.loading {
                assert(t.requests[c.requests.len() as int] == (RequestView::CancelLoad {
                    id: peek.id,
                }));
            }
        }
    }
}

/// A peek takes in the first of the entries that it is told of, as many as fit, one row for each
/// behind the rows that it has; those rows are put on the screen.
pub proof fn lemma_peek_takes_entries_in(s: Scene, entries: Seq<FileEntryView>)
    requires
        s.view.peek is Some,
    ensures
        ({
            let before = s.view.peek->0;
            let limit = s.view.behavior.item_limit as int;
            let t = handle(s, EventView::PeekEntriesAdded { entries });
            let after = t.view.peek->0;
            let count = after.rows.len() - before.rows.len();
            &&& t.view == (ViewState { peek: Some(after), ..s.view })
            &&& 0 <= count <= entries.len()
            &&& after.rows == before.rows + rows_of(entries.take(count))
            &&& count > 0 ==> after.rows.len() <= limit || after.rows.len() <= 1
            &&& count < entries.len() ==> after.rows.len() >= limit && after.rows.len() >= 1
            &&& entries.len() > 0 ==> after.presentation.page == Page::Content
            &&& after.location == before.location && after.busy == before.busy
            &&& t.actions.contains(
                ViewActionView::AppendPeekRows { rows: rows_of(entries.take(count)) },
            )
        }),
{
    let before = s.view.peek->0;
    let limit = Some(s.view.behavior.item_limit as int);
    reveal(peek_entries_added);
    lemma_longest_run_fits(before.rows, entries, limit);
    let event = EventView::PeekEntriesAdded { entries };
    let h = handled(s, event);
    assert(h.actions + Seq::empty() =~= h.actions);
    lemma_refreshed(h, h.actions, Seq::empty());
    let t = handle(s, event);
    let count = fitting(entries.len() as int, before.rows.len() as int, limit);
    assert(rows_of(entries.take(count)).len() == count);
    assert(h.actions.last() == (ViewActionView::AppendPeekRows {
        rows: rows_of(entries.take(count)),
    }));
    assert(t.actions[h.actions.len() - 1] == h.actions.last());
}

/// A peek whose listing ended shows its rows or that there are none, one whose listing failed says
/// why, and offers no way to try again unless there is one. A peek that is closed is taken away.
pub proof fn lemma_peek_ends(s: Scene, message: Seq<char>)
    ensures
        s.view.peek is Some ==> {
            let before = s.view.peek->0;
            let done = handle(s, EventView::PeekFinished).view.peek->0;
            let broken = handle(s, EventView::PeekFailed { message }).view.peek->0;
            &&& handle(s, EventView::PeekFinished).view == (ViewState { peek: Some(done), ..s.view })
            &&& handle(s, EventView::PeekFailed { message }).view == (ViewState {
                peek: Some(broken),
                ..s.view
            })
            &&& !done.busy && !broken.busy
            &&& done.rows == before.rows && broken.rows == before.rows
            &&& done.presentation.page == if before.rows.len() > 0 {
                Page::Content
            } else {
                Page::Feedback
            }
            &&& before.rows.len() == 0 ==> !done.presentation.error
            &&& broken.presentation.page == Page::Feedback
            &&& broken.presentation.error
            &&& broken.presentation.message == "Unable to read this directory\n"@ + message
            &&& broken.presentation.retry_shown == before.presentation.can_retry
        },
        handle(s, EventView::PeekClosed).view == (ViewState {
            peek: None,
            pending_peek: None,
            pending_close: false,
            ..s.view
        }),
        s.view.peek is Some ==> handle(s, EventView::PeekClosed).actions.contains(
            ViewActionView::ClosePeek,
        ),
{
    reveal(peek_finished);
    reveal(peek_failed);
    reveal(close_peek_visual);
    lemma_close_peek(s);
    lemma_refresh(handled(s, EventView::PeekFinished));
    lemma_refresh(handled(s, EventView::PeekFailed { message }));
    let h = handled(s, EventView::PeekClosed);
    assert(h.actions + Seq::empty() =~= h.actions);
    lemma_refreshed(h, h.actions, Seq::empty());
    if s.view.peek is Some {
        assert(h.actions.last() == ViewActionView::ClosePeek);
        assert(handle(s, EventView::PeekClosed).actions[h.actions.len() - 1] == h.actions.last());
    }
}

// What is not there.

/// What is told of a column that is not on the screen, or of a peek where there is none, is not
/// shown.
pub proof fn lemma_nothing_to_show_it_in(
    s: Scene,
    event: EventView,
    depth: int,
    positions: Seq<int>,
    focused: int,
    entries: Seq<FileEntryView>,
    message: Seq<char>,
)
    requires
        column_told_of(event) == Some(depth),
        !s.has_column(depth),
    ensures
        handle(s, event).view == s.view,
        does(s.actions, Seq::empty(), handle(s, event).actions),
        ({
            let selected = EventView::SelectionSetChanged { depth, positions, focused };
            let focus = EventView::FocusChanged { depth, position: Some(focused) };
            &&& handle(s, selected).view == s.view
            &&& handle(s, focus).view == s.view
            &&& does(s.actions, Seq::empty(), handle(s, selected).actions)
            &&& does(s.actions, Seq::empty(), handle(s, focus).actions)
        }),
        s.view.peek is None ==> {
            let added = EventView::PeekEntriesAdded { entries };
            let failed = EventView::PeekFailed { message };
            &&& handle(s, added).view == s.view
            &&& handle(s, failed).view == s.view
            &&& handle(s, EventView::PeekFinished).view == s.view
            &&& does(s.actions, Seq::empty(), handle(s, added).actions)
            &&& does(s.actions, Seq::empty(), handle(s, failed).actions)
            &&& does(s.actions, Seq::empty(), handle(s, EventView::PeekFinished).actions)
        },
{
    assert(s.actions + Seq::empty() =~= s.actions);
    lemma_refreshed(s, s.actions, Seq::empty());
}

/// To stop editing a name, or to give up a new folder, ends just that, and is done on the screen
/// where something was edited. To give up a peek that has not opened, or one that was to close,
/// stops the timer where it runs.
pub proof fn lemma_giving_up(s: Scene)
    ensures
        cancel_rename(s).view == (ViewState { renaming: None, ..s.view }),
        cancel_rename(s).actions == if s.view.renaming is Some {
            s.actions.push(ViewActionView::EndEditName)
        } else {
            s.actions
        },
        cancel_new_folder(s).view == (ViewState { new_folder: None, ..s.view }),
        s.view.new_folder matches Some((depth, _)) ==> cancel_new_folder(s).actions
            == s.actions.push(ViewActionView::EndEditNewFolder { depth }),
        s.view.new_folder is None ==> cancel_new_folder(s).actions == s.actions,
        cancel_rename(s).browser == s.browser && cancel_new_folder(s).browser == s.browser,
        stop_peek_timer(s).view == (ViewState { pending_peek: None, ..s.view }),
        stop_peek_timer(s).actions == if s.view.pending_peek is Some {
            s.actions.push(ViewActionView::StopPeekTimer)
        } else {
            s.actions
        },
        stop_close_timer(s).view == (ViewState { pending_close: false, ..s.view }),
        stop_close_timer(s).actions == if s.view.pending_close {
            s.actions.push(ViewActionView::StopCloseTimer)
        } else {
            s.actions
        },
{
    reveal(cancel_rename);
}

/// A screen starts with nothing on it, for that home directory and that behavior of peeks, which
/// are switched on.
pub proof fn lemma_first_screen(home: LocationView, behavior: PeekBehavior)
    ensures
        ({
            let view = blank(home, behavior);
            &&& view.home == home && view.behavior == behavior
            &&& view.columns.len() == 0 && view.peek is None
            &&& view.pending_peek is None && !view.pending_close && !view.anchored
            &&& view.peek_enabled
            &&& view.renaming is None && view.new_folder is None
        }),
{
}

} // verus!
