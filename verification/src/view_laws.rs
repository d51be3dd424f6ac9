//! What holds of the screen whatever happens.
use vstd::prelude::*;

use self::counts::counts_rows;
use crate::dialogs::COLUMN_WIDTH;
use crate::entry::FileEntryView;
use crate::event::{EventView, SpliceView};
use crate::gestures;
use crate::labels::placeholder;
use crate::laws::{lemma_entry_position, run, Command};
use crate::model::{name_text, LocationView};
use crate::names::location_error_text;
use crate::order::{merged, sorted, SortPreference};
use crate::presentation::{peek_room, unreadable, Page, PeekBehavior};
use crate::rows::{
    filtered_position, lemma_appending_in_parts, lemma_filter_positions, lemma_longest_run_fits,
    lemma_row_keeps_the_entry, lemma_shown_below, row_name, row_of, rows_of,
};
use crate::screen::{
    active_row, append_column, append_entries, append_peek, blank, cancel_new_folder, cancel_rename,
    close_peek_visual, column_reloaded, end_peek, entries_inserted, entries_replaced,
    entries_spliced, focus_active, focus_shown, fresh_column, handle, handle_all, handled,
    insert_runs, load_failed, load_finished, mark_first, peek_entries_added, peek_failed,
    peek_finished, present, refresh_active_path_rows, replace_ranges, run_total,
    selection_set_changed, set_location, show, splice_rows, sync_active_location, truncate,
    ColumnScreen, Scene, ViewActionView, ViewState,
};
use crate::selection_laws::{lemma_splices_replay, with_splices};
use crate::sorting::{
    lemma_insertions_replay, merge_insertions, spliced, with_insertions, InsertionView,
};
use crate::state;
use crate::state::{BrowserState, ChangeView, ColumnState, Flow};

pub mod counts;
pub mod events;
pub mod input;
pub mod menus;

verus! {

/// What can be seen of a column.
#[verifier::ext_equal]
pub struct Sight {
    pub location: LocationView,
    pub entries: Seq<FileEntryView>,
    pub loading: bool,
}

/// What can be seen of the columns of a browser.
pub open spec fn sight_of(columns: Seq<ColumnState>) -> Seq<Sight> {
    columns.map_values(
        |column: ColumnState|
            Sight { location: column.location, entries: column.entries, loading: column.loading },
    )
}

/// What an observer makes of an event who has seen the columns so far.
pub open spec fn observed(seen: Seq<Sight>, event: EventView) -> Seq<Sight> {
    match event {
        EventView::Reset => Seq::empty(),
        EventView::ColumnsTruncated { len } => if 0 <= len < seen.len() {
            seen.take(len)
        } else {
            seen
        },
        EventView::ColumnAdded { location, .. } => seen.push(
            Sight { location, entries: Seq::empty(), loading: true },
        ),
        EventView::EntriesInserted { depth, insertions } => if 0 <= depth < seen.len() {
            seen.update(
                depth,
                Sight { entries: with_insertions(seen[depth].entries, insertions), ..seen[depth] },
            )
        } else {
            seen
        },
        EventView::EntriesReplaced { depth, entries } => if 0 <= depth < seen.len() {
            seen.update(depth, Sight { entries, ..seen[depth] })
        } else {
            seen
        },
        EventView::EntriesSpliced { depth, splices, .. } => if 0 <= depth < seen.len() {
            seen.update(
                depth,
                Sight { entries: with_splices(seen[depth].entries, splices), ..seen[depth] },
            )
        } else {
            seen
        },
        EventView::ColumnReloaded { depth } => if 0 <= depth < seen.len() {
            seen.update(depth, Sight { entries: Seq::empty(), loading: true, ..seen[depth] })
        } else {
            seen
        },
        EventView::LoadFinished { depth } => if 0 <= depth < seen.len() {
            seen.update(depth, Sight { loading: false, ..seen[depth] })
        } else {
            seen
        },
        EventView::LoadFailed { depth, .. } => if 0 <= depth < seen.len() {
            seen.update(depth, Sight { loading: false, ..seen[depth] })
        } else {
            seen
        },
        _ => seen,
    }
}

/// What an observer makes of events, one after the other.
pub open spec fn observed_all(seen: Seq<Sight>, events: Seq<EventView>) -> Seq<Sight>
    decreases events.len(),
{
    if events.len() == 0 {
        seen
    } else {
        observed(observed_all(seen, events.drop_last()), events.last())
    }
}

// Events tell everything.

spec fn told(seen: Seq<Sight>, f: Flow) -> bool {
    observed_all(seen, f.events) == sight_of(f.browser.columns)
}

proof fn lemma_told_start(b: BrowserState)
    ensures
        told(sight_of(b.columns), state::start(b)),
{
}

proof fn lemma_tell(seen: Seq<Sight>, events: Seq<EventView>, event: EventView)
    ensures
        observed_all(seen, events.push(event)) == observed(observed_all(seen, events), event),
{
    assert(events.push(event).drop_last() =~= events);
}

proof fn lemma_told_open_column(seen: Seq<Sight>, f: Flow, location: LocationView)
    requires
        told(seen, f),
    ensures
        told(seen, state::open_column(f, location)),
{
    let b = f.browser;
    lemma_tell(
        seen,
        f.events,
        EventView::ColumnAdded { depth: b.columns.len() as int, location },
    );
    assert(sight_of(state::open_column(f, location).browser.columns) =~= sight_of(b.columns).push(
        Sight { location, entries: Seq::empty(), loading: true },
    ));
}

proof fn lemma_told_open_columns(seen: Seq<Sight>, f: Flow, places: Seq<LocationView>)
    requires
        told(seen, f),
    ensures
        told(seen, state::open_columns(f, places)),
    decreases places.len(),
{
    if places.len() > 0 {
        lemma_told_open_columns(seen, f, places.drop_last());
        lemma_told_open_column(seen, state::open_columns(f, places.drop_last()), places.last());
    }
}

proof fn lemma_told_truncated(seen: Seq<Sight>, f: Flow, len: int)
    requires
        told(seen, f),
        0 <= len,
    ensures
        told(seen, state::truncated(f, len)),
{
    if len < f.browser.columns.len() {
        lemma_tell(seen, f.events, EventView::ColumnsTruncated { len });
        assert(sight_of(f.browser.columns.take(len)) =~= sight_of(f.browser.columns).take(len));
    }
}

proof fn lemma_told_reset(seen: Seq<Sight>, f: Flow)
    requires
        told(seen, f),
    ensures
        told(seen, state::close_from(f, 0).tell(EventView::Reset)),
{
    lemma_tell(seen, f.events, EventView::Reset);
    assert(sight_of(f.browser.columns.take(0)) =~= Seq::empty());
}

proof fn lemma_told_end_peek(seen: Seq<Sight>, f: Flow)
    requires
        told(seen, f),
    ensures
        told(seen, state::end_peek(f)),
        told(seen, state::drop_peek(f)),
{
    lemma_tell(seen, state::drop_peek(f).events, EventView::PeekClosed);
}

proof fn lemma_told_reload(seen: Seq<Sight>, f: Flow, depth: int)
    requires
        told(seen, f),
        0 <= depth < f.browser.columns.len(),
    ensures
        told(seen, state::reload(f, depth)),
{
    lemma_tell(seen, f.events, EventView::ColumnReloaded { depth });
    let columns = f.browser.columns;
    assert(sight_of(state::reload(f, depth).browser.columns) =~= sight_of(columns).update(
        depth,
        Sight { location: columns[depth].location, entries: Seq::empty(), loading: true },
    ));
}

proof fn lemma_told_reload_first(seen: Seq<Sight>, f: Flow, count: int)
    requires
        told(seen, f),
        0 <= count <= f.browser.columns.len(),
    ensures
        told(seen, state::reload_first(f, count)),
        state::reload_first(f, count).browser.columns.len() == f.browser.columns.len(),
    decreases count,
{
    if count > 0 {
        lemma_told_reload_first(seen, f, count - 1);
        lemma_told_reload(seen, state::reload_first(f, count - 1), count - 1);
    }
}

proof fn lemma_told_restore(seen: Seq<Sight>, f: Flow, depth: int)
    requires
        told(seen, f),
    ensures
        told(seen, state::restore_selection(f, depth)),
{
    let column = f.browser.columns[depth];
    lemma_tell(
        seen,
        f.events,
        EventView::SelectionSetChanged {
            depth,
            positions: column.selected_positions(),
            focused: state::restored_focus(column),
        },
    );
}

/// Whether events of a column leave the state that they tell of.
proof fn lemma_told_column(b: BrowserState, depth: int, column: ColumnState, event: EventView)
    requires
        0 <= depth < b.columns.len(),
        observed(sight_of(b.columns), event) == sight_of(b.columns).update(
            depth,
            Sight { location: column.location, entries: column.entries, loading: column.loading },
        ),
    ensures
        told(
            sight_of(b.columns),
            state::start(state::with_column(b, depth, column)).tell(event),
        ),
{
    let seen = sight_of(b.columns);
    lemma_tell(seen, Seq::empty(), event);
    assert(sight_of(b.columns.update(depth, column)) =~= seen.update(
        depth,
        Sight { location: column.location, entries: column.entries, loading: column.loading },
    ));
}

proof fn lemma_found_column(columns: Seq<ColumnState>, id: int, at: int)
    requires
        0 <= at,
    ensures
        state::column_from(columns, id, at) matches Some(found) ==> at <= found < columns.len(),
    decreases columns.len() - at,
{
    if at < columns.len() && columns[at].id != id {
        lemma_found_column(columns, id, at + 1);
    }
}

proof fn lemma_told_resort(b: BrowserState, depth: int, sort: SortPreference)
    requires
        0 <= depth < b.columns.len(),
    ensures
        told(sight_of(b.columns), state::resort(b, depth, sort)),
{
    let column = b.columns[depth];
    let entries = sorted(sort, column.entries);
    let next = ColumnState { sort, entries, ..column };
    let event = EventView::EntriesReplaced { depth, entries };
    assert(sight_of(b.columns)[depth].location == column.location);
    lemma_told_column(b, depth, next, event);
    lemma_told_restore(
        sight_of(b.columns),
        state::start(state::with_column(b, depth, next)).tell(event),
        depth,
    );
}

proof fn lemma_told_loading(b: BrowserState, id: int, batch: Seq<FileEntryView>, message: Seq<char>)
    ensures
        told(sight_of(b.columns), state::batch_arrived(b, id, batch)),
        told(sight_of(b.columns), state::load_finished(b, id)),
        told(sight_of(b.columns), state::load_failed(b, id, message)),
{
    let seen = sight_of(b.columns);
    lemma_found_column(b.columns, id, 0);
    match state::loading_column(b, id) {
        Some(depth) => {
            let column = b.columns[depth];
            assert(seen[depth].location == column.location);
            let arrived = sorted(column.sort, batch);
            lemma_insertions_replay(column.sort, column.entries, arrived);
            lemma_told_column(
                b,
                depth,
                ColumnState {
                    entries: merged(column.sort, column.entries, arrived),
                    ..column
                },
                EventView::EntriesInserted {
                    depth,
                    insertions: merge_insertions(column.sort, column.entries, arrived, 0),
                },
            );
            let ended = ColumnState { loading: false, ..column };
            lemma_told_column(b, depth, ended, EventView::LoadFinished { depth });
            lemma_told_restore(
                seen,
                state::start(state::with_column(b, depth, ended)).tell(
                    EventView::LoadFinished { depth },
                ),
                depth,
            );
            lemma_told_column(b, depth, ended, EventView::LoadFailed { depth, message });
        },
        None => {
            lemma_tell(seen, Seq::empty(), EventView::PeekEntriesAdded { entries: batch });
            lemma_tell(seen, Seq::empty(), EventView::PeekFinished);
            lemma_tell(seen, Seq::empty(), EventView::PeekFailed { message });
        },
    }
}

proof fn lemma_told_change(b: BrowserState, id: int, change: ChangeView)
    ensures
        told(sight_of(b.columns), state::directory_changed(b, id, change)),
{
    let seen = sight_of(b.columns);
    lemma_found_column(b.columns, id, 0);
    match state::column_of(b.columns, id) {
        Some(depth) => {
            let column = b.columns[depth];
            assert(seen[depth].location == column.location);
            if change is Rescan || column.loading {
                lemma_told_reload(seen, state::start(b), depth);
            } else {
                let done = state::changed(column, change);
                lemma_splices_replay(column, change);
                lemma_change_keeps_place(column, change);
                if done.splices.len() == 0 {
                    assert(sight_of(b.columns.update(depth, done.column)) =~= seen);
                } else {
                    lemma_told_column(
                        b,
                        depth,
                        done.column,
                        EventView::EntriesSpliced {
                            depth,
                            splices: done.splices,
                            selected: done.column.focused_position(),
                        },
                    );
                }
            }
        },
        None => {},
    }
}

proof fn lemma_change_keeps_place(column: ColumnState, change: ChangeView)
    ensures
        state::changed(column, change).column.location == column.location,
        state::changed(column, change).column.loading == column.loading,
{
}

proof fn lemma_told_chosen(b: BrowserState, depth: int, position: int)
    requires
        state::has_entry(b, depth, position),
    ensures
        told(sight_of(b.columns), state::start(state::chosen(b, depth, position))),
{
    assert(sight_of(state::chosen(b, depth, position).columns) =~= sight_of(b.columns));
}

proof fn lemma_told_rows(b: BrowserState, depth: int, position: int)
    ensures
        told(sight_of(b.columns), state::select(b, depth, position)),
        told(sight_of(b.columns), state::preview(b, depth, position)),
        told(sight_of(b.columns), state::activate(b, depth, position)),
{
    let seen = sight_of(b.columns);
    if state::has_entry(b, depth, position) {
        let entry = b.columns[depth].entries[position];
        lemma_told_chosen(b, depth, position);
        lemma_tell(
            seen,
            Seq::empty(),
            EventView::FocusChanged { depth, position: Some(position) },
        );
        lemma_tell(seen, Seq::empty(), EventView::PreviewRequested { entry });
        lemma_tell(seen, Seq::empty(), EventView::OpenRequested { location: entry.location });
    }
}

proof fn lemma_told_operations(b: BrowserState, command: Command)
    requires
        match command {
            Command::Rename { .. } => true,
            Command::CreateDirectory { .. } => true,
            Command::Transfer { .. } => true,
            Command::Delete { .. } => true,
            Command::EmptyTrash => true,
            Command::OperationEnded { .. } => true,
            _ => false,
        },
    ensures
        told(sight_of(b.columns), run(b, command)),
{
    let seen = sight_of(b.columns);
    let f = run(b, command);
    if f.events.len() > 0 {
        assert(f.events =~= Seq::empty().push(f.events[0]));
        lemma_tell(seen, Seq::empty(), f.events[0]);
    }
}

/// The events of a command tell everything that it does to the columns: an observer who has seen
/// the columns before and takes in the events sees them as they are after it.
pub proof fn lemma_events_tell_everything(b: BrowserState, command: Command)
    ensures
        observed_all(sight_of(b.columns), run(b, command).events) == sight_of(
            run(b, command).browser.columns,
        ),
{
    let seen = sight_of(b.columns);
    lemma_told_start(b);
    match command {
        Command::Navigate { location } => {
            lemma_told_navigate(b, location);
        },
        Command::NavigateTyped { location, verdict } => {
            lemma_told_navigate(b, location);
        },
        Command::Back => {
            if b.history.len() > 0 {
                let c = BrowserState { history: b.history.drop_last(), ..b };
                lemma_told_end_peek(seen, state::start(c));
                let f = state::drop_peek(state::start(c));
                lemma_told_reset(seen, f);
                lemma_told_open_columns(
                    seen,
                    state::close_from(f, 0).tell(EventView::Reset),
                    b.history.last(),
                );
            }
        },
        Command::Descend { depth, location, verdict } => {
            if 0 <= depth < b.columns.len() {
                match verdict {
                    Err(error) => {
                        lemma_tell(
                            seen,
                            Seq::empty(),
                            EventView::NavigationRejected {
                                message: location_error_text(error),
                            },
                        );
                    },
                    Ok(_) => {
                        let f = state::start(state::remember(b));
                        lemma_told_end_peek(seen, f);
                        lemma_told_truncated(seen, state::end_peek(f), depth + 1);
                        lemma_told_open_column(
                            seen,
                            state::truncated(state::end_peek(f), depth + 1),
                            location,
                        );
                    },
                }
            }
        },
        Command::CloseColumn { depth } => {
            lemma_told_close(b, depth);
        },
        Command::Escape => {
            lemma_told_end_peek(seen, state::start(b));
            lemma_told_close(b, b.columns.len() - 1);
        },
        Command::BeginPeek { origin, location } => {
            if 0 <= origin < b.columns.len() {
                lemma_told_end_peek(seen, state::start(b));
                lemma_tell(
                    seen,
                    state::drop_peek(state::start(b)).events,
                    EventView::PeekStarted { location },
                );
            }
        },
        Command::ClosePeek => {
            lemma_told_end_peek(seen, state::start(b));
        },
        Command::CommitPeek => {
            lemma_told_end_peek(seen, state::start(b));
        },
        Command::RetryColumn { depth } => {
            if 0 <= depth < b.columns.len() {
                lemma_told_reload(seen, state::start(b), depth);
            }
        },
        Command::ToggleHidden => {
            lemma_told_reload_first(
                seen,
                state::start(BrowserState { include_hidden: !b.include_hidden, ..b }),
                b.columns.len() as int,
            );
        },
        Command::BatchArrived { id, batch } => {
            lemma_told_loading(b, id, batch, Seq::empty());
        },
        Command::LoadFinished { id } => {
            lemma_told_loading(b, id, Seq::empty(), Seq::empty());
        },
        Command::LoadFailed { id, message } => {
            lemma_told_loading(b, id, Seq::empty(), message);
        },
        Command::SetSortKey { depth, key } => {
            if 0 <= depth < b.columns.len() {
                lemma_told_resort(
                    b,
                    depth,
                    SortPreference { key, ..b.columns[depth].sort },
                );
            }
        },
        Command::SetSortDirection { depth, direction } => {
            if 0 <= depth < b.columns.len() {
                lemma_told_resort(
                    b,
                    depth,
                    SortPreference { direction, ..b.columns[depth].sort },
                );
            }
        },
        Command::SetFoldersFirst { depth, folders_first } => {
            if 0 <= depth < b.columns.len() {
                lemma_told_resort(
                    b,
                    depth,
                    SortPreference { folders_first, ..b.columns[depth].sort },
                );
            }
        },
        Command::DirectoryChanged { id, change } => {
            lemma_told_change(b, id, change);
        },
        Command::SetSelection { depth, positions, focused } => {
            assert(sight_of(state::set_selection(b, depth, positions, focused).columns) =~= seen);
        },
        Command::Select { depth, position } => {
            lemma_told_rows(b, depth, position);
        },
        Command::Preview { depth, position } => {
            lemma_told_rows(b, depth, position);
        },
        Command::Activate { depth, position } => {
            lemma_told_rows(b, depth, position);
        },
        Command::ActivateFocused => {
            if b.columns.len() > 0 {
                let depth = b.columns.len() - 1;
                if let Some(position) = b.columns[depth].focused_position() {
                    lemma_told_rows(b, depth, position);
                }
            }
        },
        Command::MoveSelection { delta } => {
            if b.columns.len() > 0 {
                let depth = b.columns.len() - 1;
                lemma_told_rows(b, depth, state::moved_position(b.columns[depth], delta));
            }
        },
        Command::FocusActive => {
            if b.columns.len() > 0 {
                let depth = b.columns.len() - 1;
                lemma_tell(
                    seen,
                    Seq::empty(),
                    EventView::FocusChanged {
                        depth,
                        position: b.columns[depth].focused_position(),
                    },
                );
            }
        },
        _ => {
            lemma_told_operations(b, command);
        },
    }
}

proof fn lemma_told_navigate(b: BrowserState, location: LocationView)
    ensures
        told(sight_of(b.columns), state::navigate(b, location)),
{
    let seen = sight_of(b.columns);
    let f = state::start(state::remember(b));
    lemma_told_end_peek(seen, f);
    lemma_told_reset(seen, state::drop_peek(f));
    lemma_told_open_column(
        seen,
        state::close_from(state::drop_peek(f), 0).tell(EventView::Reset),
        location,
    );
}

proof fn lemma_told_close(b: BrowserState, depth: int)
    ensures
        told(sight_of(b.columns), state::close_column(b, depth)),
{
    let seen = sight_of(b.columns);
    lemma_told_end_peek(seen, state::start(b));
    if 0 < depth < b.columns.len() {
        lemma_told_truncated(seen, state::end_peek(state::start(b)), depth);
    }
}

// The screen shows what the browser holds.

/// Whether the columns on the screen show what has been seen: the same places, a row for each
/// entry, and a sign of work for each listing that runs.
pub open spec fn mirrors(columns: Seq<ColumnScreen>, seen: Seq<Sight>) -> bool {
    &&& columns.len() == seen.len()
    &&& forall|d: int|
        0 <= d < seen.len() ==> {
            &&& (#[trigger] columns[d]).location == seen[d].location
            &&& columns[d].rows == rows_of(seen[d].entries)
            &&& columns[d].busy == seen[d].loading
        }
}

spec fn keeps_all(s: Scene, t: Scene) -> bool {
    t.view == s.view && t.browser == s.browser
}

spec fn keeps_all_but_columns(s: Scene, t: Scene) -> bool {
    t.view == (ViewState { columns: t.view.columns, ..s.view }) && t.browser == s.browser
}

spec fn changes_column(s: Scene, t: Scene, depth: int, rows: Seq<Seq<char>>, busy: bool) -> bool {
    &&& keeps_all_but_columns(s, t)
    &&& t.view.columns.len() == s.view.columns.len()
    &&& forall|d: int|
        0 <= d < s.view.columns.len() && d != depth ==> #[trigger] t.view.columns[d]
            == s.view.columns[d]
    &&& t.view.columns[depth].location == s.view.columns[depth].location
    &&& t.view.columns[depth].rows == rows
    &&& t.view.columns[depth].busy == busy
}

proof fn lemma_mark(s: Scene, count: int)
    ensures
        keeps_all(s, mark_first(s, count)),
    decreases count,
{
    if count > 0 {
        lemma_mark(s, count - 1);
    }
}

proof fn lemma_refresh(s: Scene)
    ensures
        keeps_all(s, refresh_active_path_rows(s)),
{
    reveal(refresh_active_path_rows);
    lemma_mark(s, s.view.columns.len() as int);
}

proof fn lemma_close_peek(s: Scene)
    ensures
        close_peek_visual(s).view == (ViewState {
            peek: None,
            pending_peek: None,
            pending_close: false,
            ..s.view
        }),
        close_peek_visual(s).browser == s.browser,
{
    reveal(close_peek_visual);
}

proof fn lemma_cancel_rename(s: Scene)
    ensures
        cancel_rename(s).view == (ViewState { renaming: None, ..s.view }),
        cancel_rename(s).browser == s.browser,
{
    reveal(cancel_rename);
}

proof fn lemma_truncate(s: Scene, len: int)
    ensures
        truncate(s, len).view == (ViewState {
            columns: if 0 <= len < s.view.columns.len() {
                s.view.columns.take(len)
            } else {
                s.view.columns
            },
            peek: None,
            pending_peek: None,
            pending_close: false,
            renaming: None,
            new_folder: None,
            ..s.view
        }),
        truncate(s, len).browser == s.browser,
{
    reveal(truncate);
    lemma_close_peek(s);
    lemma_cancel_rename(close_peek_visual(s));
}

proof fn lemma_set_location(s: Scene, location: LocationView)
    ensures
        keeps_all(s, set_location(s, location)),
        keeps_all(s, sync_active_location(s)),
{
    reveal(set_location);
    reveal(sync_active_location);
}

proof fn lemma_append_column(s: Scene, depth: int, location: LocationView)
    ensures
        append_column(s, depth, location).view == (ViewState {
            columns: s.view.columns.push(fresh_column(location)),
            ..s.view
        }),
        append_column(s, depth, location).browser == s.browser,
{
    reveal(append_column);
    let added = s.with(
        ViewState { columns: s.view.columns.push(fresh_column(location)), ..s.view },
    ).act(
        ViewActionView::AddColumn {
            depth,
            location,
            heading: name_text(location),
            closable: depth > 0,
            width: COLUMN_WIDTH as int,
            placeholder: placeholder(0),
        },
    );
    lemma_refresh(added);
}

proof fn lemma_focus(s: Scene, depth: int, position: Option<int>)
    ensures
        keeps_all(s, focus_shown(s, depth, position)),
        keeps_all(s, focus_active(s)),
{
    reveal(focus_shown);
    reveal(focus_active);
    lemma_refresh(s);
    if let Some(last) = state::active_depth(s.browser) {
        lemma_refresh(focus_shown(s, last, s.browser.columns[last].focused_position()));
    }
}

proof fn lemma_end_peek(s: Scene)
    ensures
        end_peek(s).view == if s.browser.peek is Some {
            ViewState { peek: None, pending_peek: None, pending_close: false, ..s.view }
        } else {
            s.view
        },
        end_peek(s).browser == (BrowserState { peek: None, ..s.browser }),
{
    reveal(end_peek);
    let f = state::end_peek(state::start(s.browser));
    let t = Scene { browser: f.browser, requests: s.requests + f.requests, ..s };
    lemma_close_peek(t);
    lemma_refresh(close_peek_visual(t));
    if s.browser.peek is None {
        assert(s.browser =~= BrowserState { peek: None, ..s.browser });
    }
}

proof fn lemma_append_peek(s: Scene, location: LocationView)
    ensures
        append_peek(s, location).view.columns == s.view.columns,
        append_peek(s, location).view.behavior == s.view.behavior,
        append_peek(s, location).browser.columns == s.browser.columns,
        append_peek(s, location).view.peek matches Some(peek) ==> peek.rows.len() == 0,
{
    reveal(append_peek);
    let t = s.with(ViewState { anchored: false, ..s.view });
    lemma_close_peek(t);
    lemma_end_peek(close_peek_visual(t));
}

proof fn lemma_rows_spliced(
    entries: Seq<FileEntryView>,
    position: int,
    removed: int,
    added: Seq<FileEntryView>,
)
    ensures
        rows_of(spliced(entries, position, removed, added)) == spliced(
            rows_of(entries),
            position,
            removed,
            rows_of(added),
        ),
{
    assert(rows_of(spliced(entries, position, removed, added)) =~= spliced(
        rows_of(entries),
        position,
        removed,
        rows_of(added),
    ));
}

proof fn lemma_insert_runs(
    s: Scene,
    depth: int,
    insertions: Seq<InsertionView>,
    entries: Seq<FileEntryView>,
)
    requires
        s.has_column(depth),
        s.view.columns[depth].rows == rows_of(entries),
    ensures
        changes_column(
            s,
            insert_runs(s, depth, insertions),
            depth,
            rows_of(with_insertions(entries, insertions)),
            s.view.columns[depth].busy,
        ),
    decreases insertions.len(),
{
    if insertions.len() > 0 {
        let first = insertions[0];
        lemma_rows_spliced(entries, first.position, 0, first.entries);
        lemma_insert_runs(
            splice_rows(s, depth, first.position, 0, rows_of(first.entries)),
            depth,
            insertions.drop_first(),
            spliced(entries, first.position, 0, first.entries),
        );
    }
}

proof fn lemma_replace_ranges(
    s: Scene,
    depth: int,
    splices: Seq<SpliceView>,
    entries: Seq<FileEntryView>,
)
    requires
        s.has_column(depth),
        s.view.columns[depth].rows == rows_of(entries),
    ensures
        changes_column(
            s,
            replace_ranges(s, depth, splices),
            depth,
            rows_of(with_splices(entries, splices)),
            s.view.columns[depth].busy,
        ),
    decreases splices.len(),
{
    if splices.len() > 0 {
        let last = splices.last();
        lemma_replace_ranges(s, depth, splices.drop_last(), entries);
        lemma_rows_spliced(
            with_splices(entries, splices.drop_last()),
            last.position,
            last.removed,
            last.entries,
        );
    }
}

proof fn lemma_entries_inserted(
    s: Scene,
    depth: int,
    insertions: Seq<InsertionView>,
    entries: Seq<FileEntryView>,
)
    requires
        s.has_column(depth),
        s.view.columns[depth].rows == rows_of(entries),
    ensures
        changes_column(
            s,
            entries_inserted(s, depth, insertions),
            depth,
            rows_of(with_insertions(entries, insertions)),
            s.view.columns[depth].busy,
        ),
{
    reveal(entries_inserted);
    let shown = if run_total(insertions) > 0 {
        present(s, depth, s.view.columns[depth].presentation.content())
    } else {
        s
    };
    lemma_insert_runs(shown, depth, insertions, entries);
}

proof fn lemma_entries_replaced(s: Scene, depth: int, entries: Seq<FileEntryView>)
    requires
        s.has_column(depth),
    ensures
        changes_column(
            s,
            entries_replaced(s, depth, entries),
            depth,
            rows_of(entries),
            s.view.columns[depth].busy,
        ),
{
    reveal(entries_replaced);
    let rows = s.view.columns[depth].rows;
    assert(spliced(rows, 0, rows.len() as int, rows_of(entries)) =~= rows_of(entries));
}

proof fn lemma_entries_spliced(
    s: Scene,
    depth: int,
    splices: Seq<SpliceView>,
    selected: Option<int>,
    entries: Seq<FileEntryView>,
)
    requires
        s.has_column(depth),
        s.view.columns[depth].rows == rows_of(entries),
    ensures
        changes_column(
            s,
            entries_spliced(s, depth, splices, selected),
            depth,
            rows_of(with_splices(entries, splices)),
            s.view.columns[depth].busy,
        ),
{
    reveal(entries_spliced);
    lemma_replace_ranges(s, depth, splices, entries);
}

proof fn lemma_column_reloaded(s: Scene, depth: int)
    requires
        s.has_column(depth),
    ensures
        changes_column(s, column_reloaded(s, depth), depth, rows_of(Seq::empty()), true),
{
    reveal(column_reloaded);
    let rows = s.view.columns[depth].rows;
    assert(spliced(rows, 0, rows.len() as int, Seq::empty()) =~= Seq::empty());
    assert(rows_of(Seq::empty()) =~= Seq::empty());
}

proof fn lemma_load_ended(s: Scene, depth: int, message: Seq<char>)
    requires
        s.has_column(depth),
    ensures
        changes_column(
            s,
            load_finished(s, depth),
            depth,
            s.view.columns[depth].rows,
            false,
        ),
        changes_column(
            s,
            load_failed(s, depth, message),
            depth,
            s.view.columns[depth].rows,
            false,
        ),
{
    reveal(load_finished);
    reveal(load_failed);
}

proof fn lemma_peek_handlers(s: Scene, entries: Seq<FileEntryView>, message: Seq<char>)
    requires
        s.view.peek is Some,
    ensures
        ({
            let t = peek_entries_added(s, entries);
            let room = peek_room(
                s.view.behavior.item_limit as int,
                s.view.peek->0.rows.len() as int,
            );
            &&& t.view == (ViewState { peek: t.view.peek, ..s.view })
            &&& t.browser == s.browser
            &&& t.view.peek is Some
            &&& t.view.peek->0.rows.len() <= s.view.peek->0.rows.len() + room
        }),
        ({
            let t = peek_finished(s);
            &&& t.view == (ViewState { peek: t.view.peek, ..s.view })
            &&& t.browser == s.browser
            &&& t.view.peek is Some && t.view.peek->0.rows == s.view.peek->0.rows
        }),
        ({
            let t = peek_failed(s, message);
            &&& t.view == (ViewState { peek: t.view.peek, ..s.view })
            &&& t.browser == s.browser
            &&& t.view.peek is Some && t.view.peek->0.rows == s.view.peek->0.rows
        }),
{
    reveal(peek_entries_added);
    lemma_longest_run_fits(
        s.view.peek->0.rows,
        entries,
        Some(s.view.behavior.item_limit as int),
    );
    reveal(peek_finished);
    reveal(peek_failed);
}

proof fn lemma_selection_shown(s: Scene, depth: int, positions: Seq<int>, focused: int)
    ensures
        keeps_all(s, selection_set_changed(s, depth, positions, focused)),
{
    reveal(selection_set_changed);
}

proof fn lemma_mirror_column(
    s: Scene,
    t: Scene,
    seen: Seq<Sight>,
    depth: int,
    sight: Sight,
)
    requires
        mirrors(s.view.columns, seen),
        s.has_column(depth),
        changes_column(s, t, depth, rows_of(sight.entries), sight.loading),
        sight.location == seen[depth].location,
    ensures
        mirrors(t.view.columns, seen.update(depth, sight)),
{
}

/// What an event does to all that is told apart here.
spec fn event_fits(s: Scene, t: Scene, event: EventView, seen: Seq<Sight>) -> bool {
    &&& mirrors(t.view.columns, observed(seen, event))
    &&& t.browser.columns == s.browser.columns
    &&& t.view.behavior == s.view.behavior
    &&& peek_is_bounded(s.view) ==> peek_is_bounded(t.view)
}

proof fn lemma_column_events(s: Scene, event: EventView, seen: Seq<Sight>)
    requires
        mirrors(s.view.columns, seen),
        about_column(event),
    ensures
        event_fits(s, handled(s, event), event, seen),
{
    let t = handled(s, event);
    match event {
        EventView::EntriesInserted { depth, insertions } => {
            if s.has_column(depth) {
                lemma_entries_inserted(s, depth, insertions, seen[depth].entries);
                lemma_mirror_column(
                    s,
                    t,
                    seen,
                    depth,
                    Sight {
                        entries: with_insertions(seen[depth].entries, insertions),
                        ..seen[depth]
                    },
                );
            }
        },
        EventView::EntriesReplaced { depth, entries } => {
            if s.has_column(depth) {
                lemma_entries_replaced(s, depth, entries);
                lemma_mirror_column(s, t, seen, depth, Sight { entries, ..seen[depth] });
            }
        },
        EventView::EntriesSpliced { depth, splices, selected } => {
            if s.has_column(depth) {
                lemma_entries_spliced(s, depth, splices, selected, seen[depth].entries);
                lemma_mirror_column(
                    s,
                    t,
                    seen,
                    depth,
                    Sight { entries: with_splices(seen[depth].entries, splices), ..seen[depth] },
                );
            }
        },
        EventView::ColumnReloaded { depth } => {
            if s.has_column(depth) {
                lemma_column_reloaded(s, depth);
                lemma_mirror_column(
                    s,
                    t,
                    seen,
                    depth,
                    Sight { entries: Seq::empty(), loading: true, ..seen[depth] },
                );
            }
        },
        EventView::LoadFinished { depth } => {
            if s.has_column(depth) {
                lemma_load_ended(s, depth, Seq::empty());
                lemma_mirror_column(s, t, seen, depth, Sight { loading: false, ..seen[depth] });
            }
        },
        EventView::LoadFailed { depth, message } => {
            if s.has_column(depth) {
                lemma_load_ended(s, depth, message);
                lemma_mirror_column(s, t, seen, depth, Sight { loading: false, ..seen[depth] });
            }
        },
        _ => {},
    }
}

/// Whether an event is about the entries of a column or its listing.
spec fn about_column(event: EventView) -> bool {
    match event {
        EventView::EntriesInserted { .. } => true,
        EventView::EntriesReplaced { .. } => true,
        EventView::EntriesSpliced { .. } => true,
        EventView::ColumnReloaded { .. } => true,
        EventView::LoadFinished { .. } => true,
        EventView::LoadFailed { .. } => true,
        _ => false,
    }
}

/// The columns after an event that is not about the entries of one.
spec fn columns_after(columns: Seq<ColumnScreen>, event: EventView) -> Seq<ColumnScreen> {
    match event {
        EventView::Reset => columns.take(0),
        EventView::ColumnsTruncated { len } => if 0 <= len < columns.len() {
            columns.take(len)
        } else {
            columns
        },
        EventView::ColumnAdded { location, .. } => columns.push(fresh_column(location)),
        _ => columns,
    }
}

proof fn lemma_other_events(s: Scene, event: EventView)
    requires
        !about_column(event),
    ensures
        handled(s, event).view.columns == columns_after(s.view.columns, event),
        handled(s, event).browser.columns == s.browser.columns,
        handled(s, event).view.behavior == s.view.behavior,
        peek_is_bounded(s.view) ==> peek_is_bounded(handled(s, event).view),
{
    match event {
        EventView::Reset => {
            lemma_truncate(s, 0);
            assert(truncate(s, 0).view.columns =~= s.view.columns.take(0));
        },
        EventView::ColumnsTruncated { len } => {
            lemma_truncate(s, len);
            let t = truncate(s, len);
            lemma_set_location(t, LocationView::Uri(Seq::empty()));
        },
        EventView::ColumnAdded { depth, location } => {
            lemma_set_location(s, location);
            let t = set_location(s, location).act(ViewActionView::ClearLocationError);
            lemma_append_column(t, depth, location);
        },
        EventView::PeekStarted { location } => {
            lemma_append_peek(s, location);
        },
        EventView::PeekEntriesAdded { entries } => {
            if s.view.peek is Some {
                lemma_peek_handlers(s, entries, Seq::empty());
            }
        },
        EventView::PeekFinished => {
            if s.view.peek is Some {
                lemma_peek_handlers(s, Seq::empty(), Seq::empty());
            }
        },
        EventView::PeekFailed { message } => {
            if s.view.peek is Some {
                lemma_peek_handlers(s, Seq::empty(), message);
            }
        },
        EventView::PeekClosed => {
            lemma_close_peek(s);
        },
        EventView::SelectionSetChanged { depth, positions, focused } => {
            lemma_selection_shown(s, depth, positions, focused);
        },
        EventView::FocusChanged { depth, position } => {
            lemma_focus(s, depth, position);
        },
        EventView::RenameCompleted => {
            lemma_cancel_rename(s);
            lemma_focus(cancel_rename(s), 0, None);
        },
        _ => {},
    }
}

proof fn lemma_handle(s: Scene, event: EventView, seen: Seq<Sight>)
    requires
        mirrors(s.view.columns, seen),
    ensures
        event_fits(s, handle(s, event), event, seen),
{
    if about_column(event) {
        lemma_column_events(s, event, seen);
    } else {
        lemma_other_events(s, event);
        assert(rows_of(Seq::empty()) =~= Seq::empty());
    }
    lemma_refresh(handled(s, event));
}

proof fn lemma_observed_first(seen: Seq<Sight>, events: Seq<EventView>)
    requires
        events.len() > 0,
    ensures
        observed_all(seen, events) == observed_all(
            observed(seen, events[0]),
            events.drop_first(),
        ),
    decreases events.len(),
{
    if events.len() == 1 {
        assert(events.drop_last() =~= Seq::empty());
        assert(events.drop_first() =~= Seq::empty());
        assert(observed_all(seen, events.drop_last()) == seen);
        assert(observed_all(observed(seen, events[0]), events.drop_first()) == observed(
            seen,
            events[0],
        ));
    } else {
        lemma_observed_first(seen, events.drop_last());
        assert(events.drop_last().drop_first() =~= events.drop_first().drop_last());
        assert(events.drop_last()[0] == events[0]);
        assert(events.drop_first().last() == events.last());
    }
}

proof fn lemma_handle_all(s: Scene, events: Seq<EventView>, seen: Seq<Sight>)
    requires
        mirrors(s.view.columns, seen),
    ensures
        mirrors(handle_all(s, events).view.columns, observed_all(seen, events)),
        handle_all(s, events).browser.columns == s.browser.columns,
        handle_all(s, events).view.behavior == s.view.behavior,
        peek_is_bounded(s.view) ==> peek_is_bounded(handle_all(s, events).view),
    decreases events.len(),
{
    if events.len() > 0 {
        lemma_handle(s, events[0], seen);
        lemma_observed_first(seen, events);
        lemma_handle_all(handle(s, events[0]), events.drop_first(), observed(seen, events[0]));
    }
}

/// A peek shows no more rows than it may. It may always show one.
pub open spec fn peek_is_bounded(view: ViewState) -> bool {
    view.peek matches Some(peek) ==> peek.rows.len() <= view.behavior.item_limit || peek.rows.len()
        <= 1
}

/// The screen shows what the browser holds: where it does so before a command, it does so once the
/// outcome of the command is shown. Each column shows its place, one row for each entry in their
/// order, and a sign of work while its listing runs. No peek shows more rows than it may.
pub proof fn lemma_screen_mirrors_the_browser(s: Scene, command: Command)
    requires
        mirrors(s.view.columns, sight_of(s.browser.columns)),
        peek_is_bounded(s.view),
    ensures
        ({
            let t = show(s, run(s.browser, command));
            &&& mirrors(t.view.columns, sight_of(t.browser.columns))
            &&& peek_is_bounded(t.view)
            &&& sight_of(t.browser.columns) == sight_of(run(s.browser, command).browser.columns)
        }),
{
    let f = run(s.browser, command);
    lemma_events_tell_everything(s.browser, command);
    let u = Scene { browser: f.browser, requests: s.requests + f.requests, ..s };
    lemma_handle_all(u, f.events, sight_of(s.browser.columns));
}

/// A column is added behind the others, which stay as they are. It is empty, is being loaded, and
/// has its width from the start. What comes after that moves it into sight.
pub proof fn lemma_new_column(s: Scene, location: LocationView)
    ensures
        ({
            let n = s.view.columns.len() as int;
            let t = append_column(s, n, location);
            let column = t.view.columns[n];
            let added = ViewActionView::AddColumn {
                depth: n,
                location,
                heading: name_text(location),
                closable: n > 0,
                width: COLUMN_WIDTH as int,
                placeholder: placeholder(0),
            };
            &&& t.view.columns.len() == n + 1
            &&& t.view.columns.take(n) == s.view.columns
            &&& column.location == location
            &&& column.rows.len() == 0 && column.count == 0 && column.busy
            &&& column.presentation.page == Page::Loading
            &&& t.actions.len() > s.actions.len()
            &&& t.actions.take(s.actions.len() as int) == s.actions
            &&& t.actions[s.actions.len() as int] == added
            &&& t.actions.last() == (ViewActionView::RevealColumn { depth: n })
        }),
{
    let n = s.view.columns.len() as int;
    lemma_append_column(s, n, location);
    reveal(append_column);
    reveal(refresh_active_path_rows);
    let added = s.with(
        ViewState { columns: s.view.columns.push(fresh_column(location)), ..s.view },
    ).act(
        ViewActionView::AddColumn {
            depth: n,
            location,
            heading: name_text(location),
            closable: n > 0,
            width: COLUMN_WIDTH as int,
            placeholder: placeholder(0),
        },
    );
    lemma_marks_come_after(added, n + 1);
    let marked = refresh_active_path_rows(added);
    assert(marked == mark_first(added, added.view.columns.len() as int));
    let t = append_column(s, n, location);
    assert(t.view.columns.take(n) =~= s.view.columns);
    assert forall|i: int| 0 <= i <= s.actions.len() implies t.actions[i] == added.actions[i] by {
        assert(marked.actions.take(added.actions.len() as int)[i] == marked.actions[i]);
    }
    assert(t.actions.take(s.actions.len() as int) =~= s.actions);
}

proof fn lemma_marks_come_after(s: Scene, count: int)
    ensures
        mark_first(s, count).actions.len() >= s.actions.len(),
        mark_first(s, count).actions.take(s.actions.len() as int) == s.actions,
    decreases count,
{
    if count > 0 {
        lemma_marks_come_after(s, count - 1);
        let before = mark_first(s, count - 1);
        assert(mark_first(s, count).actions.take(s.actions.len() as int)
            =~= before.actions.take(s.actions.len() as int));
    } else {
        assert(s.actions.take(s.actions.len() as int) =~= s.actions);
    }
}

/// A screen with nothing on it shows a browser that has opened nothing.
pub proof fn lemma_blank_screen(home: LocationView, behavior: PeekBehavior)
    ensures
        counts_rows(blank(home, behavior).columns),
        mirrors(blank(home, behavior).columns, sight_of(state::initial().columns)),
        peek_is_bounded(blank(home, behavior)),
{
}

/// The selection is the matter of the browser: taking it over changes nothing that columns show.
pub proof fn lemma_selection_keeps_the_mirror(
    s: Scene,
    depth: int,
    positions: Seq<int>,
    from: int,
    count: int,
)
    requires
        mirrors(s.view.columns, sight_of(s.browser.columns)),
    ensures
        ({
            let t = gestures::selection_changed(s, depth, positions, from, count);
            mirrors(t.view.columns, sight_of(t.browser.columns))
        }),
{
    if s.has_column(depth) {
        let t = gestures::selection_changed(s, depth, positions, from, count);
        assert(sight_of(t.browser.columns) =~= sight_of(s.browser.columns));
    }
}

/// Ending a peek on the screen is showing that the browser ends it, and giving the last column the
/// focus is showing that the browser does so.
pub proof fn lemma_shortcuts_are_commands(s: Scene)
    ensures
        end_peek(s) == show(s, state::end_peek(state::start(s.browser))),
        focus_active(s) == show(s, state::focus_active(s.browser)),
{
    reveal(end_peek);
    reveal(focus_active);
    let f = state::end_peek(state::start(s.browser));
    if s.browser.peek is Some {
        assert(f.events =~= seq![EventView::PeekClosed]);
        assert(f.events.drop_first() =~= Seq::empty());
        reveal_with_fuel(handle_all, 2);
    } else {
        assert(f.events =~= Seq::empty());
    }
    let g = state::focus_active(s.browser);
    assert(s.requests + g.requests =~= s.requests);
    assert((Scene { browser: g.browser, requests: s.requests + g.requests, ..s }) =~= s);
    if g.events.len() > 0 {
        assert(g.events.drop_first() =~= Seq::empty());
        reveal_with_fuel(handle_all, 2);
    }
}

// Rows.

/// The row that is marked in a column stands for the place that the next column shows. Where the
/// filter hides it, no row is marked.
pub proof fn lemma_marked_row(s: Scene, depth: int)
    requires
        s.has_column(depth),
    ensures
        active_row(s, depth) matches Some(row) ==> {
            &&& 0 <= depth && depth + 1 < s.browser.columns.len()
            &&& s.view.columns[depth].source(row) matches Some(position)
                && s.browser.columns[depth].entries[position].location.key()
                == s.browser.columns[depth + 1].location.key()
        },
{
    let column = s.view.columns[depth];
    lemma_filter_positions(column.rows, column.query);
    if let Some(position) = state::active_child_position(s.browser, depth) {
        lemma_entry_position(
            s.browser.columns[depth].entries,
            s.browser.columns[depth + 1].location.key(),
            0,
        );
        if let Some(row) = column.shown(position) {
            assert(filtered_position(column.rows, column.query, position) == Some(row));
            assert(column.source(row) == Some(position));
        }
    }
}

/// Where the screen shows what the browser holds, each row of a filtered list shows an entry, and
/// shows it by its name.
pub proof fn lemma_rows_show_entries(s: Scene, depth: int, row: int)
    requires
        mirrors(s.view.columns, sight_of(s.browser.columns)),
        s.has_column(depth),
        s.view.columns[depth].source(row) is Some,
    ensures
        gestures::entry_behind(s, depth, row) matches Some((position, entry))
            && s.view.columns[depth].source(row) == Some(position)
            && s.view.columns[depth].rows[position] == row_of(entry)
            && row_name(s.view.columns[depth].rows[position]) == entry.display_name,
{
    let column = s.view.columns[depth];
    lemma_shown_below(column.rows, column.query, column.rows.len() as int);
    let position = column.source(row)->0;
    let entries = s.browser.columns[depth].entries;
    assert(sight_of(s.browser.columns)[depth].entries == entries);
    assert(column.rows == rows_of(entries));
    assert(0 <= position < entries.len());
    lemma_row_keeps_the_entry(entries[position]);
}

// Loading.

/// The ways in which a listing ends are told apart: a column with entries shows them, one without
/// entries says so, and one that cannot be read says why and offers to try again.
pub proof fn lemma_ends_of_loading(s: Scene, depth: int, message: Seq<char>)
    requires
        s.has_column(depth),
    ensures
        ({
            let column = s.view.columns[depth];
            let done = load_finished(s, depth).view.columns[depth];
            let broken = load_failed(s, depth, message).view.columns[depth];
            &&& !done.busy && !broken.busy
            &&& done.rows == column.rows && broken.rows == column.rows
            &&& column.count > 0 ==> done.presentation.page == Page::Content
            &&& column.count == 0 ==> done.presentation.page == Page::Feedback
                && !done.presentation.error && !done.presentation.retry_shown
            &&& broken.presentation.page == Page::Feedback && broken.presentation.error
            &&& broken.presentation.message == unreadable(message)
            &&& broken.presentation.retry_shown == column.presentation.can_retry
        }),
{
    reveal(load_finished);
    reveal(load_failed);
}

/// Filling a peek in two parts shows what filling it at once does.
pub proof fn lemma_peek_filled_in_parts(s: Scene, a: Seq<FileEntryView>, b: Seq<FileEntryView>)
    requires
        s.view.peek is Some,
    ensures
        append_entries(append_entries(s, a), b).view == append_entries(s, a + b).view,
        append_entries(append_entries(s, a), b).browser == append_entries(s, a + b).browser,
{
    lemma_appending_in_parts(s.view.peek->0.rows, a, b, Some(s.view.behavior.item_limit as int));
}

// Editing.

/// A name and a new folder are never edited at once: to begin with the one ends the other.
pub proof fn lemma_one_thing_is_edited(
    s: Scene,
    drawn: Seq<Seq<int>>,
    depth: int,
    location: LocationView,
)
    ensures
        gestures::begin_rename(s, drawn).view.new_folder is None,
        gestures::begin_new_folder(s, depth, location).view.renaming is None,
        gestures::begin_new_folder(s, depth, location).view.new_folder is Some <==> s.has_column(
            depth,
        ),
{
    lemma_cancel_rename(cancel_new_folder(s));
}

/// A rename that cannot be done leaves the name to be edited further. One that is done ends the
/// editing.
pub proof fn lemma_ends_of_renaming(s: Scene, message: Seq<char>)
    ensures
        handle(s, EventView::RenameFailed { message }).view.renaming == s.view.renaming,
        handle(s, EventView::RenameCompleted).view.renaming is None,
{
    lemma_refresh(handled(s, EventView::RenameFailed { message }));
    lemma_cancel_rename(s);
    lemma_focus(cancel_rename(s), 0, None);
    lemma_refresh(handled(s, EventView::RenameCompleted));
}

} // verus!
