//! What holds of the numbers of entries on the screen.
use vstd::prelude::*;

use super::{
    about_column, lemma_column_reloaded, lemma_entries_replaced, lemma_found_column, lemma_handle,
    lemma_other_events, lemma_refresh, mirrors, observed, sight_of, Sight,
};
use crate::entry::FileEntryView;
use crate::event::{EventView, SpliceView};
use crate::labels::placeholder;
use crate::rows::rows_of;
use crate::laws::{lemma_entry_position, lemma_place_is_merge, run, Command};
use crate::model::LocationView;
use crate::names::LocationValidationError;
use crate::order::{lemma_merged, merged, sorted, SortPreference};
use crate::screen::{
    column_reloaded, count_after, entries_inserted, entries_replaced, entries_spliced, handle,
    handle_all, handled, insert_runs, load_failed, load_finished, present, replace_ranges,
    run_total, show, splice_rows, ColumnScreen, Scene,
};
use crate::sorting::{leading_run, merge_insertions, InsertionView};
use crate::state;
use crate::state::{
    entry_position, focus_followed, followed, place, put_in, take_out, upsert, BrowserState, Change,
    ChangeView, ColumnState, Flow,
};

verus! {

/// Whether each column counts as many entries as it has rows, and names that number where its filter
/// is empty.
pub open spec fn counts_rows(columns: Seq<ColumnScreen>) -> bool {
    forall|d: int|
        0 <= d < columns.len() ==> {
            &&& (#[trigger] columns[d]).count == columns[d].rows.len()
            &&& columns[d].placeholder == placeholder(columns[d].rows.len())
        }
}

/// Whether the columns hold no more entries than can be counted.
pub open spec fn countable(columns: Seq<ColumnState>) -> bool {
    forall|d: int|
        0 <= d < columns.len() ==> (#[trigger] columns[d]).entries.len() <= usize::MAX
}

/// Whether runs can be put in one after the other where there are `len` rows, with never more rows
/// than can be counted.
pub open spec fn insertions_fit(len: int, insertions: Seq<InsertionView>) -> bool
    decreases insertions.len(),
{
    &&& len <= usize::MAX
    &&& insertions.len() > 0 ==> {
        &&& 0 <= insertions[0].position <= len
        &&& insertions_fit(len + insertions[0].entries.len(), insertions.drop_first())
    }
}

/// How many rows there are once ranges that are there have been replaced.
pub open spec fn rows_after(len: int, splices: Seq<SpliceView>) -> int
    decreases splices.len(),
{
    if splices.len() == 0 {
        len
    } else {
        rows_after(len, splices.drop_last()) - splices.last().removed + splices.last().entries.len()
    }
}

/// Whether ranges can be replaced one after the other where there are `len` rows, with never more
/// rows than can be counted.
pub open spec fn splices_fit(len: int, splices: Seq<SpliceView>) -> bool
    decreases splices.len(),
{
    splices.len() > 0 ==> {
        let last = splices.last();
        &&& splices_fit(len, splices.drop_last())
        &&& 0 <= last.position
        &&& 0 <= last.removed
        &&& last.position + last.removed <= rows_after(len, splices.drop_last())
        &&& rows_after(len, splices) <= usize::MAX
    }
}

/// Whether the ranges that an event names are there, one after the other, in columns with so many
/// rows.
pub open spec fn in_bounds(lens: Seq<nat>, event: EventView) -> bool {
    match event {
        EventView::EntriesInserted { depth, insertions } => 0 <= depth < lens.len()
            ==> insertions_fit(lens[depth] as int, insertions),
        EventView::EntriesSpliced { depth, splices, .. } => 0 <= depth < lens.len() ==> splices_fit(
            lens[depth] as int,
            splices,
        ),
        _ => true,
    }
}

/// How many rows each column has.
pub open spec fn row_counts(columns: Seq<ColumnScreen>) -> Seq<nat> {
    columns.map_values(|column: ColumnScreen| column.rows.len())
}

spec fn entry_counts(seen: Seq<Sight>) -> Seq<nat> {
    seen.map_values(|sight: Sight| sight.entries.len())
}

spec fn all_in_bounds(seen: Seq<Sight>, events: Seq<EventView>) -> bool
    decreases events.len(),
{
    events.len() > 0 ==> in_bounds(entry_counts(seen), events[0]) && all_in_bounds(
        observed(seen, events[0]),
        events.drop_first(),
    )
}

/// Whether an event names no ranges.
spec fn plain(event: EventView) -> bool {
    !(event is EntriesInserted) && !(event is EntriesSpliced)
}

#[verifier::opaque]
spec fn all_plain(events: Seq<EventView>) -> bool {
    forall|i: int| 0 <= i < events.len() ==> plain(#[trigger] events[i])
}

proof fn lemma_plain_in_bounds(seen: Seq<Sight>, events: Seq<EventView>)
    requires
        all_plain(events),
    ensures
        all_in_bounds(seen, events),
    decreases events.len(),
{
    reveal(all_plain);
    if events.len() > 0 {
        assert(plain(events[0]));
        lemma_plain_in_bounds(observed(seen, events[0]), events.drop_first());
    }
}

proof fn lemma_one_event_in_bounds(seen: Seq<Sight>, event: EventView)
    requires
        in_bounds(entry_counts(seen), event),
    ensures
        all_in_bounds(seen, seq![event]),
{
    assert(seq![event].drop_first() =~= Seq::empty());
    assert(all_in_bounds(observed(seen, event), Seq::empty()));
}

proof fn lemma_open_columns_plain(f: Flow, places: Seq<LocationView>)
    requires
        all_plain(f.events),
    ensures
        all_plain(state::open_columns(f, places).events),
    decreases places.len(),
{
    reveal(all_plain);
    if places.len() > 0 {
        lemma_open_columns_plain(f, places.drop_last());
    }
}

proof fn lemma_reload_first_plain(f: Flow, count: int)
    requires
        all_plain(f.events),
    ensures
        all_plain(state::reload_first(f, count).events),
    decreases count,
{
    reveal(all_plain);
    if count > 0 {
        lemma_reload_first_plain(f, count - 1);
    }
}

proof fn lemma_end_peek_plain(f: Flow)
    requires
        all_plain(f.events),
    ensures
        all_plain(state::end_peek(f).events),
        all_plain(state::drop_peek(f).events),
{
    reveal(all_plain);
}

proof fn lemma_moves_are_plain(
    b: BrowserState,
    depth: int,
    location: LocationView,
    verdict: Result<(), LocationValidationError>,
)
    ensures
        all_plain(state::navigate(b, location).events),
        all_plain(state::navigate_typed(b, location, verdict).events),
        all_plain(state::descend(b, depth, location, verdict).events),
        all_plain(state::close_column(b, depth).events),
        all_plain(state::begin_peek(b, depth, location).events),
{
    reveal(all_plain);
    lemma_end_peek_plain(state::start(b));
    lemma_end_peek_plain(state::start(state::remember(b)));
}

proof fn lemma_loads_are_plain(b: BrowserState, id: int, message: Seq<char>)
    ensures
        all_plain(state::load_finished(b, id).events),
        all_plain(state::load_failed(b, id, message).events),
{
    reveal(all_plain);
}

proof fn lemma_resort_is_plain(b: BrowserState, depth: int, sort: SortPreference)
    ensures
        all_plain(state::resort(b, depth, sort).events),
{
    reveal(all_plain);
}

proof fn lemma_rows_are_plain(b: BrowserState, depth: int, position: int)
    ensures
        all_plain(state::select(b, depth, position).events),
        all_plain(state::preview(b, depth, position).events),
        all_plain(state::activate(b, depth, position).events),
{
    reveal(all_plain);
}

proof fn lemma_operations_are_plain(b: BrowserState, command: Command)
    requires
        match command {
            Command::Rename { .. } => true,
            Command::CreateDirectory { .. } => true,
            Command::Transfer { .. } => true,
            Command::Delete { .. } => true,
            Command::EmptyTrash => true,
            Command::OperationEnded { .. } => true,
            _ => false,
        },
    ensures
        all_plain(run(b, command).events),
{
    reveal(all_plain);
}

proof fn lemma_start_is_plain(b: BrowserState)
    ensures
        all_plain(state::start(b).events),
{
    reveal(all_plain);
}

proof fn lemma_back_is_plain(b: BrowserState)
    ensures
        all_plain(state::back(b).events),
{
    reveal(all_plain);
    if b.history.len() > 0 {
        let c = BrowserState { history: b.history.drop_last(), ..b };
        lemma_end_peek_plain(state::start(c));
        let f = state::drop_peek(state::start(c));
        lemma_open_columns_plain(
            state::close_from(f, 0).tell(EventView::Reset),
            b.history.last(),
        );
    }
}

proof fn lemma_reloads_are_plain(b: BrowserState, depth: int)
    ensures
        all_plain(state::retry_column(b, depth).events),
        all_plain(state::toggle_hidden(b).events),
{
    reveal(all_plain);
    lemma_reload_first_plain(
        state::start(BrowserState { include_hidden: !b.include_hidden, ..b }),
        b.columns.len() as int,
    );
}

proof fn lemma_focus_is_plain(b: BrowserState)
    ensures
        all_plain(state::focus_active(b).events),
{
    reveal(all_plain);
}

proof fn lemma_commands_are_plain(b: BrowserState, command: Command)
    requires
        !(command is BatchArrived),
        !(command is DirectoryChanged),
    ensures
        all_plain(run(b, command).events),
{
    lemma_start_is_plain(b);
    match command {
        Command::Navigate { location } => {
            lemma_moves_are_plain(b, 0, location, Ok(()));
        },
        Command::NavigateTyped { location, verdict } => {
            lemma_moves_are_plain(b, 0, location, verdict);
        },
        Command::Back => {
            lemma_back_is_plain(b);
        },
        Command::Descend { depth, location, verdict } => {
            lemma_moves_are_plain(b, depth, location, verdict);
        },
        Command::CloseColumn { depth } => {
            lemma_moves_are_plain(b, depth, LocationView::Uri(Seq::empty()), Ok(()));
        },
        Command::Escape => {
            lemma_end_peek_plain(state::start(b));
            lemma_moves_are_plain(
                b,
                b.columns.len() - 1,
                LocationView::Uri(Seq::empty()),
                Ok(()),
            );
        },
        Command::BeginPeek { origin, location } => {
            lemma_moves_are_plain(b, origin, location, Ok(()));
        },
        Command::ClosePeek => {
            lemma_end_peek_plain(state::start(b));
        },
        Command::CommitPeek => {
            lemma_end_peek_plain(state::start(b));
        },
        Command::RetryColumn { depth } => {
            lemma_reloads_are_plain(b, depth);
        },
        Command::ToggleHidden => {
            lemma_reloads_are_plain(b, 0);
        },
        Command::LoadFinished { id } => {
            lemma_loads_are_plain(b, id, Seq::empty());
        },
        Command::LoadFailed { id, message } => {
            lemma_loads_are_plain(b, id, message);
        },
        Command::SetSortKey { depth, key } => {
            lemma_resort_is_plain(b, depth, SortPreference { key, ..b.columns[depth].sort });
        },
        Command::SetSortDirection { depth, direction } => {
            lemma_resort_is_plain(b, depth, SortPreference { direction, ..b.columns[depth].sort });
        },
        Command::SetFoldersFirst { depth, folders_first } => {
            lemma_resort_is_plain(
                b,
                depth,
                SortPreference { folders_first, ..b.columns[depth].sort },
            );
        },
        Command::SetSelection { depth, positions, focused } => {
            lemma_start_is_plain(state::set_selection(b, depth, positions, focused));
        },
        Command::Select { depth, position } => {
            lemma_rows_are_plain(b, depth, position);
        },
        Command::Preview { depth, position } => {
            lemma_rows_are_plain(b, depth, position);
        },
        Command::Activate { depth, position } => {
            lemma_rows_are_plain(b, depth, position);
        },
        Command::ActivateFocused => {
            if b.columns.len() > 0 {
                let depth = b.columns.len() - 1;
                if let Some(position) = b.columns[depth].focused_position() {
                    lemma_rows_are_plain(b, depth, position);
                }
            }
        },
        Command::MoveSelection { delta } => {
            if b.columns.len() > 0 {
                let depth = b.columns.len() - 1;
                lemma_rows_are_plain(b, depth, state::moved_position(b.columns[depth], delta));
            }
        },
        Command::FocusActive => {
            lemma_focus_is_plain(b);
        },
        _ => {
            lemma_operations_are_plain(b, command);
        },
    }
}

proof fn lemma_run_total_front(first: InsertionView, rest: Seq<InsertionView>)
    ensures
        run_total(seq![first] + rest) == first.entries.len() + run_total(rest),
    decreases rest.len(),
{
    let all = seq![first] + rest;
    if rest.len() == 0 {
        assert(all.drop_last() =~= Seq::empty());
        assert(run_total(all.drop_last()) == 0);
    } else {
        lemma_run_total_front(first, rest.drop_last());
        assert(all.drop_last() =~= seq![first] + rest.drop_last());
        assert(all.last() == rest.last());
    }
}

/// The runs of a batch are put in where there are rows.
proof fn lemma_runs_fit(
    sort: SortPreference,
    entries: Seq<FileEntryView>,
    batch: Seq<FileEntryView>,
    at: int,
)
    requires
        0 <= at,
        at + entries.len() + batch.len() <= usize::MAX,
    ensures
        insertions_fit(at + entries.len(), merge_insertions(sort, entries, batch, at)),
    decreases entries.len() + batch.len(),
{
    let insertions = merge_insertions(sort, entries, batch, at);
    if batch.len() > 0 {
        if entries.len() == 0 {
            assert(insertions.drop_first() =~= Seq::empty());
            assert(insertions_fit((at + batch.len()) as int, insertions.drop_first()));
        } else {
            let run = leading_run(sort, batch, entries[0]);
            if 0 < run <= batch.len() {
                lemma_runs_fit(sort, entries, batch.skip(run), at + run);
                assert(insertions.drop_first() =~= merge_insertions(
                    sort,
                    entries,
                    batch.skip(run),
                    at + run,
                ));
            } else {
                lemma_runs_fit(sort, entries.drop_first(), batch, at + 1);
            }
        }
    }
}

/// Whether the ranges of a change are there, and lead to the number of entries in the column.
spec fn counts_change(start: int, c: Change) -> bool {
    splices_fit(start, c.splices) && rows_after(start, c.splices) == c.column.entries.len()
}

proof fn lemma_take_out_counts(start: int, c: Change, at: int)
    requires
        counts_change(start, c),
        0 <= at < c.column.entries.len() <= usize::MAX,
    ensures
        counts_change(start, take_out(c, at)),
{
    assert(take_out(c, at).splices.drop_last() =~= c.splices);
}

proof fn lemma_put_in_counts(start: int, c: Change, entry: FileEntryView)
    requires
        counts_change(start, c),
        c.column.entries.len() < usize::MAX,
    ensures
        counts_change(start, put_in(c, entry)),
{
    lemma_place_is_merge(c.column.sort, c.column.entries, entry);
    assert(put_in(c, entry).splices.drop_last() =~= c.splices);
}

proof fn lemma_upsert_counts(start: int, c: Change, entry: FileEntryView)
    requires
        counts_change(start, c),
        c.column.entries.len() <= usize::MAX,
        upsert(c, entry).column.entries.len() <= usize::MAX,
    ensures
        counts_change(start, upsert(c, entry)),
{
    lemma_entry_position(c.column.entries, entry.location.key(), 0);
    match entry_position(c.column.entries, entry.location) {
        Some(at) => {
            if place(c.column.sort, c.column.entries.remove(at), entry) == at {
                assert(upsert(c, entry).splices.drop_last() =~= c.splices);
            } else {
                lemma_take_out_counts(start, c, at);
                lemma_put_in_counts(start, take_out(c, at), entry);
            }
        },
        None => {
            lemma_place_is_merge(c.column.sort, c.column.entries, entry);
            lemma_put_in_counts(start, c, entry);
        },
    }
}

proof fn lemma_change_counts(column: ColumnState, change: ChangeView)
    requires
        column.entries.len() <= usize::MAX,
        state::changed(column, change).column.entries.len() <= usize::MAX,
    ensures
        counts_change(column.entries.len() as int, state::changed(column, change)),
{
    let start = column.entries.len() as int;
    let c = Change { column, splices: Seq::empty() };
    match change {
        ChangeView::Upsert(entry) => {
            lemma_upsert_counts(start, c, entry);
        },
        ChangeView::Removed(from) => {
            lemma_entry_position(column.entries, from.key(), 0);
            if let Some(at) = entry_position(column.entries, from) {
                lemma_take_out_counts(start, c, at);
            }
        },
        ChangeView::Moved { from, entry } => {
            lemma_entry_position(column.entries, from.key(), 0);
            match entry_position(column.entries, from) {
                Some(at) => {
                    lemma_take_out_counts(start, c, at);
                    let out = take_out(c, at);
                    let kept = Change {
                        column: ColumnState {
                            selected: followed(column.selected, from.key(), entry.location),
                            focused: focus_followed(column.focused, from.key(), entry.location),
                            ..out.column
                        },
                        ..out
                    };
                    lemma_upsert_counts(start, kept, entry);
                },
                None => {
                    lemma_upsert_counts(start, c, entry);
                },
            }
        },
        ChangeView::Rescan => {},
    }
}

proof fn lemma_events_in_bounds(b: BrowserState, command: Command)
    requires
        countable(b.columns),
        countable(run(b, command).browser.columns),
    ensures
        all_in_bounds(sight_of(b.columns), run(b, command).events),
{
    let seen = sight_of(b.columns);
    let f = run(b, command);
    match command {
        Command::BatchArrived { id, batch } => {
            lemma_found_column(b.columns, id, 0);
            match state::loading_column(b, id) {
                Some(depth) => {
                    let column = b.columns[depth];
                    let arrived = sorted(column.sort, batch);
                    lemma_merged(column.sort, column.entries, arrived);
                    assert(f.browser.columns[depth].entries == merged(
                        column.sort,
                        column.entries,
                        arrived,
                    ));
                    lemma_runs_fit(column.sort, column.entries, arrived, 0);
                    assert(entry_counts(seen)[depth] == column.entries.len());
                    assert(f.events =~= seq![f.events[0]]);
                    lemma_one_event_in_bounds(seen, f.events[0]);
                },
                None => {
                    assert(all_plain(f.events)) by {
                        reveal(all_plain);
                    }
                    lemma_plain_in_bounds(seen, f.events);
                },
            }
        },
        Command::DirectoryChanged { id, change } => {
            lemma_found_column(b.columns, id, 0);
            match state::column_of(b.columns, id) {
                Some(depth) => {
                    let column = b.columns[depth];
                    if change is Rescan || column.loading {
                        assert(all_plain(f.events)) by {
                            reveal(all_plain);
                        }
                        lemma_plain_in_bounds(seen, f.events);
                    } else {
                        let done = state::changed(column, change);
                        assert(f.browser.columns[depth] == done.column);
                        lemma_change_counts(column, change);
                        assert(entry_counts(seen)[depth] == column.entries.len());
                        if done.splices.len() > 0 {
                            assert(f.events =~= seq![f.events[0]]);
                            lemma_one_event_in_bounds(seen, f.events[0]);
                        }
                    }
                },
                None => {},
            }
        },
        _ => {
            lemma_commands_are_plain(b, command);
            lemma_plain_in_bounds(seen, f.events);
        },
    }
}

/// Whether a column is as it was but for its rows.
spec fn keeps_count(s: Scene, t: Scene, depth: int, len: int) -> bool {
    &&& t.view.columns.len() == s.view.columns.len()
    &&& forall|d: int|
        0 <= d < s.view.columns.len() && d != depth ==> #[trigger] t.view.columns[d]
            == s.view.columns[d]
    &&& t.view.columns[depth].rows.len() == len
    &&& t.view.columns[depth].count == s.view.columns[depth].count
    &&& t.view.columns[depth].placeholder == s.view.columns[depth].placeholder
}

proof fn lemma_insert_runs_counts(s: Scene, depth: int, insertions: Seq<InsertionView>)
    requires
        s.has_column(depth),
        insertions_fit(s.view.columns[depth].rows.len() as int, insertions),
    ensures
        keeps_count(
            s,
            insert_runs(s, depth, insertions),
            depth,
            (s.view.columns[depth].rows.len() + run_total(insertions)) as int,
        ),
        s.view.columns[depth].rows.len() + run_total(insertions)
            <= usize::MAX,
    decreases insertions.len(),
{
    if insertions.len() > 0 {
        let first = insertions[0];
        let t = splice_rows(s, depth, first.position, 0, rows_of(first.entries));
        lemma_insert_runs_counts(t, depth, insertions.drop_first());
        assert(insertions =~= seq![first] + insertions.drop_first());
        lemma_run_total_front(first, insertions.drop_first());
    }
}

proof fn lemma_replace_ranges_counts(s: Scene, depth: int, splices: Seq<SpliceView>)
    requires
        s.has_column(depth),
        splices_fit(s.view.columns[depth].rows.len() as int, splices),
    ensures
        keeps_count(
            s,
            replace_ranges(s, depth, splices),
            depth,
            rows_after(s.view.columns[depth].rows.len() as int, splices),
        ),
        count_after(s.view.columns[depth].rows.len() as int, splices) == rows_after(
            s.view.columns[depth].rows.len() as int,
            splices,
        ),
    decreases splices.len(),
{
    if splices.len() > 0 {
        lemma_replace_ranges_counts(s, depth, splices.drop_last());
    }
}

proof fn lemma_count_column_events(s: Scene, event: EventView)
    requires
        counts_rows(s.view.columns),
        in_bounds(row_counts(s.view.columns), event),
        about_column(event),
    ensures
        counts_rows(handled(s, event).view.columns),
{
    match event {
        EventView::EntriesInserted { depth, insertions } => {
            if s.has_column(depth) {
                reveal(entries_inserted);
                assert(row_counts(s.view.columns)[depth] == s.view.columns[depth].rows.len());
                let shown = if run_total(insertions) > 0 {
                    present(s, depth, s.view.columns[depth].presentation.content())
                } else {
                    s
                };
                lemma_insert_runs_counts(shown, depth, insertions);
            }
        },
        EventView::EntriesReplaced { depth, entries } => {
            if s.has_column(depth) {
                lemma_entries_replaced(s, depth, entries);
                reveal(entries_replaced);
                assert(rows_of(entries).len() == entries.len());
            }
        },
        EventView::EntriesSpliced { depth, splices, selected } => {
            if s.has_column(depth) {
                reveal(entries_spliced);
                assert(row_counts(s.view.columns)[depth] == s.view.columns[depth].rows.len());
                lemma_replace_ranges_counts(s, depth, splices);
            }
        },
        EventView::ColumnReloaded { depth } => {
            if s.has_column(depth) {
                lemma_column_reloaded(s, depth);
                reveal(column_reloaded);
            }
        },
        EventView::LoadFinished { depth } => {
            if s.has_column(depth) {
                reveal(load_finished);
            }
        },
        EventView::LoadFailed { depth, message } => {
            if s.has_column(depth) {
                reveal(load_failed);
            }
        },
        _ => {},
    }
}

/// The screen counts its rows: where each column counts as many entries as it has rows, and names
/// that number, it does so after any event whose ranges are there.
pub proof fn lemma_events_keep_the_counts(s: Scene, event: EventView)
    requires
        counts_rows(s.view.columns),
        in_bounds(row_counts(s.view.columns), event),
    ensures
        counts_rows(handle(s, event).view.columns),
{
    if about_column(event) {
        lemma_count_column_events(s, event);
    } else {
        lemma_other_events(s, event);
    }
    lemma_refresh(handled(s, event));
}

proof fn lemma_count_handle_all(s: Scene, events: Seq<EventView>, seen: Seq<Sight>)
    requires
        mirrors(s.view.columns, seen),
        counts_rows(s.view.columns),
        all_in_bounds(seen, events),
    ensures
        counts_rows(handle_all(s, events).view.columns),
    decreases events.len(),
{
    if events.len() > 0 {
        lemma_handle(s, events[0], seen);
        assert(row_counts(s.view.columns) =~= entry_counts(seen));
        lemma_events_keep_the_counts(s, events[0]);
        lemma_count_handle_all(
            handle(s, events[0]),
            events.drop_first(),
            observed(seen, events[0]),
        );
    }
}

/// The screen counts what the browser holds: where each column counts as many entries as it has
/// rows before a command, it does so once the outcome of the command is shown.
pub proof fn lemma_screen_counts_the_rows(s: Scene, command: Command)
    requires
        mirrors(s.view.columns, sight_of(s.browser.columns)),
        counts_rows(s.view.columns),
        countable(s.browser.columns),
        countable(run(s.browser, command).browser.columns),
    ensures
        counts_rows(show(s, run(s.browser, command)).view.columns),
{
    let f = run(s.browser, command);
    lemma_events_in_bounds(s.browser, command);
    let u = Scene { browser: f.browser, requests: s.requests + f.requests, ..s };
    lemma_count_handle_all(u, f.events, sight_of(s.browser.columns));
}

} // verus!
