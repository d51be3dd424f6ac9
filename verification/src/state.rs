//! The state of the browser, and what each command does to it.
use vstd::prelude::*;

use crate::entry::FileEntryView;
use crate::event::{EventView, OperationEventView, RequestView, SpliceView};
use crate::model::{LocationKey, LocationView};
use crate::names::{location_error_text, rename_error_text, rename_verdict, LocationValidationError};
use crate::order::{
    default_sort, entry_order, merged, sorted, SortDirection, SortKey, SortPreference,
};
use crate::sorting::merge_insertions;

verus! {

/// A directory that is shown in a column.
#[verifier::ext_equal]
pub struct ColumnState {
    pub location: LocationView,
    pub entries: Seq<FileEntryView>,
    pub sort: SortPreference,
    /// The places that are selected.
    pub selected: Seq<LocationView>,
    /// The selected place that has the focus.
    pub focused: Option<LocationView>,
    /// The number of the listing that fills the column.
    pub id: int,
    /// Whether that listing is still running.
    pub loading: bool,
}

/// A directory that is looked into without being opened.
#[verifier::ext_equal]
pub struct PeekState {
    pub origin: int,
    pub location: LocationView,
    pub id: int,
    pub loading: bool,
}

/// Everything that the browser knows.
#[verifier::ext_equal]
pub struct BrowserState {
    pub columns: Seq<ColumnState>,
    /// The columns that were open before each navigation, the last navigation last.
    pub history: Seq<Seq<LocationView>>,
    pub peek: Option<PeekState>,
    pub include_hidden: bool,
    /// The number of the next request.
    pub next_id: int,
    /// The number of the rename that has not ended.
    pub renaming: Option<int>,
}

/// A state on the way through a command: the events told and the requests made so far.
#[verifier::ext_equal]
pub struct Flow {
    pub browser: BrowserState,
    pub events: Seq<EventView>,
    pub requests: Seq<RequestView>,
}

/// A browser that has opened nothing yet.
pub open spec fn initial() -> BrowserState {
    BrowserState {
        columns: Seq::empty(),
        history: Seq::empty(),
        peek: None,
        include_hidden: false,
        next_id: 1,
        renaming: None,
    }
}

/// The start of a command.
pub open spec fn start(browser: BrowserState) -> Flow {
    Flow { browser, events: Seq::empty(), requests: Seq::empty() }
}

impl Flow {
    /// One more event.
    pub open spec fn tell(self, event: EventView) -> Flow {
        Flow { events: self.events.push(event), ..self }
    }

    /// One more request.
    pub open spec fn ask(self, request: RequestView) -> Flow {
        Flow { requests: self.requests.push(request), ..self }
    }

    /// The same events and requests, another state.
    pub open spec fn with(self, browser: BrowserState) -> Flow {
        Flow { browser, ..self }
    }
}

/// The requests that end what a column still has running.
pub open spec fn closing(column: ColumnState) -> Seq<RequestView> {
    if column.loading {
        seq![RequestView::CancelLoad { id: column.id }, RequestView::StopWatch { id: column.id }]
    } else {
        seq![RequestView::StopWatch { id: column.id }]
    }
}

/// The requests that end what the columns still have running, from the first to the last.
pub open spec fn closing_all(columns: Seq<ColumnState>) -> Seq<RequestView>
    decreases columns.len(),
{
    if columns.len() == 0 {
        Seq::empty()
    } else {
        closing_all(columns.drop_last()) + closing(columns.last())
    }
}

/// The places that are shown, from the first column to the last.
pub open spec fn path(columns: Seq<ColumnState>) -> Seq<LocationView> {
    columns.map_values(|column: ColumnState| column.location)
}

/// A column that has just been opened.
pub open spec fn fresh_column(location: LocationView, id: int) -> ColumnState {
    ColumnState {
        location,
        entries: Seq::empty(),
        sort: default_sort(),
        selected: Seq::empty(),
        focused: None,
        id,
        loading: true,
    }
}

/// Closes the columns behind the first `len`.
pub open spec fn close_from(f: Flow, len: int) -> Flow {
    Flow {
        browser: BrowserState { columns: f.browser.columns.take(len), ..f.browser },
        requests: f.requests + closing_all(f.browser.columns.skip(len)),
        ..f
    }
}

/// Opens one more column behind the last one.
pub open spec fn open_column(f: Flow, location: LocationView) -> Flow {
    let b = f.browser;
    f.with(
        BrowserState {
            columns: b.columns.push(fresh_column(location, b.next_id)),
            next_id: b.next_id + 1,
            ..b
        },
    ).tell(EventView::ColumnAdded { depth: b.columns.len() as int, location }).ask(
        RequestView::Enumerate { id: b.next_id, location, include_hidden: b.include_hidden },
    ).ask(RequestView::Watch { id: b.next_id, location, include_hidden: b.include_hidden })
}

/// Opens a column for each of the places.
pub open spec fn open_columns(f: Flow, places: Seq<LocationView>) -> Flow
    decreases places.len(),
{
    if places.len() == 0 {
        f
    } else {
        open_column(open_columns(f, places.drop_last()), places.last())
    }
}

/// Ends a peek without a word.
pub open spec fn drop_peek(f: Flow) -> Flow {
    match f.browser.peek {
        Some(peek) => {
            let closed = f.with(BrowserState { peek: None, ..f.browser });
            if peek.loading {
                closed.ask(RequestView::CancelLoad { id: peek.id })
            } else {
                closed
            }
        },
        None => f,
    }
}

/// Ends a peek, if there is one, and tells so.
pub open spec fn end_peek(f: Flow) -> Flow {
    if f.browser.peek is Some {
        drop_peek(f).tell(EventView::PeekClosed)
    } else {
        f
    }
}

/// Remembers the open columns, if any.
pub open spec fn remember(b: BrowserState) -> BrowserState {
    if b.columns.len() == 0 {
        b
    } else {
        BrowserState { history: b.history.push(path(b.columns)), ..b }
    }
}

/// Opens `location` in place of all columns.
pub open spec fn navigate(b: BrowserState, location: LocationView) -> Flow {
    let f = drop_peek(start(remember(b)));
    open_column(close_from(f, 0).tell(EventView::Reset), location)
}

/// Opens the columns that were open before the last navigation.
pub open spec fn back(b: BrowserState) -> Flow {
    if b.history.len() == 0 {
        start(b)
    } else {
        let f = drop_peek(start(BrowserState { history: b.history.drop_last(), ..b }));
        open_columns(close_from(f, 0).tell(EventView::Reset), b.history.last())
    }
}

/// Opens `location` behind the column at `depth`, where it has been found that it can be opened.
pub open spec fn descend(
    b: BrowserState,
    depth: int,
    location: LocationView,
    verdict: Result<(), LocationValidationError>,
) -> Flow {
    if !(0 <= depth < b.columns.len()) {
        start(b)
    } else {
        match verdict {
            Err(error) => start(b).tell(
                EventView::NavigationRejected { message: location_error_text(error) },
            ),
            Ok(_) => {
                let f = end_peek(start(remember(b)));
                open_column(truncated(f, depth + 1), location)
            },
        }
    }
}

/// Closes the columns behind the first `len` and tells so, where there are any.
pub open spec fn truncated(f: Flow, len: int) -> Flow {
    if len < f.browser.columns.len() {
        close_from(f, len).tell(EventView::ColumnsTruncated { len })
    } else {
        f
    }
}

/// Opens a typed location that has been found to be a directory that can be opened.
pub open spec fn navigate_typed(
    b: BrowserState,
    location: LocationView,
    verdict: Result<(), LocationValidationError>,
) -> Flow {
    match verdict {
        Ok(_) => navigate(b, location),
        Err(_) => start(b),
    }
}

/// Closes the column at `depth` and those behind it. The first column stays.
pub open spec fn close_column(b: BrowserState, depth: int) -> Flow {
    if 0 < depth < b.columns.len() {
        truncated(end_peek(start(b)), depth)
    } else {
        start(b)
    }
}

/// Ends a peek; where there is none, closes the last column.
pub open spec fn escape(b: BrowserState) -> Flow {
    if b.peek is Some {
        end_peek(start(b))
    } else {
        close_column(b, b.columns.len() - 1)
    }
}

/// Looks into `location`, an entry of the column at `origin`.
pub open spec fn begin_peek(b: BrowserState, origin: int, location: LocationView) -> Flow {
    if 0 <= origin < b.columns.len() {
        let f = drop_peek(start(b));
        f.with(
            BrowserState {
                peek: Some(PeekState { origin, location, id: b.next_id, loading: true }),
                next_id: b.next_id + 1,
                ..f.browser
            },
        ).tell(EventView::PeekStarted { location }).ask(
            RequestView::Enumerate {
                id: b.next_id,
                location,
                include_hidden: b.include_hidden,
            },
        )
    } else {
        start(b)
    }
}

/// Ends the peek and goes on to open what was looked into.
pub open spec fn commit_peek(b: BrowserState) -> Flow {
    match b.peek {
        Some(peek) => end_peek(start(b)).ask(
            RequestView::Validate { depth: peek.origin, location: peek.location },
        ),
        None => start(b),
    }
}

/// Lists the column at `depth` anew. The selection stays.
pub open spec fn reload(f: Flow, depth: int) -> Flow {
    let b = f.browser;
    let column = b.columns[depth];
    let asked = Flow { requests: f.requests + closing(column), ..f };
    asked.with(
        BrowserState {
            columns: b.columns.update(
                depth,
                ColumnState { entries: Seq::empty(), id: b.next_id, loading: true, ..column },
            ),
            next_id: b.next_id + 1,
            ..b
        },
    ).tell(EventView::ColumnReloaded { depth }).ask(
        RequestView::Enumerate {
            id: b.next_id,
            location: column.location,
            include_hidden: b.include_hidden,
        },
    ).ask(
        RequestView::Watch {
            id: b.next_id,
            location: column.location,
            include_hidden: b.include_hidden,
        },
    )
}

/// Lists the first `count` columns anew.
pub open spec fn reload_first(f: Flow, count: int) -> Flow
    decreases count,
{
    if count <= 0 {
        f
    } else {
        reload(reload_first(f, count - 1), count - 1)
    }
}

/// Lists the column at `depth` anew, where there is one.
pub open spec fn retry_column(b: BrowserState, depth: int) -> Flow {
    if 0 <= depth < b.columns.len() {
        reload(start(b), depth)
    } else {
        start(b)
    }
}

/// Shows hidden entries, or stops showing them, and lists every column anew.
pub open spec fn toggle_hidden(b: BrowserState) -> Flow {
    reload_first(
        start(BrowserState { include_hidden: !b.include_hidden, ..b }),
        b.columns.len() as int,
    )
}

/// The first position from `at` on whose entry stands for the place with this key.
pub open spec fn position_from(entries: Seq<FileEntryView>, key: LocationKey, at: int) -> Option<int>
    decreases entries.len() - at,
{
    if at < 0 || at >= entries.len() {
        None
    } else if entries[at].location.key() == key {
        Some(at)
    } else {
        position_from(entries, key, at + 1)
    }
}

/// The position of the entry that stands for a place.
pub open spec fn entry_position(entries: Seq<FileEntryView>, place: LocationView) -> Option<int> {
    position_from(entries, place.key(), 0)
}

/// Whether the place with this key is among the places.
pub open spec fn among(places: Seq<LocationView>, key: LocationKey) -> bool {
    exists|k: int| 0 <= k < places.len() && (#[trigger] places[k]).key() == key
}

/// The positions below `n` whose entries are among the selected places.
pub open spec fn selected_below(
    entries: Seq<FileEntryView>,
    selected: Seq<LocationView>,
    n: int,
) -> Seq<int>
    decreases n,
{
    if n <= 0 {
        Seq::empty()
    } else if among(selected, entries[n - 1].location.key()) {
        selected_below(entries, selected, n - 1).push(n - 1)
    } else {
        selected_below(entries, selected, n - 1)
    }
}

impl ColumnState {
    /// The positions that are selected, in order.
    pub open spec fn selected_positions(self) -> Seq<int> {
        selected_below(self.entries, self.selected, self.entries.len() as int)
    }

    /// The position that has the focus.
    pub open spec fn focused_position(self) -> Option<int> {
        match self.focused {
            Some(place) => entry_position(self.entries, place),
            None => None,
        }
    }

    /// The column with one entry selected and focused.
    pub open spec fn choosing(self, position: int) -> ColumnState {
        let place = self.entries[position].location;
        ColumnState { selected: seq![place], focused: Some(place), ..self }
    }
}

/// The position that is told along with a restored selection: the focus, or else the last
/// selected row.
pub open spec fn restored_focus(column: ColumnState) -> int {
    match column.focused_position() {
        Some(position) => position,
        None => column.selected_positions().last(),
    }
}

/// Tells the selection of the column at `depth` again, where anything is selected.
pub open spec fn restore_selection(f: Flow, depth: int) -> Flow {
    let column = f.browser.columns[depth];
    let positions = column.selected_positions();
    if positions.len() == 0 {
        f
    } else {
        f.tell(
            EventView::SelectionSetChanged { depth, positions, focused: restored_focus(column) },
        )
    }
}

/// The state with another column at `depth`.
pub open spec fn with_column(b: BrowserState, depth: int, column: ColumnState) -> BrowserState {
    BrowserState { columns: b.columns.update(depth, column), ..b }
}

/// The first column from `at` on that the listing with this number fills.
pub open spec fn column_from(columns: Seq<ColumnState>, id: int, at: int) -> Option<int>
    decreases columns.len() - at,
{
    if at < 0 || at >= columns.len() {
        None
    } else if columns[at].id == id {
        Some(at)
    } else {
        column_from(columns, id, at + 1)
    }
}

/// The column that the listing with this number fills.
pub open spec fn column_of(columns: Seq<ColumnState>, id: int) -> Option<int> {
    column_from(columns, id, 0)
}

/// The column that the listing with this number is still filling.
pub open spec fn loading_column(b: BrowserState, id: int) -> Option<int> {
    match column_of(b.columns, id) {
        Some(depth) => if b.columns[depth].loading {
            Some(depth)
        } else {
            None
        },
        None => None,
    }
}

/// Whether the peek is still filled by the listing with this number.
pub open spec fn peek_loads(b: BrowserState, id: int) -> bool {
    match b.peek {
        Some(peek) => peek.id == id && peek.loading,
        None => false,
    }
}

/// Takes in a batch of a listing. A batch of a listing that is no longer wanted changes nothing.
pub open spec fn batch_arrived(b: BrowserState, id: int, batch: Seq<FileEntryView>) -> Flow {
    match loading_column(b, id) {
        Some(depth) => {
            let column = b.columns[depth];
            let arrived = sorted(column.sort, batch);
            start(
                with_column(
                    b,
                    depth,
                    ColumnState { entries: merged(column.sort, column.entries, arrived), ..column },
                ),
            ).tell(
                EventView::EntriesInserted {
                    depth,
                    insertions: merge_insertions(column.sort, column.entries, arrived, 0),
                },
            )
        },
        None => if peek_loads(b, id) {
            start(b).tell(EventView::PeekEntriesAdded { entries: batch })
        } else {
            start(b)
        },
    }
}

/// The state with a peek that is no longer filled.
pub open spec fn with_peek_ended(b: BrowserState) -> BrowserState {
    match b.peek {
        Some(peek) => BrowserState { peek: Some(PeekState { loading: false, ..peek }), ..b },
        None => b,
    }
}

/// Takes in the end of a listing.
pub open spec fn load_finished(b: BrowserState, id: int) -> Flow {
    match loading_column(b, id) {
        Some(depth) => restore_selection(
            start(with_column(b, depth, ColumnState { loading: false, ..b.columns[depth] })).tell(
                EventView::LoadFinished { depth },
            ),
            depth,
        ),
        None => if peek_loads(b, id) {
            start(with_peek_ended(b)).tell(EventView::PeekFinished)
        } else {
            start(b)
        },
    }
}

/// Takes in that a listing failed.
pub open spec fn load_failed(b: BrowserState, id: int, message: Seq<char>) -> Flow {
    match loading_column(b, id) {
        Some(depth) => start(
            with_column(b, depth, ColumnState { loading: false, ..b.columns[depth] }),
        ).tell(EventView::LoadFailed { depth, message }),
        None => if peek_loads(b, id) {
            start(with_peek_ended(b)).tell(EventView::PeekFailed { message })
        } else {
            start(b)
        },
    }
}

/// Sorts the column at `depth` another way.
pub open spec fn resort(b: BrowserState, depth: int, sort: SortPreference) -> Flow {
    let column = b.columns[depth];
    let entries = sorted(sort, column.entries);
    restore_selection(
        start(with_column(b, depth, ColumnState { sort, entries, ..column })).tell(
            EventView::EntriesReplaced { depth, entries },
        ),
        depth,
    )
}

/// Sorts the column at `depth` by another key.
pub open spec fn set_sort_key(b: BrowserState, depth: int, key: SortKey) -> Flow {
    if 0 <= depth < b.columns.len() {
        resort(b, depth, SortPreference { key, ..b.columns[depth].sort })
    } else {
        start(b)
    }
}

/// Sorts the column at `depth` in another direction.
pub open spec fn set_sort_direction(b: BrowserState, depth: int, direction: SortDirection) -> Flow {
    if 0 <= depth < b.columns.len() {
        resort(b, depth, SortPreference { direction, ..b.columns[depth].sort })
    } else {
        start(b)
    }
}

/// Puts the folders of the column at `depth` first, or among the other entries.
pub open spec fn set_folders_first(b: BrowserState, depth: int, folders_first: bool) -> Flow {
    if 0 <= depth < b.columns.len() {
        resort(b, depth, SortPreference { folders_first, ..b.columns[depth].sort })
    } else {
        start(b)
    }
}

/// Where an entry comes into a sorted column: before the first entry that it precedes.
pub open spec fn place(sort: SortPreference, entries: Seq<FileEntryView>, entry: FileEntryView) -> int
    decreases entries.len(),
{
    if entries.len() == 0 || entry_order(sort, entry, entries[0]) < 0 {
        0
    } else {
        1 + place(sort, entries.drop_first(), entry)
    }
}

/// A column that changes, with the splices told so far.
#[verifier::ext_equal]
pub struct Change {
    pub column: ColumnState,
    pub splices: Seq<SpliceView>,
}

/// Takes the entry at `position` out.
pub open spec fn take_out(c: Change, position: int) -> Change {
    Change {
        column: ColumnState { entries: c.column.entries.remove(position), ..c.column },
        splices: c.splices.push(SpliceView { position, removed: 1, entries: Seq::empty() }),
    }
}

/// Puts an entry where it belongs.
pub open spec fn put_in(c: Change, entry: FileEntryView) -> Change {
    let position = place(c.column.sort, c.column.entries, entry);
    Change {
        column: ColumnState { entries: c.column.entries.insert(position, entry), ..c.column },
        splices: c.splices.push(SpliceView { position, removed: 0, entries: seq![entry] }),
    }
}

/// Puts an entry in the stead of the one at `position`: at the same place where it belongs
/// there, else as two splices.
pub open spec fn put_instead(c: Change, position: int, entry: FileEntryView) -> Change {
    let rest = c.column.entries.remove(position);
    if place(c.column.sort, rest, entry) == position {
        Change {
            column: ColumnState { entries: c.column.entries.update(position, entry), ..c.column },
            splices: c.splices.push(SpliceView { position, removed: 1, entries: seq![entry] }),
        }
    } else {
        put_in(take_out(c, position), entry)
    }
}

/// Adds an entry, or replaces the one that stands for the same place.
pub open spec fn upsert(c: Change, entry: FileEntryView) -> Change {
    match entry_position(c.column.entries, entry.location) {
        Some(position) => put_instead(c, position, entry),
        None => put_in(c, entry),
    }
}

/// The places without the one with this key.
pub open spec fn without(places: Seq<LocationView>, key: LocationKey) -> Seq<LocationView>
    decreases places.len(),
{
    if places.len() == 0 {
        Seq::empty()
    } else if places.last().key() == key {
        without(places.drop_last(), key)
    } else {
        without(places.drop_last(), key).push(places.last())
    }
}

/// A focus that is not on the place with this key.
pub open spec fn focus_without(focused: Option<LocationView>, key: LocationKey) -> Option<LocationView> {
    match focused {
        Some(place) => if place.key() == key {
            None
        } else {
            focused
        },
        None => None,
    }
}

/// Removes the entry that stands for a place, and the place from the selection.
pub open spec fn remove_entry(c: Change, from: LocationView) -> Change {
    match entry_position(c.column.entries, from) {
        Some(position) => {
            let out = take_out(c, position);
            Change {
                column: ColumnState {
                    selected: without(c.column.selected, from.key()),
                    focused: focus_without(c.column.focused, from.key()),
                    ..out.column
                },
                ..out
            }
        },
        None => c,
    }
}

/// Puts `to` among the places where the place with this key was.
pub open spec fn followed(places: Seq<LocationView>, key: LocationKey, to: LocationView) -> Seq<
    LocationView,
> {
    places.map_values(
        |place: LocationView|
            if place.key() == key {
                to
            } else {
                place
            },
    )
}

/// A focus that follows the place with this key to `to`.
pub open spec fn focus_followed(
    focused: Option<LocationView>,
    key: LocationKey,
    to: LocationView,
) -> Option<LocationView> {
    match focused {
        Some(place) => if place.key() == key {
            Some(to)
        } else {
            focused
        },
        None => None,
    }
}

/// Replaces the entry that stands for `from` by `entry`. The selection follows.
pub open spec fn move_entry(c: Change, from: LocationView, entry: FileEntryView) -> Change {
    match entry_position(c.column.entries, from) {
        Some(position) => {
            let out = take_out(c, position);
            let kept = Change {
                column: ColumnState {
                    selected: followed(c.column.selected, from.key(), entry.location),
                    focused: focus_followed(c.column.focused, from.key(), entry.location),
                    ..out.column
                },
                ..out
            };
            upsert(kept, entry)
        },
        None => upsert(c, entry),
    }
}

/// What a watched directory went through.
pub enum ChangeView {
    Upsert(FileEntryView),
    Removed(LocationView),
    Moved { from: LocationView, entry: FileEntryView },
    Rescan,
}

/// The column after a change that can be told exactly.
pub open spec fn changed(column: ColumnState, change: ChangeView) -> Change {
    let c = Change { column, splices: Seq::empty() };
    match change {
        ChangeView::Upsert(entry) => upsert(c, entry),
        ChangeView::Removed(from) => remove_entry(c, from),
        ChangeView::Moved { from, entry } => move_entry(c, from, entry),
        ChangeView::Rescan => c,
    }
}

/// Takes in what a watched directory went through. A column that is still being filled, and a
/// change that cannot be told exactly, is listed anew.
pub open spec fn directory_changed(b: BrowserState, id: int, change: ChangeView) -> Flow {
    match column_of(b.columns, id) {
        Some(depth) => if change is Rescan || b.columns[depth].loading {
            reload(start(b), depth)
        } else {
            let done = changed(b.columns[depth], change);
            let next = start(with_column(b, depth, done.column));
            if done.splices.len() == 0 {
                next
            } else {
                next.tell(
                    EventView::EntriesSpliced {
                        depth,
                        splices: done.splices,
                        selected: done.column.focused_position(),
                    },
                )
            }
        },
        None => start(b),
    }
}

/// The places of the entries at those positions that exist.
pub open spec fn places_at(entries: Seq<FileEntryView>, positions: Seq<int>) -> Seq<LocationView>
    decreases positions.len(),
{
    if positions.len() == 0 {
        Seq::empty()
    } else {
        let before = places_at(entries, positions.drop_last());
        if 0 <= positions.last() < entries.len() {
            before.push(entries[positions.last()].location)
        } else {
            before
        }
    }
}

/// The place of the entry at a position, where there is one.
pub open spec fn place_at(entries: Seq<FileEntryView>, position: Option<int>) -> Option<LocationView> {
    match position {
        Some(at) => if 0 <= at < entries.len() {
            Some(entries[at].location)
        } else {
            None
        },
        None => None,
    }
}

/// Takes over the selection of the column at `depth`.
pub open spec fn set_selection(
    b: BrowserState,
    depth: int,
    positions: Seq<int>,
    focused: Option<int>,
) -> BrowserState {
    if 0 <= depth < b.columns.len() {
        let column = b.columns[depth];
        with_column(
            b,
            depth,
            ColumnState {
                selected: places_at(column.entries, positions),
                focused: place_at(column.entries, focused),
                ..column
            },
        )
    } else {
        b
    }
}

/// Whether there is an entry at `position` of the column at `depth`.
pub open spec fn has_entry(b: BrowserState, depth: int, position: int) -> bool {
    0 <= depth < b.columns.len() && 0 <= position < b.columns[depth].entries.len()
}

/// The state with that entry selected and focused.
pub open spec fn chosen(b: BrowserState, depth: int, position: int) -> BrowserState {
    with_column(b, depth, b.columns[depth].choosing(position))
}

/// Selects one entry.
pub open spec fn select(b: BrowserState, depth: int, position: int) -> Flow {
    if has_entry(b, depth, position) {
        start(chosen(b, depth, position)).tell(
            EventView::FocusChanged { depth, position: Some(position) },
        )
    } else {
        start(b)
    }
}

/// Selects one entry and looks at it: a directory is to be opened, a file is to be previewed.
pub open spec fn preview(b: BrowserState, depth: int, position: int) -> Flow {
    if has_entry(b, depth, position) {
        let entry = b.columns[depth].entries[position];
        let f = start(chosen(b, depth, position));
        if entry.is_directory() {
            f.ask(RequestView::Validate { depth, location: entry.location })
        } else {
            f.tell(EventView::PreviewRequested { entry })
        }
    } else {
        start(b)
    }
}

/// Selects one entry and opens it: a directory in a column, a file in its application.
pub open spec fn activate(b: BrowserState, depth: int, position: int) -> Flow {
    if has_entry(b, depth, position) {
        let entry = b.columns[depth].entries[position];
        let f = start(chosen(b, depth, position));
        if entry.is_directory() {
            f.ask(RequestView::Validate { depth, location: entry.location })
        } else {
            f.tell(EventView::OpenRequested { location: entry.location })
        }
    } else {
        start(b)
    }
}

/// The depth of the last column.
pub open spec fn active_depth(b: BrowserState) -> Option<int> {
    if b.columns.len() == 0 {
        None
    } else {
        Some(b.columns.len() - 1)
    }
}

/// The place that the last column shows.
pub open spec fn active_location(b: BrowserState) -> Option<LocationView> {
    location_at(b, b.columns.len() - 1)
}

/// The place that the column at `depth` shows.
pub open spec fn location_at(b: BrowserState, depth: int) -> Option<LocationView> {
    if 0 <= depth < b.columns.len() {
        Some(b.columns[depth].location)
    } else {
        None
    }
}

/// Opens the entry that has the focus in the last column.
pub open spec fn activate_focused(b: BrowserState) -> Flow {
    match active_depth(b) {
        Some(depth) => match b.columns[depth].focused_position() {
            Some(position) => activate(b, depth, position),
            None => start(b),
        },
        None => start(b),
    }
}

/// The row that lies `delta` rows from the focus, held within the column. Without a focus, the
/// first or the last row.
pub open spec fn moved_position(column: ColumnState, delta: int) -> int {
    let last = column.entries.len() - 1;
    match column.focused_position() {
        None => if delta < 0 {
            last
        } else {
            0
        },
        Some(position) => if position + delta < 0 {
            0
        } else if position + delta > last {
            last
        } else {
            position + delta
        },
    }
}

/// Moves the selection of the last column.
pub open spec fn move_selection(b: BrowserState, delta: int) -> Flow {
    match active_depth(b) {
        Some(depth) => if b.columns[depth].entries.len() == 0 {
            start(b)
        } else {
            select(b, depth, moved_position(b.columns[depth], delta))
        },
        None => start(b),
    }
}

/// Gives the last column the focus.
pub open spec fn focus_active(b: BrowserState) -> Flow {
    match active_depth(b) {
        Some(depth) => start(b).tell(
            EventView::FocusChanged { depth, position: b.columns[depth].focused_position() },
        ),
        None => start(b),
    }
}

/// The row of the column at `depth` behind which the next column opens.
pub open spec fn active_child_position(b: BrowserState, depth: int) -> Option<int> {
    if 0 <= depth && depth + 1 < b.columns.len() {
        entry_position(b.columns[depth].entries, b.columns[depth + 1].location)
    } else {
        None
    }
}

/// The deepest of the first `n` columns in which something is selected.
pub open spec fn selection_depth(b: BrowserState, n: int) -> Option<int>
    decreases n,
{
    if n <= 0 {
        None
    } else if b.columns[n - 1].selected_positions().len() > 0 {
        Some(n - 1)
    } else {
        selection_depth(b, n - 1)
    }
}

/// The entries that are selected in the deepest column with a selection.
pub open spec fn selected_entries(b: BrowserState) -> Seq<FileEntryView> {
    match selection_depth(b, b.columns.len() as int) {
        Some(depth) => b.columns[depth].selected_positions().map_values(
            |position: int| b.columns[depth].entries[position],
        ),
        None => Seq::empty(),
    }
}

/// What a rename is for: the focused entry of the last column, or else the open folder that
/// the last column shows.
pub open spec fn rename_item(b: BrowserState) -> Option<(int, int, FileEntryView)> {
    let last = b.columns.len() - 1;
    if last < 0 {
        None
    } else {
        match b.columns[last].focused_position() {
            Some(position) => Some((last, position, b.columns[last].entries[position])),
            None => match active_child_position(b, last - 1) {
                Some(position) => Some(
                    (last - 1, position, b.columns[last - 1].entries[position]),
                ),
                None => None,
            },
        }
    }
}

/// The state after a request has been numbered.
pub open spec fn numbered(b: BrowserState) -> BrowserState {
    BrowserState { next_id: b.next_id + 1, ..b }
}

/// Gives an entry another name.
pub open spec fn rename(b: BrowserState, entry: FileEntryView, new_name: Seq<char>) -> Flow {
    match rename_verdict(new_name) {
        Err(error) => start(b).tell(
            EventView::RenameFailed { message: rename_error_text(error) },
        ),
        Ok(_) => start(BrowserState { renaming: Some(b.next_id), ..numbered(b) }).ask(
            RequestView::Rename { id: b.next_id, entry, new_name },
        ),
    }
}

/// Makes a directory.
pub open spec fn create_directory(b: BrowserState, parent: LocationView, name: Seq<char>) -> Flow {
    match rename_verdict(name) {
        Err(error) => start(b).tell(
            EventView::OperationFailed { message: rename_error_text(error) },
        ),
        Ok(_) => start(numbered(b)).ask(
            RequestView::CreateDirectory { id: b.next_id, parent, name },
        ),
    }
}

/// Copies or moves files into a directory.
pub open spec fn transfer(
    b: BrowserState,
    destination: LocationView,
    sources: Seq<LocationView>,
    move_sources: bool,
) -> Flow {
    start(numbered(b)).ask(
        RequestView::Paste { id: b.next_id, destination, sources, move_sources },
    )
}

/// Puts entries in the trash, or deletes them for good.
pub open spec fn delete(b: BrowserState, entries: Seq<FileEntryView>, permanent: bool) -> Flow {
    start(numbered(b)).ask(RequestView::Delete { id: b.next_id, entries, permanent })
}

/// Empties the trash.
pub open spec fn empty_trash(b: BrowserState) -> Flow {
    start(numbered(b)).ask(RequestView::EmptyTrash { id: b.next_id })
}

/// Takes in how an operation ended. What a rename did wrong is told as such.
pub open spec fn operation_ended(b: BrowserState, event: OperationEventView) -> Flow {
    let done = BrowserState { renaming: None, ..b };
    match event {
        OperationEventView::Renamed { request_id } => if b.renaming == Some(request_id) {
            start(done).tell(EventView::RenameCompleted)
        } else {
            start(b)
        },
        OperationEventView::Failed { request_id, message } => if b.renaming == Some(request_id) {
            start(done).tell(EventView::RenameFailed { message })
        } else {
            start(b).tell(EventView::OperationFailed { message })
        },
        _ => start(b),
    }
}

} // verus!
