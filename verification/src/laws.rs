//! What holds of the browser whatever it is told to do.
use vstd::prelude::*;

use crate::entry::FileEntryView;
use crate::event::{EventView, OperationEventView, RequestView};
use crate::model::{LocationKey, LocationView};
use crate::names::LocationValidationError;
use crate::order::{
    is_sorted, lemma_entry_order_is_total, lemma_merged, lemma_sorted, merged, sorted,
    SortDirection, SortKey, SortPreference,
};
use crate::state::{
    activate, activate_focused, back, batch_arrived, begin_peek, changed, chosen, close_column,
    close_from, closing_all, column_from, column_of, commit_peek, create_directory, delete, descend,
    directory_changed, drop_peek, empty_trash, end_peek, entry_position, escape, focus_active,
    focus_followed, followed, fresh_column, has_entry, initial, load_failed, load_finished,
    loading_column, move_selection, moved_position, navigate, navigate_typed, numbered, open_column,
    open_columns, operation_ended, path, peek_loads, place, place_at, places_at, position_from,
    preview, put_in, put_instead, reload, reload_first, remember, rename, resort, retry_column,
    select, set_folders_first, set_selection, set_sort_direction, set_sort_key, start, take_out,
    toggle_hidden, transfer, truncated, upsert, with_column, BrowserState, Change, ChangeView,
    ColumnState, Flow,
};

verus! {

/// Everything that can be asked of a browser, or reported to it.
pub enum Command {
    Navigate { location: LocationView },
    NavigateTyped { location: LocationView, verdict: Result<(), LocationValidationError> },
    Back,
    Descend { depth: int, location: LocationView, verdict: Result<(), LocationValidationError> },
    CloseColumn { depth: int },
    Escape,
    BeginPeek { origin: int, location: LocationView },
    ClosePeek,
    CommitPeek,
    RetryColumn { depth: int },
    ToggleHidden,
    BatchArrived { id: int, batch: Seq<FileEntryView> },
    LoadFinished { id: int },
    LoadFailed { id: int, message: Seq<char> },
    SetSortKey { depth: int, key: SortKey },
    SetSortDirection { depth: int, direction: SortDirection },
    SetFoldersFirst { depth: int, folders_first: bool },
    DirectoryChanged { id: int, change: ChangeView },
    SetSelection { depth: int, positions: Seq<int>, focused: Option<int> },
    Select { depth: int, position: int },
    Preview { depth: int, position: int },
    Activate { depth: int, position: int },
    ActivateFocused,
    MoveSelection { delta: int },
    FocusActive,
    Rename { entry: FileEntryView, new_name: Seq<char> },
    CreateDirectory { parent: LocationView, name: Seq<char> },
    Transfer { destination: LocationView, sources: Seq<LocationView>, move_sources: bool },
    Delete { entries: Seq<FileEntryView>, permanent: bool },
    EmptyTrash,
    OperationEnded { event: OperationEventView },
}

/// What a command does.
pub open spec fn run(b: BrowserState, command: Command) -> Flow {
    match command {
        Command::Navigate { location } => navigate(b, location),
        Command::NavigateTyped { location, verdict } => navigate_typed(b, location, verdict),
        Command::Back => back(b),
        Command::Descend { depth, location, verdict } => descend(b, depth, location, verdict),
        Command::CloseColumn { depth } => close_column(b, depth),
        Command::Escape => escape(b),
        Command::BeginPeek { origin, location } => begin_peek(b, origin, location),
        Command::ClosePeek => end_peek(start(b)),
        Command::CommitPeek => commit_peek(b),
        Command::RetryColumn { depth } => retry_column(b, depth),
        Command::ToggleHidden => toggle_hidden(b),
        Command::BatchArrived { id, batch } => batch_arrived(b, id, batch),
        Command::LoadFinished { id } => load_finished(b, id),
        Command::LoadFailed { id, message } => load_failed(b, id, message),
        Command::SetSortKey { depth, key } => set_sort_key(b, depth, key),
        Command::SetSortDirection { depth, direction } => set_sort_direction(b, depth, direction),
        Command::SetFoldersFirst { depth, folders_first } => set_folders_first(
            b,
            depth,
            folders_first,
        ),
        Command::DirectoryChanged { id, change } => directory_changed(b, id, change),
        Command::SetSelection { depth, positions, focused } => start(
            set_selection(b, depth, positions, focused),
        ),
        Command::Select { depth, position } => select(b, depth, position),
        Command::Preview { depth, position } => preview(b, depth, position),
        Command::Activate { depth, position } => activate(b, depth, position),
        Command::ActivateFocused => activate_focused(b),
        Command::MoveSelection { delta } => move_selection(b, delta),
        Command::FocusActive => focus_active(b),
        Command::Rename { entry, new_name } => rename(b, entry, new_name),
        Command::CreateDirectory { parent, name } => create_directory(b, parent, name),
        Command::Transfer { destination, sources, move_sources } => transfer(
            b,
            destination,
            sources,
            move_sources,
        ),
        Command::Delete { entries, permanent } => delete(b, entries, permanent),
        Command::EmptyTrash => empty_trash(b),
        Command::OperationEnded { event } => operation_ended(b, event),
    }
}

/// The columns are sorted, each under a number of its own, a peek starts from an open column under
/// yet another number, and no number is handed out twice.
#[verifier::opaque]
pub open spec fn well_formed(b: BrowserState) -> bool {
    &&& b.next_id >= 1
    &&& forall|i: int| 0 <= i < b.columns.len() ==> 0 < (#[trigger] b.columns[i]).id < b.next_id
    &&& forall|i: int, j: int|
        0 <= i < j < b.columns.len() ==> (#[trigger] b.columns[i]).id != (#[trigger] b.columns[j]).id
    &&& forall|i: int|
        0 <= i < b.columns.len() ==> is_sorted(
            (#[trigger] b.columns[i]).sort,
            b.columns[i].entries,
        )
    &&& b.peek matches Some(peek) ==> {
        &&& 0 <= peek.origin < b.columns.len()
        &&& 0 < peek.id < b.next_id
        &&& forall|i: int| 0 <= i < b.columns.len() ==> (#[trigger] b.columns[i]).id != peek.id
    }
    &&& forall|i: int| 0 <= i < b.history.len() ==> (#[trigger] b.history[i]).len() > 0
    &&& b.renaming matches Some(id) ==> 0 < id < b.next_id
}

/// Placing one entry is merging it in.
pub proof fn lemma_place_is_merge(
    sort: SortPreference,
    entries: Seq<FileEntryView>,
    entry: FileEntryView,
)
    ensures
        0 <= place(sort, entries, entry) <= entries.len(),
        entries.insert(place(sort, entries, entry), entry) == merged(sort, entries, seq![entry]),
    decreases entries.len(),
{
    let one = seq![entry];
    assert(one.drop_first() =~= Seq::empty());
    if entries.len() == 0 {
        assert(entries.insert(0, entry) =~= one);
    } else if crate::order::entry_order(sort, entry, entries[0]) < 0 {
        assert(merged(sort, entries, one.drop_first()) == entries);
        assert(entries.insert(0, entry) =~= seq![entry] + entries);
    } else {
        let tail = entries.drop_first();
        lemma_place_is_merge(sort, tail, entry);
        let at = place(sort, tail, entry);
        assert(entries.insert(at + 1, entry) =~= seq![entries[0]] + tail.insert(at, entry));
    }
}

proof fn lemma_one_sorted(sort: SortPreference, entry: FileEntryView)
    ensures
        is_sorted(sort, seq![entry]),
{
    lemma_entry_order_is_total(sort, entry, entry, entry);
}

proof fn lemma_remove_sorted(sort: SortPreference, entries: Seq<FileEntryView>, at: int)
    requires
        is_sorted(sort, entries),
        0 <= at < entries.len(),
    ensures
        is_sorted(sort, entries.remove(at)),
{
    let rest = entries.remove(at);
    assert forall|i: int, j: int| 0 <= i <= j < rest.len() implies crate::order::entry_order(
        sort,
        rest[i],
        rest[j],
    ) <= 0 by {
        let x = if i < at {
            i
        } else {
            i + 1
        };
        let y = if j < at {
            j
        } else {
            j + 1
        };
        assert(crate::order::entry_order(sort, entries[x], entries[y]) <= 0);
    }
}

/// A position that is found is the first one whose entry stands for the place.
pub proof fn lemma_entry_position(entries: Seq<FileEntryView>, key: LocationKey, at: int)
    requires
        0 <= at,
    ensures
        position_from(entries, key, at) matches Some(found) ==> {
            &&& at <= found < entries.len()
            &&& entries[found].location.key() == key
            &&& forall|i: int| at <= i < found ==> (#[trigger] entries[i]).location.key() != key
        },
        position_from(entries, key, at) is None ==> forall|i: int|
            at <= i < entries.len() ==> (#[trigger] entries[i]).location.key() != key,
    decreases entries.len() - at,
{
    if at < entries.len() && entries[at].location.key() != key {
        lemma_entry_position(entries, key, at + 1);
    }
}

proof fn lemma_put_in_sorted(c: Change, entry: FileEntryView)
    requires
        is_sorted(c.column.sort, c.column.entries),
    ensures
        is_sorted(c.column.sort, put_in(c, entry).column.entries),
{
    lemma_place_is_merge(c.column.sort, c.column.entries, entry);
    lemma_one_sorted(c.column.sort, entry);
    lemma_merged(c.column.sort, c.column.entries, seq![entry]);
}

proof fn lemma_put_instead(c: Change, at: int, entry: FileEntryView)
    requires
        0 <= at < c.column.entries.len(),
    ensures
        put_instead(c, at, entry).column == put_in(take_out(c, at), entry).column,
{
    let rest = c.column.entries.remove(at);
    if place(c.column.sort, rest, entry) == at {
        assert(c.column.entries.update(at, entry) =~= rest.insert(at, entry));
    }
}

proof fn lemma_upsert_sorted(c: Change, entry: FileEntryView)
    requires
        is_sorted(c.column.sort, c.column.entries),
    ensures
        is_sorted(c.column.sort, upsert(c, entry).column.entries),
        upsert(c, entry).column.sort == c.column.sort,
        upsert(c, entry).column.id == c.column.id,
        upsert(c, entry).column.location == c.column.location,
{
    lemma_entry_position(c.column.entries, entry.location.key(), 0);
    match entry_position(c.column.entries, entry.location) {
        Some(at) => {
            lemma_put_instead(c, at, entry);
            lemma_remove_sorted(c.column.sort, c.column.entries, at);
            lemma_put_in_sorted(take_out(c, at), entry);
        },
        None => {
            lemma_put_in_sorted(c, entry);
        },
    }
}

/// A change keeps a column sorted, and what the column is.
pub proof fn lemma_change_keeps_order(column: ColumnState, change: ChangeView)
    requires
        is_sorted(column.sort, column.entries),
    ensures
        is_sorted(column.sort, changed(column, change).column.entries),
        changed(column, change).column.sort == column.sort,
        changed(column, change).column.id == column.id,
        changed(column, change).column.location == column.location,
{
    let c = Change { column, splices: Seq::empty() };
    match change {
        ChangeView::Upsert(entry) => {
            lemma_upsert_sorted(c, entry);
        },
        ChangeView::Removed(from) => {
            lemma_entry_position(column.entries, from.key(), 0);
            if let Some(at) = entry_position(column.entries, from) {
                lemma_remove_sorted(column.sort, column.entries, at);
            }
        },
        ChangeView::Moved { from, entry } => {
            lemma_entry_position(column.entries, from.key(), 0);
            match entry_position(column.entries, from) {
                Some(at) => {
                    lemma_remove_sorted(column.sort, column.entries, at);
                    let out = take_out(c, at);
                    let kept = Change {
                        column: ColumnState {
                            selected: followed(column.selected, from.key(), entry.location),
                            focused: focus_followed(column.focused, from.key(), entry.location),
                            ..out.column
                        },
                        ..out
                    };
                    lemma_upsert_sorted(kept, entry);
                },
                None => {
                    lemma_upsert_sorted(c, entry);
                },
            }
        },
        ChangeView::Rescan => {},
    }
}

pub proof fn lemma_column_from(columns: Seq<ColumnState>, id: int, at: int)
    requires
        0 <= at,
    ensures
        column_from(columns, id, at) matches Some(found) ==> at <= found < columns.len()
            && columns[found].id == id,
        column_from(columns, id, at) is None ==> forall|i: int|
            at <= i < columns.len() ==> (#[trigger] columns[i]).id != id,
    decreases columns.len() - at,
{
    if at < columns.len() && columns[at].id != id {
        lemma_column_from(columns, id, at + 1);
    }
}

proof fn lemma_open_column(f: Flow, location: LocationView)
    requires
        well_formed(f.browser),
    ensures
        well_formed(open_column(f, location).browser),
{
    reveal(well_formed);
    let b = f.browser;
    let next = open_column(f, location).browser;
    assert forall|i: int| 0 <= i < next.columns.len() implies is_sorted(
        (#[trigger] next.columns[i]).sort,
        next.columns[i].entries,
    ) by {
        if i < b.columns.len() {
            assert(next.columns[i] == b.columns[i]);
        }
    }
}

proof fn lemma_open_columns(f: Flow, places: Seq<LocationView>)
    requires
        well_formed(f.browser),
    ensures
        well_formed(open_columns(f, places).browser),
        path(open_columns(f, places).browser.columns) == path(f.browser.columns) + places,
        open_columns(f, places).browser.history == f.browser.history,
        open_columns(f, places).browser.peek == f.browser.peek,
        open_columns(f, places).browser.include_hidden == f.browser.include_hidden,
        open_columns(f, places).browser.next_id == f.browser.next_id + places.len(),
    decreases places.len(),
{
    reveal(well_formed);
    if places.len() == 0 {
        assert(path(f.browser.columns) + places =~= path(f.browser.columns));
    } else {
        lemma_open_columns(f, places.drop_last());
        let before = open_columns(f, places.drop_last());
        lemma_open_column(before, places.last());
        let after = open_columns(f, places);
        assert(path(after.browser.columns) =~= path(before.browser.columns).push(places.last()));
        assert(path(before.browser.columns).push(places.last()) =~= path(f.browser.columns)
            + places);
    }
}

proof fn lemma_close_from(f: Flow, len: int)
    requires
        well_formed(f.browser),
        f.browser.peek is None,
        0 <= len <= f.browser.columns.len(),
    ensures
        well_formed(close_from(f, len).browser),
{
    reveal(well_formed);
    let next = close_from(f, len).browser;
    assert forall|i: int| 0 <= i < next.columns.len() implies next.columns[i]
        == f.browser.columns[i] by {}
}

proof fn lemma_remember(b: BrowserState)
    requires
        well_formed(b),
    ensures
        well_formed(remember(b)),
{
    reveal(well_formed);
    assert(path(b.columns).len() == b.columns.len());
}

proof fn lemma_reload(f: Flow, depth: int)
    requires
        well_formed(f.browser),
        0 <= depth < f.browser.columns.len(),
    ensures
        well_formed(reload(f, depth).browser),
        path(reload(f, depth).browser.columns) == path(f.browser.columns),
        reload(f, depth).browser.history == f.browser.history,
        reload(f, depth).browser.columns.len() == f.browser.columns.len(),
{
    reveal(well_formed);
    let b = f.browser;
    let next = reload(f, depth).browser;
    assert forall|i: int| 0 <= i < next.columns.len() implies is_sorted(
        (#[trigger] next.columns[i]).sort,
        next.columns[i].entries,
    ) by {
        if i != depth {
            assert(next.columns[i] == b.columns[i]);
        }
    }
    assert(path(next.columns) =~= path(b.columns));
}

proof fn lemma_reload_first(f: Flow, count: int)
    requires
        well_formed(f.browser),
        0 <= count <= f.browser.columns.len(),
    ensures
        well_formed(reload_first(f, count).browser),
        path(reload_first(f, count).browser.columns) == path(f.browser.columns),
        reload_first(f, count).browser.history == f.browser.history,
        reload_first(f, count).browser.columns.len() == f.browser.columns.len(),
        reload_first(f, count).browser.include_hidden == f.browser.include_hidden,
        forall|i: int|
            0 <= i < f.browser.columns.len() ==> (#[trigger] reload_first(
                f,
                count,
            ).browser.columns[i]).selected == f.browser.columns[i].selected
                && reload_first(f, count).browser.columns[i].focused
                == f.browser.columns[i].focused,
    decreases count,
{
    reveal(well_formed);
    if count > 0 {
        lemma_reload_first(f, count - 1);
        lemma_reload(reload_first(f, count - 1), count - 1);
    }
}

proof fn lemma_with_column(b: BrowserState, depth: int, column: ColumnState)
    requires
        well_formed(b),
        0 <= depth < b.columns.len(),
        column.id == b.columns[depth].id,
        is_sorted(column.sort, column.entries),
    ensures
        well_formed(with_column(b, depth, column)),
{
    reveal(well_formed);
    let next = with_column(b, depth, column);
    assert forall|i: int| 0 <= i < next.columns.len() implies (#[trigger] next.columns[i]).id
        == b.columns[i].id && is_sorted(next.columns[i].sort, next.columns[i].entries) by {
        if i != depth {
            assert(next.columns[i] == b.columns[i]);
        }
    }
}

proof fn lemma_back_well_formed(b: BrowserState)
    requires
        well_formed(b),
    ensures
        well_formed(back(b).browser),
{
    reveal(well_formed);
    if b.history.len() > 0 {
        let older = BrowserState { history: b.history.drop_last(), ..b };
        assert(well_formed(older));
        let f = drop_peek(start(older));
        lemma_close_from(f, 0);
        lemma_open_columns(close_from(f, 0).tell(EventView::Reset), b.history.last());
    }
}

proof fn lemma_descend_well_formed(
    b: BrowserState,
    depth: int,
    location: LocationView,
    verdict: Result<(), LocationValidationError>,
)
    requires
        well_formed(b),
    ensures
        well_formed(descend(b, depth, location, verdict).browser),
{
    reveal(well_formed);
    lemma_remember(b);
    if 0 <= depth < b.columns.len() {
        if let Ok(_) = verdict {
            let f = end_peek(start(remember(b)));
            lemma_close_from(f, depth + 1);
            lemma_open_column(truncated(f, depth + 1), location);
        }
    }
}

proof fn lemma_close_column_well_formed(b: BrowserState, depth: int)
    requires
        well_formed(b),
    ensures
        well_formed(close_column(b, depth).browser),
{
    reveal(well_formed);
    if 0 < depth < b.columns.len() {
        lemma_close_from(end_peek(start(b)), depth);
    }
}

proof fn lemma_peek_well_formed(b: BrowserState, origin: int, location: LocationView)
    requires
        well_formed(b),
    ensures
        well_formed(begin_peek(b, origin, location).browser),
{
    reveal(well_formed);
}

proof fn lemma_end_peek_well_formed(b: BrowserState)
    requires
        well_formed(b),
    ensures
        well_formed(end_peek(start(b)).browser),
{
    reveal(well_formed);
}

proof fn lemma_toggle_well_formed(b: BrowserState)
    requires
        well_formed(b),
    ensures
        well_formed(toggle_hidden(b).browser),
{
    reveal(well_formed);
    let flipped = BrowserState { include_hidden: !b.include_hidden, ..b };
    lemma_reload_first(start(flipped), b.columns.len() as int);
}

proof fn lemma_listing_well_formed(
    b: BrowserState,
    id: int,
    batch: Seq<FileEntryView>,
    message: Seq<char>,
)
    requires
        well_formed(b),
    ensures
        well_formed(batch_arrived(b, id, batch).browser),
        well_formed(load_finished(b, id).browser),
        well_formed(load_failed(b, id, message).browser),
{
    reveal(well_formed);
    lemma_column_from(b.columns, id, 0);
    if let Some(depth) = loading_column(b, id) {
        let column = b.columns[depth];
        lemma_sorted(column.sort, batch);
        lemma_merged(column.sort, column.entries, sorted(column.sort, batch));
        lemma_with_column(
            b,
            depth,
            ColumnState {
                entries: merged(column.sort, column.entries, sorted(column.sort, batch)),
                ..column
            },
        );
        lemma_with_column(b, depth, ColumnState { loading: false, ..column });
    }
}

proof fn lemma_changed_well_formed(b: BrowserState, id: int, change: ChangeView)
    requires
        well_formed(b),
    ensures
        well_formed(directory_changed(b, id, change).browser),
{
    reveal(well_formed);
    lemma_column_from(b.columns, id, 0);
    if let Some(depth) = column_of(b.columns, id) {
        lemma_reload(start(b), depth);
        lemma_change_keeps_order(b.columns[depth], change);
        lemma_with_column(b, depth, changed(b.columns[depth], change).column);
    }
}

/// Every command keeps the browser well formed.
pub proof fn lemma_run_keeps_well_formed(b: BrowserState, command: Command)
    requires
        well_formed(b),
    ensures
        well_formed(run(b, command).browser),
{
    lemma_remember(b);
    match command {
        Command::Navigate { location } => {
            lemma_navigate_well_formed(b, location);
        },
        Command::NavigateTyped { location, verdict } => {
            lemma_navigate_well_formed(b, location);
        },
        Command::Back => {
            lemma_back_well_formed(b);
        },
        Command::Descend { depth, location, verdict } => {
            lemma_descend_well_formed(b, depth, location, verdict);
        },
        Command::CloseColumn { depth } => {
            lemma_close_column_well_formed(b, depth);
        },
        Command::Escape => {
            lemma_close_column_well_formed(b, b.columns.len() - 1);
            lemma_end_peek_well_formed(b);
        },
        Command::BeginPeek { origin, location } => {
            lemma_peek_well_formed(b, origin, location);
        },
        Command::ClosePeek => {
            lemma_end_peek_well_formed(b);
        },
        Command::CommitPeek => {
            lemma_end_peek_well_formed(b);
        },
        Command::RetryColumn { depth } => {
            if 0 <= depth < b.columns.len() {
                lemma_reload(start(b), depth);
            }
        },
        Command::ToggleHidden => {
            lemma_toggle_well_formed(b);
        },
        Command::BatchArrived { id, batch } => {
            lemma_listing_well_formed(b, id, batch, Seq::empty());
        },
        Command::LoadFinished { id } => {
            lemma_listing_well_formed(b, id, Seq::empty(), Seq::empty());
        },
        Command::LoadFailed { id, message } => {
            lemma_listing_well_formed(b, id, Seq::empty(), message);
        },
        Command::SetSortKey { depth, key } => {
            if 0 <= depth < b.columns.len() {
                lemma_resort(b, depth, SortPreference { key, ..b.columns[depth].sort });
            }
        },
        Command::SetSortDirection { depth, direction } => {
            if 0 <= depth < b.columns.len() {
                lemma_resort(b, depth, SortPreference { direction, ..b.columns[depth].sort });
            }
        },
        Command::SetFoldersFirst { depth, folders_first } => {
            if 0 <= depth < b.columns.len() {
                lemma_resort(b, depth, SortPreference { folders_first, ..b.columns[depth].sort });
            }
        },
        Command::DirectoryChanged { id, change } => {
            lemma_changed_well_formed(b, id, change);
        },
        Command::SetSelection { depth, positions, focused } => {
            lemma_set_selection_well_formed(b, depth, positions, focused);
        },
        Command::Select { depth, position } => {
            lemma_chosen(b, depth, position);
        },
        Command::Preview { depth, position } => {
            lemma_chosen(b, depth, position);
        },
        Command::Activate { depth, position } => {
            lemma_chosen(b, depth, position);
        },
        Command::ActivateFocused => {
            let depth = b.columns.len() - 1;
            if let Some(position) = b.columns[depth].focused_position() {
                lemma_chosen(b, depth, position);
            }
        },
        Command::MoveSelection { delta } => {
            let depth = b.columns.len() - 1;
            lemma_chosen(b, depth, moved_position(b.columns[depth], delta));
        },
        Command::FocusActive => {},
        Command::Rename { entry, new_name } => {
            lemma_operations_well_formed(b);
        },
        Command::CreateDirectory { parent, name } => {
            lemma_operations_well_formed(b);
        },
        Command::Transfer { destination, sources, move_sources } => {
            lemma_operations_well_formed(b);
        },
        Command::Delete { entries, permanent } => {
            lemma_operations_well_formed(b);
        },
        Command::EmptyTrash => {
            lemma_operations_well_formed(b);
        },
        Command::OperationEnded { event } => {
            lemma_operations_well_formed(b);
        },
    }
}

proof fn lemma_operations_well_formed(b: BrowserState)
    requires
        well_formed(b),
    ensures
        well_formed(numbered(b)),
        well_formed(BrowserState { renaming: Some(b.next_id), ..numbered(b) }),
        well_formed(BrowserState { renaming: None, ..b }),
{
    reveal(well_formed);
}

proof fn lemma_set_selection_well_formed(
    b: BrowserState,
    depth: int,
    positions: Seq<int>,
    focused: Option<int>,
)
    requires
        well_formed(b),
    ensures
        well_formed(set_selection(b, depth, positions, focused)),
{
    if 0 <= depth < b.columns.len() {
        reveal(well_formed);
        let column = b.columns[depth];
        lemma_with_column(
            b,
            depth,
            ColumnState {
                selected: places_at(column.entries, positions),
                focused: place_at(column.entries, focused),
                ..column
            },
        );
    }
}

proof fn lemma_navigate_well_formed(b: BrowserState, location: LocationView)
    requires
        well_formed(b),
    ensures
        well_formed(navigate(b, location).browser),
{
    reveal(well_formed);
    lemma_remember(b);
    let f = drop_peek(start(remember(b)));
    lemma_close_from(f, 0);
    lemma_open_column(close_from(f, 0).tell(EventView::Reset), location);
}

proof fn lemma_resort(b: BrowserState, depth: int, sort: SortPreference)
    requires
        well_formed(b),
        0 <= depth < b.columns.len(),
    ensures
        well_formed(resort(b, depth, sort).browser),
{
    reveal(well_formed);
    let column = b.columns[depth];
    lemma_sorted(sort, column.entries);
    lemma_with_column(
        b,
        depth,
        ColumnState { sort, entries: sorted(sort, column.entries), ..column },
    );
}

proof fn lemma_chosen(b: BrowserState, depth: int, position: int)
    requires
        well_formed(b),
    ensures
        has_entry(b, depth, position) ==> well_formed(chosen(b, depth, position)),
{
    reveal(well_formed);
    if has_entry(b, depth, position) {
        lemma_with_column(b, depth, b.columns[depth].choosing(position));
    }
}

/// A browser that has opened nothing is well formed.
pub proof fn lemma_initial_well_formed()
    ensures
        well_formed(initial()),
{
    reveal(well_formed);
}

/// Whether the state still waits for what the listing with this number delivers.
pub open spec fn awaits(b: BrowserState, id: int) -> bool {
    loading_column(b, id) is Some || peek_loads(b, id)
}

/// What a listing delivers that is no longer awaited changes nothing and is not told.
pub proof fn lemma_stale_results_are_rejected(
    b: BrowserState,
    id: int,
    batch: Seq<FileEntryView>,
    message: Seq<char>,
)
    requires
        !awaits(b, id),
    ensures
        batch_arrived(b, id, batch) == start(b),
        load_finished(b, id) == start(b),
        load_failed(b, id, message) == start(b),
{
}

/// Navigating away leaves no earlier listing awaited, and asks to cancel each one that was
/// still running.
pub proof fn lemma_navigating_away(b: BrowserState, location: LocationView, id: int)
    requires
        well_formed(b),
        id < b.next_id,
    ensures
        !awaits(navigate(b, location).browser, id),
        awaits(b, id) ==> navigate(b, location).requests.contains(RequestView::CancelLoad { id }),
{
    reveal(well_formed);
    let f = drop_peek(start(remember(b)));
    let closed = close_from(f, 0);
    let done = navigate(b, location);
    let columns = done.browser.columns;
    assert(columns =~= seq![fresh_column(location, b.next_id)]);
    lemma_column_from(columns, id, 0);
    if awaits(b, id) {
        lemma_column_from(b.columns, id, 0);
        if let Some(depth) = loading_column(b, id) {
            assert(f.browser.columns.skip(0) =~= b.columns);
            lemma_closing_cancels(b.columns, depth);
            let k = choose|k: int|
                0 <= k < closing_all(b.columns).len() && closing_all(b.columns)[k]
                    == RequestView::CancelLoad { id };
            assert(closed.requests[f.requests.len() + k] == RequestView::CancelLoad { id });
            assert(done.requests[f.requests.len() + k] == RequestView::CancelLoad { id });
        } else {
            assert(f.requests[0] == RequestView::CancelLoad { id });
            assert(done.requests[0] == RequestView::CancelLoad { id });
        }
    }
}

proof fn lemma_closing_cancels(columns: Seq<ColumnState>, depth: int)
    requires
        0 <= depth < columns.len(),
        columns[depth].loading,
    ensures
        closing_all(columns).contains(RequestView::CancelLoad { id: columns[depth].id }),
    decreases columns.len(),
{
    let wanted = RequestView::CancelLoad { id: columns[depth].id };
    let before = closing_all(columns.drop_last());
    let all = closing_all(columns);
    if depth == columns.len() - 1 {
        assert(all[before.len() as int] == wanted);
    } else {
        lemma_closing_cancels(columns.drop_last(), depth);
        let k = choose|k: int| 0 <= k < before.len() && before[k] == wanted;
        assert(all[k] == wanted);
    }
}

/// Peeking touches neither the columns nor the history: not when a peek begins, nor when it is
/// filled, nor when it ends.
pub proof fn lemma_peeking_is_not_navigating(
    b: BrowserState,
    origin: int,
    location: LocationView,
    id: int,
    batch: Seq<FileEntryView>,
    message: Seq<char>,
)
    requires
        loading_column(b, id) is None,
    ensures
        ({
            let results = seq![
                begin_peek(b, origin, location),
                end_peek(start(b)),
                commit_peek(b),
                batch_arrived(b, id, batch),
                load_finished(b, id),
                load_failed(b, id, message),
            ];
            forall|k: int|
                0 <= k < results.len() ==> (#[trigger] results[k]).browser.columns == b.columns
                    && results[k].browser.history == b.history
        }),
{
}

/// Where a directory cannot be opened, nothing changes, and the user is told.
pub proof fn lemma_rejection_preserves_state(
    b: BrowserState,
    depth: int,
    location: LocationView,
    error: LocationValidationError,
)
    ensures
        descend(b, depth, location, Err(error)).browser == b,
        0 <= depth < b.columns.len() ==> descend(b, depth, location, Err(error)).events == seq![
            EventView::NavigationRejected {
                message: crate::names::location_error_text(error),
            },
        ],
        navigate_typed(b, location, Err(error)) == start(b),
{
    assert(descend(b, depth, location, Err(error)).events =~= if 0 <= depth < b.columns.len() {
        seq![
            EventView::NavigationRejected { message: crate::names::location_error_text(error) },
        ]
    } else {
        Seq::empty()
    });
}

/// Going back leads to the columns that were open before: after opening a place, and after
/// opening a folder in a column behind.
pub proof fn lemma_back_returns(b: BrowserState, depth: int, location: LocationView)
    requires
        well_formed(b),
        b.columns.len() > 0,
        0 <= depth < b.columns.len(),
    ensures
        path(back(navigate(b, location).browser).browser.columns) == path(b.columns),
        back(navigate(b, location).browser).browser.history == b.history,
        path(back(descend(b, depth, location, Ok(())).browser).browser.columns) == path(b.columns),
        back(descend(b, depth, location, Ok(())).browser).browser.history == b.history,
{
    lemma_navigate_well_formed(b, location);
    lemma_descend_well_formed(b, depth, location, Ok(()));
    lemma_back_restores(navigate(b, location).browser, path(b.columns), b.history);
    lemma_back_restores(
        descend(b, depth, location, Ok(())).browser,
        path(b.columns),
        b.history,
    );
}

proof fn lemma_back_restores(
    b: BrowserState,
    places: Seq<LocationView>,
    history: Seq<Seq<LocationView>>,
)
    requires
        well_formed(b),
        b.history == history.push(places),
    ensures
        path(back(b).browser.columns) == places,
        back(b).browser.history == history,
{
    reveal(well_formed);
    let older = BrowserState { history: b.history.drop_last(), ..b };
    let f = drop_peek(start(older));
    lemma_close_from(f, 0);
    let cleared = close_from(f, 0).tell(EventView::Reset);
    lemma_open_columns(cleared, places);
    assert(b.history.drop_last() =~= history);
    assert(path(cleared.browser.columns) + places =~= places);
}

/// Listing a column again rewrites no history and resets nothing: the same places stay open,
/// and the other columns stay as they are. The selection stays, too.
pub proof fn lemma_retry_keeps_navigation(b: BrowserState, depth: int)
    ensures
        ({
            let done = retry_column(b, depth);
            &&& done.browser.history == b.history
            &&& path(done.browser.columns) == path(b.columns)
            &&& !done.events.contains(EventView::Reset)
            &&& forall|i: int|
                0 <= i < b.columns.len() && i != depth ==> done.browser.columns[i] == b.columns[i]
            &&& 0 <= depth < b.columns.len() ==> {
                &&& done.events.contains(EventView::ColumnReloaded { depth })
                &&& done.browser.columns[depth].selected == b.columns[depth].selected
                &&& done.browser.columns[depth].focused == b.columns[depth].focused
            }
        }),
{
    let done = retry_column(b, depth);
    assert(path(done.browser.columns) =~= path(b.columns));
    if 0 <= depth < b.columns.len() {
        assert(done.events =~= seq![EventView::ColumnReloaded { depth }]);
        assert(done.events[0] == EventView::ColumnReloaded { depth });
    }
}

/// Showing hidden entries and hiding them again leaves the preference as it was. The same
/// places stay open, and the history stays as it is.
pub proof fn lemma_toggling_hidden(b: BrowserState)
    requires
        well_formed(b),
    ensures
        toggle_hidden(b).browser.include_hidden == !b.include_hidden,
        toggle_hidden(toggle_hidden(b).browser).browser.include_hidden == b.include_hidden,
        path(toggle_hidden(b).browser.columns) == path(b.columns),
        toggle_hidden(b).browser.history == b.history,
        forall|i: int|
            0 <= i < b.columns.len() ==> (#[trigger] toggle_hidden(b).browser.columns[i]).selected
                == b.columns[i].selected && toggle_hidden(b).browser.columns[i].focused
                == b.columns[i].focused,
{
    reveal(well_formed);
    let flipped = BrowserState { include_hidden: !b.include_hidden, ..b };
    lemma_reload_first(start(flipped), b.columns.len() as int);
    let once = toggle_hidden(b).browser;
    let again = BrowserState { include_hidden: !once.include_hidden, ..once };
    lemma_reload_first(start(again), once.columns.len() as int);
}

} // verus!
