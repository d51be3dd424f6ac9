//! What is on the screen, and what each event and each gesture does to it.
use vstd::prelude::*;

use crate::dialogs::COLUMN_WIDTH;
use crate::entry::FileEntryView;
use crate::event::{position_of, positions_of, EventView, RequestView, SpliceView};
use crate::labels::placeholder;
use crate::location_bar::{crumbs, crumbs_of, Crumb, CrumbView};
use crate::model::{name_text, path_text, Location, LocationView};
use crate::presentation::{
    fresh_presentation, unreadable, LoadPresentation, PeekBehavior, PresentationView,
};
use crate::rows::{appended, filtered_position, fitting, rows_of, source_position, texts_of};
use crate::sort_menu::{fresh_menu, SortMarks, SortMenu};
use crate::sorting::{spliced, InsertionView};
use crate::state;
use crate::state::{BrowserState, Flow};

verus! {

/// One thing to do on the screen.
#[derive(Debug)]
pub enum ViewAction {
    /// Take the columns behind the first `len` away.
    RemoveColumns { len: usize },
    /// Set up one more column. The first one cannot be closed.
    /// Set up a column. It has its width from the start, whatever moves in afterwards.
    AddColumn {
        depth: usize,
        location: Location,
        heading: String,
        closable: bool,
        width: i32,
        placeholder: String,
    },
    /// Bring a column into sight.
    RevealColumn { depth: usize },
    /// Show the location as a trail.
    ShowLocation { text: String, crumbs: Vec<Crumb> },
    /// Put a text where a location is typed.
    SetLocationText { text: String },
    /// Show the trail in the place of the typed location.
    ShowTrail,
    /// Let a location be typed, with all of the text selected.
    EditLocation,
    ShowLocationError { message: String },
    ClearLocationError,
    SpliceRows { depth: usize, position: usize, removed: usize, rows: Vec<String> },
    SetFilterPlaceholder { depth: usize, text: String },
    /// Reveal the filter of a column and give it the focus.
    ShowFilter { depth: usize },
    /// Take the filter of a column away and clear it.
    HideFilter { depth: usize },
    Present { depth: usize, presentation: LoadPresentation },
    SetBusy { depth: usize, busy: bool },
    /// Select exactly these rows of the filtered list.
    SelectRows { depth: usize, positions: Vec<usize> },
    SelectAllRows { depth: usize },
    /// Bring a row of the filtered list into sight and give it the focus.
    FocusRow { depth: usize, row: usize },
    FocusColumn { depth: usize },
    /// Mark the row behind which the next column opens.
    MarkActiveRow { depth: usize, active: Option<usize> },
    ShowPeek { location: Location, heading: String },
    AppendPeekRows { rows: Vec<String> },
    PresentPeek { presentation: LoadPresentation },
    SetPeekBusy { busy: bool },
    ClosePeek,
    StartPeekTimer { delay: u64 },
    StopPeekTimer,
    StartCloseTimer { delay: u64 },
    StopCloseTimer,
    OpenFile { location: Location },
    /// Let the name in a row be edited, with its first characters selected.
    EditName { depth: usize, row: usize, name: String, selected: i32 },
    /// Wait for the end of a rename.
    LockName,
    /// Tell what is wrong with a name, and let it be edited further.
    RejectName { message: String },
    EndEditName,
    EditNewFolder { depth: usize },
    EndEditNewFolder { depth: usize },
    MarkSort { depth: usize, marks: SortMarks },
    ShowError { message: String, detail: String },
}

/// What a thing to do holds.
#[verifier::ext_equal]
pub enum ViewActionView {
    RemoveColumns { len: int },
    AddColumn {
        depth: int,
        location: LocationView,
        heading: Seq<char>,
        closable: bool,
        width: int,
        placeholder: Seq<char>,
    },
    RevealColumn { depth: int },
    ShowLocation { text: Seq<char>, crumbs: Seq<CrumbView> },
    SetLocationText { text: Seq<char> },
    ShowTrail,
    EditLocation,
    ShowLocationError { message: Seq<char> },
    ClearLocationError,
    SpliceRows { depth: int, position: int, removed: int, rows: Seq<Seq<char>> },
    SetFilterPlaceholder { depth: int, text: Seq<char> },
    ShowFilter { depth: int },
    HideFilter { depth: int },
    Present { depth: int, presentation: PresentationView },
    SetBusy { depth: int, busy: bool },
    SelectRows { depth: int, positions: Seq<int> },
    SelectAllRows { depth: int },
    FocusRow { depth: int, row: int },
    FocusColumn { depth: int },
    MarkActiveRow { depth: int, active: Option<int> },
    ShowPeek { location: LocationView, heading: Seq<char> },
    AppendPeekRows { rows: Seq<Seq<char>> },
    PresentPeek { presentation: PresentationView },
    SetPeekBusy { busy: bool },
    ClosePeek,
    StartPeekTimer { delay: int },
    StopPeekTimer,
    StartCloseTimer { delay: int },
    StopCloseTimer,
    OpenFile { location: LocationView },
    EditName { depth: int, row: int, name: Seq<char>, selected: int },
    LockName,
    RejectName { message: Seq<char> },
    EndEditName,
    EditNewFolder { depth: int },
    EndEditNewFolder { depth: int },
    MarkSort { depth: int, marks: SortMarks },
    ShowError { message: Seq<char>, detail: Seq<char> },
}

impl View for ViewAction {
    type V = ViewActionView;

    open spec fn view(&self) -> ViewActionView {
        match self {
            ViewAction::RemoveColumns { len } => ViewActionView::RemoveColumns { len: *len as int },
            ViewAction::AddColumn { depth, location, heading, closable, width, placeholder } => {
                ViewActionView::AddColumn {
                    depth: *depth as int,
                    location: location@,
                    heading: heading@,
                    closable: *closable,
                    width: *width as int,
                    placeholder: placeholder@,
                }
            },
            ViewAction::RevealColumn { depth } => ViewActionView::RevealColumn {
                depth: *depth as int,
            },
            ViewAction::ShowLocation { text, crumbs } => ViewActionView::ShowLocation {
                text: text@,
                crumbs: crumbs_of(crumbs@),
            },
            ViewAction::SetLocationText { text } => ViewActionView::SetLocationText { text: text@ },
            ViewAction::ShowTrail => ViewActionView::ShowTrail,
            ViewAction::EditLocation => ViewActionView::EditLocation,
            ViewAction::ShowLocationError { message } => ViewActionView::ShowLocationError {
                message: message@,
            },
            ViewAction::ClearLocationError => ViewActionView::ClearLocationError,
            ViewAction::SpliceRows { depth, position, removed, rows } => ViewActionView::SpliceRows {
                depth: *depth as int,
                position: *position as int,
                removed: *removed as int,
                rows: texts_of(rows@),
            },
            ViewAction::SetFilterPlaceholder { depth, text } => {
                ViewActionView::SetFilterPlaceholder { depth: *depth as int, text: text@ }
            },
            ViewAction::ShowFilter { depth } => ViewActionView::ShowFilter { depth: *depth as int },
            ViewAction::HideFilter { depth } => ViewActionView::HideFilter { depth: *depth as int },
            ViewAction::Present { depth, presentation } => ViewActionView::Present {
                depth: *depth as int,
                presentation: presentation@,
            },
            ViewAction::SetBusy { depth, busy } => ViewActionView::SetBusy {
                depth: *depth as int,
                busy: *busy,
            },
            ViewAction::SelectRows { depth, positions } => ViewActionView::SelectRows {
                depth: *depth as int,
                positions: positions_of(positions@),
            },
            ViewAction::SelectAllRows { depth } => ViewActionView::SelectAllRows {
                depth: *depth as int,
            },
            ViewAction::FocusRow { depth, row } => ViewActionView::FocusRow {
                depth: *depth as int,
                row: *row as int,
            },
            ViewAction::FocusColumn { depth } => ViewActionView::FocusColumn {
                depth: *depth as int,
            },
            ViewAction::MarkActiveRow { depth, active } => ViewActionView::MarkActiveRow {
                depth: *depth as int,
                active: position_of(*active),
            },
            ViewAction::ShowPeek { location, heading } => ViewActionView::ShowPeek {
                location: location@,
                heading: heading@,
            },
            ViewAction::AppendPeekRows { rows } => ViewActionView::AppendPeekRows {
                rows: texts_of(rows@),
            },
            ViewAction::PresentPeek { presentation } => ViewActionView::PresentPeek {
                presentation: presentation@,
            },
            ViewAction::SetPeekBusy { busy } => ViewActionView::SetPeekBusy { busy: *busy },
            ViewAction::ClosePeek => ViewActionView::ClosePeek,
            ViewAction::StartPeekTimer { delay } => ViewActionView::StartPeekTimer {
                delay: *delay as int,
            },
            ViewAction::StopPeekTimer => ViewActionView::StopPeekTimer,
            ViewAction::StartCloseTimer { delay } => ViewActionView::StartCloseTimer {
                delay: *delay as int,
            },
            ViewAction::StopCloseTimer => ViewActionView::StopCloseTimer,
            ViewAction::OpenFile { location } => ViewActionView::OpenFile { location: location@ },
            ViewAction::EditName { depth, row, name, selected } => ViewActionView::EditName {
                depth: *depth as int,
                row: *row as int,
                name: name@,
                selected: *selected as int,
            },
            ViewAction::LockName => ViewActionView::LockName,
            ViewAction::RejectName { message } => ViewActionView::RejectName { message: message@ },
            ViewAction::EndEditName => ViewActionView::EndEditName,
            ViewAction::EditNewFolder { depth } => ViewActionView::EditNewFolder {
                depth: *depth as int,
            },
            ViewAction::EndEditNewFolder { depth } => ViewActionView::EndEditNewFolder {
                depth: *depth as int,
            },
            ViewAction::MarkSort { depth, marks } => ViewActionView::MarkSort {
                depth: *depth as int,
                marks: *marks,
            },
            ViewAction::ShowError { message, detail } => ViewActionView::ShowError {
                message: message@,
                detail: detail@,
            },
        }
    }
}

/// The views of a list of things to do.
pub open spec fn actions_of(actions: Seq<ViewAction>) -> Seq<ViewActionView> {
    actions.map_values(|action: ViewAction| action@)
}

/// A column on the screen.
#[verifier::ext_equal]
pub struct ColumnScreen {
    pub location: LocationView,
    pub rows: Seq<Seq<char>>,
    /// How many entries the events have told of. These are as many as there are rows, unless an event
    /// named a range that is not there.
    pub count: int,
    /// What stands in the filter while nothing is typed there.
    pub placeholder: Seq<char>,
    /// What the filter goes by.
    pub query: Seq<char>,
    pub presentation: PresentationView,
    pub busy: bool,
    /// The row of the filtered list that was selected last.
    pub focused: Option<int>,
    /// The row of the filtered list from which a range is selected.
    pub anchor: Option<usize>,
    /// The entry that the menu of the column is for.
    pub target: Option<(int, FileEntryView)>,
    /// What has been chosen in the menu by which the column is sorted.
    pub sort_menu: SortMenu,
}

/// A peek on the screen.
#[verifier::ext_equal]
pub struct PeekScreen {
    pub location: LocationView,
    pub rows: Seq<Seq<char>>,
    pub presentation: PresentationView,
    pub busy: bool,
}

/// What is on the screen.
#[verifier::ext_equal]
pub struct ViewState {
    pub columns: Seq<ColumnScreen>,
    pub peek: Option<PeekScreen>,
    /// The peek that opens once the pointer has rested long enough.
    pub pending_peek: Option<(int, LocationView)>,
    /// Whether the peek closes once the pointer has been away long enough.
    pub pending_close: bool,
    /// Whether there is a row beside which a peek can open.
    pub anchored: bool,
    pub peek_enabled: bool,
    /// The entry whose name is edited.
    pub renaming: Option<FileEntryView>,
    /// The column and the place of a folder that is to be made.
    pub new_folder: Option<(int, LocationView)>,
    pub behavior: PeekBehavior,
    pub home: LocationView,
}

/// A browser and what is on the screen, with what is to be done so far.
#[verifier::ext_equal]
pub struct Scene {
    pub browser: BrowserState,
    pub view: ViewState,
    pub actions: Seq<ViewActionView>,
    pub requests: Seq<RequestView>,
}

/// A screen with nothing on it.
pub open spec fn blank(home: LocationView, behavior: PeekBehavior) -> ViewState {
    ViewState {
        columns: Seq::empty(),
        peek: None,
        pending_peek: None,
        pending_close: false,
        anchored: false,
        peek_enabled: true,
        renaming: None,
        new_folder: None,
        behavior,
        home,
    }
}

/// A column that has just been set up.
pub open spec fn fresh_column(location: LocationView) -> ColumnScreen {
    ColumnScreen {
        location,
        rows: Seq::empty(),
        count: 0,
        placeholder: placeholder(0),
        query: Seq::empty(),
        presentation: fresh_presentation(true),
        busy: true,
        focused: None,
        anchor: None,
        target: None,
        sort_menu: fresh_menu(),
    }
}

impl Scene {
    /// One more thing to do.
    pub open spec fn act(self, action: ViewActionView) -> Scene {
        Scene { actions: self.actions.push(action), ..self }
    }

    /// The same things to do, another screen.
    pub open spec fn with(self, view: ViewState) -> Scene {
        Scene { view, ..self }
    }

    /// The screen with another column at `depth`.
    pub open spec fn with_column(self, depth: int, column: ColumnScreen) -> Scene {
        self.with(ViewState { columns: self.view.columns.update(depth, column), ..self.view })
    }

    /// Whether there is a column at `depth` on the screen.
    pub open spec fn has_column(self, depth: int) -> bool {
        0 <= depth < self.view.columns.len()
    }
}

impl ColumnScreen {
    /// The row behind a row of the filtered list.
    pub open spec fn source(self, row: int) -> Option<int> {
        source_position(self.rows, self.query, row)
    }

    /// The row of the filtered list that shows a row.
    pub open spec fn shown(self, row: int) -> Option<int> {
        filtered_position(self.rows, self.query, row)
    }

    /// The row of the filtered list that shows a row, where there is one.
    pub open spec fn shown_of(self, row: Option<int>) -> Option<int> {
        match row {
            Some(at) => self.shown(at),
            None => None,
        }
    }

    /// The rows behind those rows of the filtered list that exist.
    pub open spec fn sources(self, rows: Seq<int>) -> Seq<int>
        decreases rows.len(),
    {
        if rows.len() == 0 {
            Seq::empty()
        } else {
            let before = self.sources(rows.drop_last());
            match self.source(rows.last()) {
                Some(row) => before.push(row),
                None => before,
            }
        }
    }

    /// The rows of the filtered list that show those rows that the filter shows.
    pub open spec fn shown_all(self, rows: Seq<int>) -> Seq<int>
        decreases rows.len(),
    {
        if rows.len() == 0 {
            Seq::empty()
        } else {
            let before = self.shown_all(rows.drop_last());
            match self.shown(rows.last()) {
                Some(row) => before.push(row),
                None => before,
            }
        }
    }
}

// What the parts of a gesture do.

/// Gives up a peek that has not opened yet.
pub open spec fn stop_peek_timer(s: Scene) -> Scene {
    if s.view.pending_peek is Some {
        s.with(ViewState { pending_peek: None, ..s.view }).act(ViewActionView::StopPeekTimer)
    } else {
        s
    }
}

/// Lets a peek stay that would have closed.
pub open spec fn stop_close_timer(s: Scene) -> Scene {
    if s.view.pending_close {
        s.with(ViewState { pending_close: false, ..s.view }).act(ViewActionView::StopCloseTimer)
    } else {
        s
    }
}

/// Takes a peek off the screen.
#[verifier::opaque]
pub open spec fn close_peek_visual(s: Scene) -> Scene {
    let t = stop_close_timer(stop_peek_timer(s));
    if t.view.peek is Some {
        t.with(ViewState { peek: None, ..t.view }).act(ViewActionView::ClosePeek)
    } else {
        t
    }
}

/// Stops editing a name.
#[verifier::opaque]
pub open spec fn cancel_rename(s: Scene) -> Scene {
    if s.view.renaming is Some {
        s.with(ViewState { renaming: None, ..s.view }).act(ViewActionView::EndEditName)
    } else {
        s
    }
}

/// Gives up a folder that was to be made.
pub open spec fn cancel_new_folder(s: Scene) -> Scene {
    match s.view.new_folder {
        Some((depth, _)) => s.with(ViewState { new_folder: None, ..s.view }).act(
            ViewActionView::EndEditNewFolder { depth },
        ),
        None => s,
    }
}

/// Takes the columns behind the first `len` off the screen, with all that belongs to them.
#[verifier::opaque]
pub open spec fn truncate(s: Scene, len: int) -> Scene {
    let t = cancel_new_folder(cancel_rename(close_peek_visual(s)));
    let u = if 0 <= len < t.view.columns.len() {
        t.with(ViewState { columns: t.view.columns.take(len), ..t.view }).act(
            ViewActionView::RemoveColumns { len },
        )
    } else {
        t
    };
    if u.view.columns.len() > 0 {
        u.act(ViewActionView::RevealColumn { depth: u.view.columns.len() - 1 })
    } else {
        u
    }
}

/// Shows a location as a trail.
#[verifier::opaque]
pub open spec fn set_location(s: Scene, location: LocationView) -> Scene {
    s.act(
        ViewActionView::ShowLocation {
            text: path_text(location),
            crumbs: crumbs(location, s.view.home),
        },
    )
}

/// Shows the location of the last column as a trail.
#[verifier::opaque]
pub open spec fn sync_active_location(s: Scene) -> Scene {
    match state::active_location(s.browser) {
        Some(location) => set_location(s, location),
        None => s,
    }
}

/// The row to mark in the column at `depth`.
pub open spec fn active_row(s: Scene, depth: int) -> Option<int> {
    s.view.columns[depth].shown_of(state::active_child_position(s.browser, depth))
}

/// Marks the active rows of the first `count` columns.
pub open spec fn mark_first(s: Scene, count: int) -> Scene
    decreases count,
{
    if count <= 0 {
        s
    } else {
        let before = mark_first(s, count - 1);
        before.act(
            ViewActionView::MarkActiveRow { depth: count - 1, active: active_row(s, count - 1) },
        )
    }
}

/// Marks in each column the row behind which the next column opens.
#[verifier::opaque]
pub open spec fn refresh_active_path_rows(s: Scene) -> Scene {
    mark_first(s, s.view.columns.len() as int)
}

/// Sets up one more column.
#[verifier::opaque]
pub open spec fn append_column(s: Scene, depth: int, location: LocationView) -> Scene {
    let added = s.with(
        ViewState { columns: s.view.columns.push(fresh_column(location)), ..s.view },
    ).act(
        ViewActionView::AddColumn {
            depth,
            location,
            heading: name_text(location),
            closable: depth > 0,
            width: COLUMN_WIDTH as int,
            placeholder: placeholder(0),
        },
    );
    refresh_active_path_rows(added).act(
        ViewActionView::RevealColumn { depth: s.view.columns.len() as int },
    )
}

/// Shows a column in another way.
pub open spec fn present(s: Scene, depth: int, presentation: PresentationView) -> Scene {
    s.with_column(depth, ColumnScreen { presentation, ..s.view.columns[depth] }).act(
        ViewActionView::Present { depth, presentation },
    )
}

/// Tells whether a column is being filled.
pub open spec fn set_busy(s: Scene, depth: int, busy: bool) -> Scene {
    s.with_column(depth, ColumnScreen { busy, ..s.view.columns[depth] }).act(
        ViewActionView::SetBusy { depth, busy },
    )
}

/// Replaces rows of a column.
pub open spec fn splice_rows(
    s: Scene,
    depth: int,
    position: int,
    removed: int,
    rows: Seq<Seq<char>>,
) -> Scene {
    let column = s.view.columns[depth];
    s.with_column(
        depth,
        ColumnScreen { rows: spliced(column.rows, position, removed, rows), ..column },
    ).act(ViewActionView::SpliceRows { depth, position, removed, rows })
}

/// The largest number that is counted to.
pub open spec fn capped(count: int) -> int {
    if count <= usize::MAX {
        count
    } else {
        usize::MAX as int
    }
}

/// Takes down how many entries a column has, and says so where its filter is empty.
pub open spec fn set_count(s: Scene, depth: int, count: int) -> Scene {
    let text = placeholder(count as nat);
    s.with_column(
        depth,
        ColumnScreen { count, placeholder: text, ..s.view.columns[depth] },
    ).act(ViewActionView::SetFilterPlaceholder { depth, text })
}

/// Puts runs of rows into a column.
pub open spec fn insert_runs(s: Scene, depth: int, insertions: Seq<InsertionView>) -> Scene
    decreases insertions.len(),
{
    if insertions.len() == 0 {
        s
    } else {
        insert_runs(
            splice_rows(s, depth, insertions[0].position, 0, rows_of(insertions[0].entries)),
            depth,
            insertions.drop_first(),
        )
    }
}

/// How many entries there are in all runs.
pub open spec fn run_total(insertions: Seq<InsertionView>) -> nat
    decreases insertions.len(),
{
    if insertions.len() == 0 {
        0
    } else {
        run_total(insertions.drop_last()) + insertions.last().entries.len()
    }
}

/// How many entries there are once ranges have been replaced.
pub open spec fn count_after(count: int, splices: Seq<SpliceView>) -> int
    decreases splices.len(),
{
    if splices.len() == 0 {
        count
    } else {
        let before = count_after(count, splices.drop_last());
        let last = splices.last();
        let left = if last.removed <= before {
            before - last.removed
        } else {
            0
        };
        capped(left + last.entries.len())
    }
}

/// Replaces ranges of rows of a column.
pub open spec fn replace_ranges(s: Scene, depth: int, splices: Seq<SpliceView>) -> Scene
    decreases splices.len(),
{
    if splices.len() == 0 {
        s
    } else {
        let before = replace_ranges(s, depth, splices.drop_last());
        splice_rows(
            before,
            depth,
            splices.last().position,
            splices.last().removed,
            rows_of(splices.last().entries),
        )
    }
}

/// Gives a column the focus, and one of its rows, where the filter shows it.
#[verifier::opaque]
pub open spec fn focus_shown(s: Scene, depth: int, position: Option<int>) -> Scene {
    match s.view.columns[depth].shown_of(position) {
        Some(row) => s.act(ViewActionView::SelectRows { depth, positions: seq![row] }).act(
            ViewActionView::FocusRow { depth, row },
        ),
        None => s,
    }.act(ViewActionView::FocusColumn { depth })
}

/// Gives the last column the focus.
#[verifier::opaque]
pub open spec fn focus_active(s: Scene) -> Scene {
    match state::active_depth(s.browser) {
        Some(depth) => refresh_active_path_rows(
            if s.has_column(depth) {
                focus_shown(s, depth, s.browser.columns[depth].focused_position())
            } else {
                s
            },
        ),
        None => s,
    }
}

/// Ends the peek of the browser, and takes it off the screen.
#[verifier::opaque]
pub open spec fn end_peek(s: Scene) -> Scene {
    let f = state::end_peek(state::start(s.browser));
    let t = Scene { browser: f.browser, requests: s.requests + f.requests, ..s };
    if s.browser.peek is Some {
        refresh_active_path_rows(close_peek_visual(t))
    } else {
        t
    }
}

/// Sets up a peek beside the row that the pointer rests on. Where there is no such row, the peek
/// ends.
#[verifier::opaque]
pub open spec fn append_peek(s: Scene, location: LocationView) -> Scene {
    let t = close_peek_visual(s.with(ViewState { anchored: false, ..s.view }));
    if s.view.anchored {
        t.with(
            ViewState {
                peek: Some(
                    PeekScreen {
                        location,
                        rows: Seq::empty(),
                        presentation: fresh_presentation(false),
                        busy: true,
                    },
                ),
                ..t.view
            },
        ).act(ViewActionView::ShowPeek { location, heading: name_text(location) })
    } else {
        end_peek(t)
    }
}

/// Shows the peek in another way.
pub open spec fn present_peek(s: Scene, presentation: PresentationView) -> Scene {
    s.with(
        ViewState { peek: Some(PeekScreen { presentation, ..s.view.peek->0 }), ..s.view },
    ).act(ViewActionView::PresentPeek { presentation })
}

/// Tells that the peek is filled no further.
pub open spec fn peek_idle(s: Scene) -> Scene {
    s.with(
        ViewState { peek: Some(PeekScreen { busy: false, ..s.view.peek->0 }), ..s.view },
    ).act(ViewActionView::SetPeekBusy { busy: false })
}

/// Puts as many entries into the peek as fit.
pub open spec fn append_entries(s: Scene, entries: Seq<FileEntryView>) -> Scene {
    let peek = s.view.peek->0;
    let limit = Some(s.view.behavior.item_limit as int);
    let taken = entries.take(fitting(entries.len() as int, peek.rows.len() as int, limit));
    s.with(
        ViewState {
            peek: Some(PeekScreen { rows: appended(peek.rows, entries, limit), ..peek }),
            ..s.view
        },
    ).act(ViewActionView::AppendPeekRows { rows: rows_of(taken) })
}

// What events do.

/// Takes in runs of entries.
#[verifier::opaque]
pub open spec fn entries_inserted(s: Scene, depth: int, insertions: Seq<InsertionView>) -> Scene {
    let shown = if run_total(insertions) > 0 {
        present(s, depth, s.view.columns[depth].presentation.content())
    } else {
        s
    };
    set_count(
        insert_runs(shown, depth, insertions),
        depth,
        capped(s.view.columns[depth].count + run_total(insertions)),
    )
}

/// Takes in other entries in the place of all.
#[verifier::opaque]
pub open spec fn entries_replaced(s: Scene, depth: int, entries: Seq<FileEntryView>) -> Scene {
    let shown = if entries.len() > 0 {
        present(s, depth, s.view.columns[depth].presentation.content())
    } else {
        s
    };
    let replaced = splice_rows(
        shown,
        depth,
        0,
        shown.view.columns[depth].rows.len() as int,
        rows_of(entries),
    );
    set_count(replaced, depth, entries.len() as int)
}

/// Takes in ranges of entries. The row that has the focus is selected, or none.
#[verifier::opaque]
pub open spec fn entries_spliced(
    s: Scene,
    depth: int,
    splices: Seq<SpliceView>,
    selected: Option<int>,
) -> Scene {
    let t = set_count(
        replace_ranges(s, depth, splices),
        depth,
        count_after(s.view.columns[depth].count, splices),
    );
    let column = t.view.columns[depth];
    let rows = match column.shown_of(selected) {
        Some(row) => seq![row],
        None => Seq::empty(),
    };
    let u = t.act(ViewActionView::SelectRows { depth, positions: rows });
    present(u, depth, column.presentation.finished(column.count))
}

/// Empties a column that is listed anew.
#[verifier::opaque]
pub open spec fn column_reloaded(s: Scene, depth: int) -> Scene {
    let t = set_count(
        splice_rows(s, depth, 0, s.view.columns[depth].rows.len() as int, Seq::empty()),
        depth,
        0,
    );
    let u = set_busy(t, depth, true);
    present(u, depth, u.view.columns[depth].presentation.loading())
}

/// Takes in that a column is filled.
#[verifier::opaque]
pub open spec fn load_finished(s: Scene, depth: int) -> Scene {
    let t = set_busy(s, depth, false);
    let column = t.view.columns[depth];
    present(t, depth, column.presentation.finished(column.count))
}

/// Takes in that a column cannot be filled.
#[verifier::opaque]
pub open spec fn load_failed(s: Scene, depth: int, message: Seq<char>) -> Scene {
    let t = set_busy(s, depth, false);
    present(t, depth, t.view.columns[depth].presentation.failed(unreadable(message)))
}

/// Takes in entries of a peek.
#[verifier::opaque]
pub open spec fn peek_entries_added(s: Scene, entries: Seq<FileEntryView>) -> Scene {
    let shown = if entries.len() > 0 {
        present_peek(s, s.view.peek->0.presentation.content())
    } else {
        s
    };
    append_entries(shown, entries)
}

/// Takes in that a peek is filled.
#[verifier::opaque]
pub open spec fn peek_finished(s: Scene) -> Scene {
    let t = peek_idle(s);
    let peek = t.view.peek->0;
    present_peek(t, peek.presentation.finished(peek.rows.len() as int))
}

/// Takes in that a peek cannot be filled.
#[verifier::opaque]
pub open spec fn peek_failed(s: Scene, message: Seq<char>) -> Scene {
    let t = peek_idle(s);
    present_peek(t, t.view.peek->0.presentation.failed(unreadable(message)))
}

/// Takes in what is selected in a column.
#[verifier::opaque]
pub open spec fn selection_set_changed(
    s: Scene,
    depth: int,
    positions: Seq<int>,
    focused: int,
) -> Scene {
    let column = s.view.columns[depth];
    let t = s.act(ViewActionView::SelectRows { depth, positions: column.shown_all(positions) });
    match column.shown(focused) {
        Some(row) => t.act(ViewActionView::FocusRow { depth, row }),
        None => t,
    }.act(ViewActionView::FocusColumn { depth })
}

/// What an event does, before the active rows are marked anew.
pub open spec fn handled(s: Scene, event: EventView) -> Scene {
    match event {
        EventView::Reset => truncate(s, 0).act(ViewActionView::ClearLocationError),
        EventView::ColumnsTruncated { len } => sync_active_location(truncate(s, len)),
        EventView::ColumnAdded { depth, location } => append_column(
            set_location(s, location).act(ViewActionView::ClearLocationError),
            depth,
            location,
        ),
        EventView::EntriesInserted { depth, insertions } => if s.has_column(depth) {
            entries_inserted(s, depth, insertions)
        } else {
            s
        },
        EventView::EntriesReplaced { depth, entries } => if s.has_column(depth) {
            entries_replaced(s, depth, entries)
        } else {
            s
        },
        EventView::EntriesSpliced { depth, splices, selected } => if s.has_column(depth) {
            entries_spliced(s, depth, splices, selected)
        } else {
            s
        },
        EventView::ColumnReloaded { depth } => if s.has_column(depth) {
            column_reloaded(s, depth)
        } else {
            s
        },
        EventView::LoadFinished { depth } => if s.has_column(depth) {
            load_finished(s, depth)
        } else {
            s
        },
        EventView::LoadFailed { depth, message } => if s.has_column(depth) {
            load_failed(s, depth, message)
        } else {
            s
        },
        EventView::PeekStarted { location } => append_peek(s, location),
        EventView::PeekEntriesAdded { entries } => if s.view.peek is Some {
            peek_entries_added(s, entries)
        } else {
            s
        },
        EventView::PeekFinished => if s.view.peek is Some {
            peek_finished(s)
        } else {
            s
        },
        EventView::PeekFailed { message } => if s.view.peek is Some {
            peek_failed(s, message)
        } else {
            s
        },
        EventView::PeekClosed => close_peek_visual(s),
        EventView::SelectionSetChanged { depth, positions, focused } => if s.has_column(depth) {
            selection_set_changed(s, depth, positions, focused)
        } else {
            s
        },
        EventView::FocusChanged { depth, position } => if s.has_column(depth) {
            focus_shown(s, depth, position)
        } else {
            s
        },
        EventView::PreviewRequested { .. } => s,
        EventView::OpenRequested { location } => s.act(ViewActionView::OpenFile { location }),
        EventView::RenameCompleted => focus_active(cancel_rename(s)),
        EventView::RenameFailed { message } => if s.view.renaming is Some {
            s.act(ViewActionView::RejectName { message })
        } else {
            s
        },
        EventView::OperationFailed { message } => s.act(
            ViewActionView::ShowError {
                message: "Unable to complete operation"@,
                detail: message,
            },
        ),
        EventView::NavigationRejected { message } => s.act(
            ViewActionView::ShowError { message: "Unable to open directory"@, detail: message },
        ),
    }
}

/// What an event does.
pub open spec fn handle(s: Scene, event: EventView) -> Scene {
    refresh_active_path_rows(handled(s, event))
}

/// What events do, one after the other.
pub open spec fn handle_all(s: Scene, events: Seq<EventView>) -> Scene
    decreases events.len(),
{
    if events.len() == 0 {
        s
    } else {
        handle_all(handle(s, events[0]), events.drop_first())
    }
}

/// What a command of the browser does to the screen.
pub open spec fn show(s: Scene, f: Flow) -> Scene {
    handle_all(
        Scene { browser: f.browser, requests: s.requests + f.requests, ..s },
        f.events,
    )
}

} // verus!
