//! What the browser tells its observers, what it asks of its services, and what they answer.
use vstd::prelude::*;

use crate::entry::{entries_of, FileEntry, FileEntryView};
use crate::model::{locations_of, Location, LocationView};
use crate::sorting::{insertions_of, Insertion, InsertionView};

verus! {

/// A range of rows that was replaced.
#[derive(Debug)]
pub struct Splice {
    pub position: usize,
    pub removed: usize,
    pub entries: Vec<FileEntry>,
}

/// What a splice holds.
#[verifier::ext_equal]
pub struct SpliceView {
    pub position: int,
    pub removed: int,
    pub entries: Seq<FileEntryView>,
}

impl View for Splice {
    type V = SpliceView;

    open spec fn view(&self) -> SpliceView {
        SpliceView {
            position: self.position as int,
            removed: self.removed as int,
            entries: entries_of(self.entries@),
        }
    }
}

/// The views of a list of splices.
pub open spec fn splices_of(splices: Seq<Splice>) -> Seq<SpliceView> {
    splices.map_values(|splice: Splice| splice@)
}

/// Positions as integers.
pub open spec fn positions_of(positions: Seq<usize>) -> Seq<int> {
    positions.map_values(|position: usize| position as int)
}

/// A position that may be missing, as an integer.
pub open spec fn position_of(position: Option<usize>) -> Option<int> {
    match position {
        Some(at) => Some(at as int),
        None => None,
    }
}

/// What happened in the browser.
#[derive(Debug)]
pub enum BrowserEvent {
    Reset,
    ColumnsTruncated { len: usize },
    ColumnAdded { depth: usize, location: Location },
    EntriesInserted { depth: usize, insertions: Vec<Insertion> },
    EntriesReplaced { depth: usize, entries: Vec<FileEntry> },
    EntriesSpliced { depth: usize, splices: Vec<Splice>, selected: Option<usize> },
    ColumnReloaded { depth: usize },
    LoadFinished { depth: usize },
    LoadFailed { depth: usize, message: String },
    PeekStarted { location: Location },
    PeekEntriesAdded { entries: Vec<FileEntry> },
    PeekFinished,
    PeekFailed { message: String },
    PeekClosed,
    SelectionSetChanged { depth: usize, positions: Vec<usize>, focused: usize },
    FocusChanged { depth: usize, position: Option<usize> },
    PreviewRequested { entry: FileEntry },
    OpenRequested { location: Location },
    RenameCompleted,
    RenameFailed { message: String },
    OperationFailed { message: String },
    NavigationRejected { message: String },
}

/// What an event holds.
#[verifier::ext_equal]
pub enum EventView {
    Reset,
    ColumnsTruncated { len: int },
    ColumnAdded { depth: int, location: LocationView },
    EntriesInserted { depth: int, insertions: Seq<InsertionView> },
    EntriesReplaced { depth: int, entries: Seq<FileEntryView> },
    EntriesSpliced { depth: int, splices: Seq<SpliceView>, selected: Option<int> },
    ColumnReloaded { depth: int },
    LoadFinished { depth: int },
    LoadFailed { depth: int, message: Seq<char> },
    PeekStarted { location: LocationView },
    PeekEntriesAdded { entries: Seq<FileEntryView> },
    PeekFinished,
    PeekFailed { message: Seq<char> },
    PeekClosed,
    SelectionSetChanged { depth: int, positions: Seq<int>, focused: int },
    FocusChanged { depth: int, position: Option<int> },
    PreviewRequested { entry: FileEntryView },
    OpenRequested { location: LocationView },
    RenameCompleted,
    RenameFailed { message: Seq<char> },
    OperationFailed { message: Seq<char> },
    NavigationRejected { message: Seq<char> },
}

impl View for BrowserEvent {
    type V = EventView;

    open spec fn view(&self) -> EventView {
        match self {
            BrowserEvent::Reset => EventView::Reset,
            BrowserEvent::ColumnsTruncated { len } => EventView::ColumnsTruncated { len: *len as int },
            BrowserEvent::ColumnAdded { depth, location } => EventView::ColumnAdded {
                depth: *depth as int,
                location: location@,
            },
            BrowserEvent::EntriesInserted { depth, insertions } => EventView::EntriesInserted {
                depth: *depth as int,
                insertions: insertions_of(insertions@),
            },
            BrowserEvent::EntriesReplaced { depth, entries } => EventView::EntriesReplaced {
                depth: *depth as int,
                entries: entries_of(entries@),
            },
            BrowserEvent::EntriesSpliced { depth, splices, selected } => EventView::EntriesSpliced {
                depth: *depth as int,
                splices: splices_of(splices@),
                selected: position_of(*selected),
            },
            BrowserEvent::ColumnReloaded { depth } => EventView::ColumnReloaded {
                depth: *depth as int,
            },
            BrowserEvent::LoadFinished { depth } => EventView::LoadFinished { depth: *depth as int },
            BrowserEvent::LoadFailed { depth, message } => EventView::LoadFailed {
                depth: *depth as int,
                message: message@,
            },
            BrowserEvent::PeekStarted { location } => EventView::PeekStarted { location: location@ },
            BrowserEvent::PeekEntriesAdded { entries } => EventView::PeekEntriesAdded {
                entries: entries_of(entries@),
            },
            BrowserEvent::PeekFinished => EventView::PeekFinished,
            BrowserEvent::PeekFailed { message } => EventView::PeekFailed { message: message@ },
            BrowserEvent::PeekClosed => EventView::PeekClosed,
            BrowserEvent::SelectionSetChanged { depth, positions, focused } => {
                EventView::SelectionSetChanged {
                    depth: *depth as int,
                    positions: positions_of(positions@),
                    focused: *focused as int,
                }
            },
            BrowserEvent::FocusChanged { depth, position } => EventView::FocusChanged {
                depth: *depth as int,
                position: position_of(*position),
            },
            BrowserEvent::PreviewRequested { entry } => EventView::PreviewRequested { entry: entry@ },
            BrowserEvent::OpenRequested { location } => EventView::OpenRequested {
                location: location@,
            },
            BrowserEvent::RenameCompleted => EventView::RenameCompleted,
            BrowserEvent::RenameFailed { message } => EventView::RenameFailed { message: message@ },
            BrowserEvent::OperationFailed { message } => EventView::OperationFailed {
                message: message@,
            },
            BrowserEvent::NavigationRejected { message } => EventView::NavigationRejected {
                message: message@,
            },
        }
    }
}

/// The views of a list of events.
pub open spec fn events_of(events: Seq<BrowserEvent>) -> Seq<EventView> {
    events.map_values(|event: BrowserEvent| event@)
}

/// A directory to list.
#[derive(Debug)]
pub struct DirectoryRequest {
    pub id: u64,
    pub location: Location,
    pub include_hidden: bool,
}

/// An entry to rename.
#[derive(Debug)]
pub struct RenameRequest {
    pub id: u64,
    pub entry: FileEntry,
    pub new_name: String,
}

/// A directory to make.
#[derive(Debug)]
pub struct CreateDirectoryRequest {
    pub id: u64,
    pub parent: Location,
    pub name: String,
}

/// Files to copy or move into a directory.
#[derive(Debug)]
pub struct PasteRequest {
    pub id: u64,
    pub destination: Location,
    pub sources: Vec<Location>,
    pub move_sources: bool,
}

/// Entries to put in the trash, or to delete for good.
#[derive(Debug)]
pub struct DeleteRequest {
    pub id: u64,
    pub entries: Vec<FileEntry>,
    pub permanent: bool,
}

/// The trash to empty.
#[derive(Debug)]
pub struct EmptyTrashRequest {
    pub id: u64,
}

/// What the browser asks of its services.
#[derive(Debug)]
pub enum ServiceRequest {
    /// List a directory.
    Enumerate(DirectoryRequest),
    /// Stop a listing that has not come to its end.
    CancelLoad { id: u64 },
    /// Tell of changes in a directory, under the number of its listing.
    Watch(DirectoryRequest),
    /// Tell of no further changes.
    StopWatch { id: u64 },
    /// Find out whether a directory can be opened behind the column at `depth`.
    Validate { depth: usize, location: Location },
    Rename(RenameRequest),
    CreateDirectory(CreateDirectoryRequest),
    Paste(PasteRequest),
    Delete(DeleteRequest),
    EmptyTrash(EmptyTrashRequest),
}

/// What a request holds.
#[verifier::ext_equal]
pub enum RequestView {
    Enumerate { id: int, location: LocationView, include_hidden: bool },
    CancelLoad { id: int },
    Watch { id: int, location: LocationView, include_hidden: bool },
    StopWatch { id: int },
    Validate { depth: int, location: LocationView },
    Rename { id: int, entry: FileEntryView, new_name: Seq<char> },
    CreateDirectory { id: int, parent: LocationView, name: Seq<char> },
    Paste { id: int, destination: LocationView, sources: Seq<LocationView>, move_sources: bool },
    Delete { id: int, entries: Seq<FileEntryView>, permanent: bool },
    EmptyTrash { id: int },
}

impl View for ServiceRequest {
    type V = RequestView;

    open spec fn view(&self) -> RequestView {
        match self {
            ServiceRequest::Enumerate(request) => RequestView::Enumerate {
                id: request.id as int,
                location: request.location@,
                include_hidden: request.include_hidden,
            },
            ServiceRequest::CancelLoad { id } => RequestView::CancelLoad { id: *id as int },
            ServiceRequest::Watch(request) => RequestView::Watch {
                id: request.id as int,
                location: request.location@,
                include_hidden: request.include_hidden,
            },
            ServiceRequest::StopWatch { id } => RequestView::StopWatch { id: *id as int },
            ServiceRequest::Validate { depth, location } => RequestView::Validate {
                depth: *depth as int,
                location: location@,
            },
            ServiceRequest::Rename(request) => RequestView::Rename {
                id: request.id as int,
                entry: request.entry@,
                new_name: request.new_name@,
            },
            ServiceRequest::CreateDirectory(request) => RequestView::CreateDirectory {
                id: request.id as int,
                parent: request.parent@,
                name: request.name@,
            },
            ServiceRequest::Paste(request) => RequestView::Paste {
                id: request.id as int,
                destination: request.destination@,
                sources: locations_of(request.sources@),
                move_sources: request.move_sources,
            },
            ServiceRequest::Delete(request) => RequestView::Delete {
                id: request.id as int,
                entries: entries_of(request.entries@),
                permanent: request.permanent,
            },
            ServiceRequest::EmptyTrash(request) => RequestView::EmptyTrash { id: request.id as int },
        }
    }
}

/// The views of a list of requests.
pub open spec fn requests_of(requests: Seq<ServiceRequest>) -> Seq<RequestView> {
    requests.map_values(|request: ServiceRequest| request@)
}

/// What a listing delivers.
#[derive(Debug)]
pub enum DirectoryEvent {
    Batch { request_id: u64, entries: Vec<FileEntry> },
    Finished { request_id: u64 },
    Failed { request_id: u64, message: String },
}

/// What a watched directory went through. What cannot be told exactly is a `Rescan`.
#[derive(Debug)]
pub enum DirectoryChange {
    Upsert(FileEntry),
    Removed(Location),
    Moved { from: Location, entry: FileEntry },
    Rescan,
}

/// How an operation ended.
#[derive(Debug)]
pub enum OperationEvent {
    Renamed { request_id: u64 },
    Created { request_id: u64 },
    Pasted { request_id: u64 },
    Deleted { request_id: u64 },
    Failed { request_id: u64, message: String },
}

/// What the end of an operation holds.
#[verifier::ext_equal]
pub enum OperationEventView {
    Renamed { request_id: int },
    Created { request_id: int },
    Pasted { request_id: int },
    Deleted { request_id: int },
    Failed { request_id: int, message: Seq<char> },
}

impl View for OperationEvent {
    type V = OperationEventView;

    open spec fn view(&self) -> OperationEventView {
        match self {
            OperationEvent::Renamed { request_id } => OperationEventView::Renamed {
                request_id: *request_id as int,
            },
            OperationEvent::Created { request_id } => OperationEventView::Created {
                request_id: *request_id as int,
            },
            OperationEvent::Pasted { request_id } => OperationEventView::Pasted {
                request_id: *request_id as int,
            },
            OperationEvent::Deleted { request_id } => OperationEventView::Deleted {
                request_id: *request_id as int,
            },
            OperationEvent::Failed { request_id, message } => OperationEventView::Failed {
                request_id: *request_id as int,
                message: message@,
            },
        }
    }
}

impl Clone for OperationEvent {
    fn clone(&self) -> (copy: Self)
        ensures
            copy@ == self@,
    {
        match self {
            OperationEvent::Renamed { request_id } => OperationEvent::Renamed {
                request_id: *request_id,
            },
            OperationEvent::Created { request_id } => OperationEvent::Created {
                request_id: *request_id,
            },
            OperationEvent::Pasted { request_id } => OperationEvent::Pasted {
                request_id: *request_id,
            },
            OperationEvent::Deleted { request_id } => OperationEvent::Deleted {
                request_id: *request_id,
            },
            OperationEvent::Failed { request_id, message } => OperationEvent::Failed {
                request_id: *request_id,
                message: message.clone(),
            },
        }
    }
}

/// A position is among positions exactly if its view is among theirs.
pub proof fn lemma_positions_contain(positions: Seq<usize>, position: usize)
    ensures
        positions_of(positions).contains(position as int) == positions.contains(position),
{
    let views = positions_of(positions);
    if positions.contains(position) {
        let k = choose|k: int| 0 <= k < positions.len() && positions[k] == position;
        assert(views[k] == position);
    }
    if views.contains(position as int) {
        let k = choose|k: int| 0 <= k < views.len() && views[k] == position;
        assert(positions[k] == position);
    }
}

} // verus!
