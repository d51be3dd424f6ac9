//! The operations on files that the browser asks for: what each does, step by step, and how it
//! ends.
//!
//! An operation is a [`FileTask`]. It names the next step, is told what came of it, and ends with
//! exactly one event.
use vstd::prelude::*;
use vstd::string::*;

use crate::copy_walk;
use crate::copy_walk::{copy_action, copy_start, copy_step, copy_walk_valid, CopyWalk};
use crate::delete_walk;
use crate::delete_walk::{delete_action, delete_start, delete_step, delete_walk_valid, DeleteWalk};
use crate::entry::{entries_of, FileEntry, FileEntryView};
use crate::event::{
    CreateDirectoryRequest, DeleteRequest, EmptyTrashRequest, OperationEvent, OperationEventView,
    PasteRequest, RenameRequest,
};
use crate::files::{
    answers, children_of, file_at, ActionView, Child, ChildView, FactsView, FileAction, FileRef,
    FileRefView, FileReply, ReplyView, TransferFacts,
};
use crate::model::{locations_of, Location, LocationView};

verus! {

/// What a transfer is to do.
#[verifier::ext_equal]
pub struct PasteView {
    pub id: int,
    pub destination: LocationView,
    pub sources: Seq<LocationView>,
    pub move_sources: bool,
}

impl View for PasteRequest {
    type V = PasteView;

    open spec fn view(&self) -> PasteView {
        PasteView {
            id: self.id as int,
            destination: self.destination@,
            sources: locations_of(self.sources@),
            move_sources: self.move_sources,
        }
    }
}

/// What a deletion is to do.
#[verifier::ext_equal]
pub struct DeleteView {
    pub id: int,
    pub entries: Seq<FileEntryView>,
    pub permanent: bool,
}

impl View for DeleteRequest {
    type V = DeleteView;

    open spec fn view(&self) -> DeleteView {
        DeleteView {
            id: self.id as int,
            entries: entries_of(self.entries@),
            permanent: self.permanent,
        }
    }
}

/// Where an operation stands.
#[verifier::ext_equal]
pub enum TaskState {
    Renaming { id: int, file: FileRefView, name: Seq<char> },
    Creating { id: int, file: FileRefView },
    /// It is the turn of the source at `at`.
    Inspecting { paste: PasteView, at: int },
    Moving { paste: PasteView, at: int, target: FileRefView },
    Copying { paste: PasteView, at: int, copy: copy_walk::WalkState },
    /// It is the turn of the entry at `at`.
    Trashing { delete: DeleteView, at: int },
    Deleting { delete: DeleteView, at: int, walk: delete_walk::WalkState },
    OpeningTrash { id: int },
    ListingTrash { id: int },
    /// It is the turn of `current`, and then of those that `pending` holds.
    DeletingTrashed { id: int, current: ChildView, pending: Seq<ChildView> },
    EmptyingTrashed { id: int, walk: delete_walk::WalkState, pending: Seq<ChildView> },
    Ended { event: OperationEventView },
}

/// The end of an operation that failed.
pub open spec fn failed(id: int, message: Seq<char>) -> TaskState {
    TaskState::Ended { event: OperationEventView::Failed { request_id: id, message } }
}

/// The trash.
pub open spec fn trash() -> FileRefView {
    file_at(LocationView::Uri("trash:///"@))
}

/// Turns to the source at a position. After the last one, the transfer is done.
pub open spec fn paste_at(paste: PasteView, at: int) -> TaskState {
    if at < paste.sources.len() {
        TaskState::Inspecting { paste, at }
    } else {
        TaskState::Ended { event: OperationEventView::Pasted { request_id: paste.id } }
    }
}

/// Turns to the entry at a position. After the last one, the deletion is done.
pub open spec fn delete_at(delete: DeleteView, at: int) -> TaskState {
    if at < delete.entries.len() {
        if delete.permanent {
            TaskState::Deleting {
                delete,
                at,
                walk: delete_start(
                    file_at(delete.entries[at].location),
                    delete.entries[at].is_directory(),
                ),
            }
        } else {
            TaskState::Trashing { delete, at }
        }
    } else {
        TaskState::Ended { event: OperationEventView::Deleted { request_id: delete.id } }
    }
}

/// Turns to the next of the listed files in the trash. After the last one, it is listed further.
pub open spec fn trash_next(id: int, pending: Seq<ChildView>) -> TaskState {
    if pending.len() == 0 {
        TaskState::ListingTrash { id }
    } else {
        TaskState::DeletingTrashed { id, current: pending[0], pending: pending.drop_first() }
    }
}

/// Whether a transfer would put a file into itself, or in its own place.
pub open spec fn transfers_into_itself(facts: FactsView) -> bool {
    facts.is_target || facts.is_destination || facts.holds_destination
}

/// The message of an entry that cannot be deleted.
pub open spec fn delete_failure(entry: FileEntryView, message: Seq<char>) -> Seq<char> {
    entry.display_name + ": "@ + message
}

/// What is to be done.
pub open spec fn task_action(task: TaskState) -> ActionView {
    match task {
        TaskState::Renaming { file, name, .. } => ActionView::SetDisplayName { file, name },
        TaskState::Creating { file, .. } => ActionView::MakeDirectory { file },
        TaskState::Inspecting { paste, at } => ActionView::InspectTransfer {
            source: file_at(paste.sources[at]),
            destination: file_at(paste.destination),
        },
        TaskState::Moving { paste, at, target } => ActionView::MoveFile {
            source: file_at(paste.sources[at]),
            target,
        },
        TaskState::Copying { copy, .. } => copy_action(copy)->0,
        TaskState::Trashing { delete, at } => ActionView::Trash {
            file: file_at(delete.entries[at].location),
        },
        TaskState::Deleting { walk, .. } => delete_action(walk)->0,
        TaskState::OpeningTrash { .. } => ActionView::OpenChildren { file: trash() },
        TaskState::ListingTrash { .. } => ActionView::NextChildren { file: trash() },
        TaskState::DeletingTrashed { current, .. } => ActionView::Delete {
            file: trash().child(current.name),
        },
        TaskState::EmptyingTrashed { walk, .. } => delete_action(walk)->0,
        TaskState::Ended { event } => ActionView::Emit { event },
    }
}

/// Goes on with a transfer after facts of the source.
pub open spec fn paste_inspected(paste: PasteView, at: int, facts: FactsView) -> TaskState {
    match facts.name {
        None => failed(paste.id, "A clipboard item has no file name"@),
        Some(name) => {
            let target = file_at(paste.destination).child(name);
            if transfers_into_itself(facts) {
                failed(paste.id, "A file or folder cannot be transferred into itself"@)
            } else if paste.move_sources {
                TaskState::Moving { paste, at, target }
            } else {
                TaskState::Copying { paste, at, copy: copy_start(file_at(paste.sources[at]), target) }
            }
        },
    }
}

/// Goes on with a transfer after a step of a copy.
pub open spec fn paste_copied(paste: PasteView, at: int, walk: copy_walk::WalkState) -> TaskState {
    match walk.phase {
        copy_walk::PhaseState::Finished(Ok(_)) => paste_at(paste, at + 1),
        copy_walk::PhaseState::Finished(Err(message)) => failed(paste.id, message),
        _ => TaskState::Copying { paste, at, copy: walk },
    }
}

/// Goes on with a deletion after a step on one of the entries.
pub open spec fn delete_walked(
    delete: DeleteView,
    at: int,
    walk: delete_walk::WalkState,
) -> TaskState {
    match walk.phase {
        delete_walk::PhaseState::Finished(Ok(_)) => delete_at(delete, at + 1),
        delete_walk::PhaseState::Finished(Err(message)) => failed(
            delete.id,
            delete_failure(delete.entries[at], message),
        ),
        _ => TaskState::Deleting { delete, at, walk },
    }
}

/// Goes on with the trash after a step on a directory in it.
pub open spec fn trash_walked(
    id: int,
    walk: delete_walk::WalkState,
    pending: Seq<ChildView>,
) -> TaskState {
    match walk.phase {
        delete_walk::PhaseState::Finished(Ok(_)) => trash_next(id, pending),
        delete_walk::PhaseState::Finished(Err(message)) => failed(id, message),
        _ => TaskState::EmptyingTrashed { id, walk, pending },
    }
}

/// Goes on after a reply.
pub open spec fn task_step(task: TaskState, reply: ReplyView) -> TaskState {
    match task {
        TaskState::Renaming { id, .. } => match reply {
            ReplyView::Failed(message) => failed(id, message),
            _ => TaskState::Ended { event: OperationEventView::Renamed { request_id: id } },
        },
        TaskState::Creating { id, .. } => match reply {
            ReplyView::Failed(message) => failed(id, message),
            _ => TaskState::Ended { event: OperationEventView::Created { request_id: id } },
        },
        TaskState::Inspecting { paste, at } => paste_inspected(paste, at, reply->Facts_0),
        TaskState::Moving { paste, at, .. } => match reply {
            ReplyView::Failed(message) => failed(paste.id, message),
            _ => paste_at(paste, at + 1),
        },
        TaskState::Copying { paste, at, copy } => paste_copied(paste, at, copy_step(copy, reply)),
        TaskState::Trashing { delete, at } => match reply {
            ReplyView::Failed(message) => failed(
                delete.id,
                delete_failure(delete.entries[at], message),
            ),
            _ => delete_at(delete, at + 1),
        },
        TaskState::Deleting { delete, at, walk } => delete_walked(
            delete,
            at,
            delete_step(walk, reply),
        ),
        TaskState::OpeningTrash { id } => match reply {
            ReplyView::Failed(message) => failed(id, message),
            _ => TaskState::ListingTrash { id },
        },
        TaskState::ListingTrash { id } => match reply {
            ReplyView::Failed(message) => failed(id, message),
            ReplyView::Children(children) => if children.len() == 0 {
                TaskState::Ended { event: OperationEventView::Deleted { request_id: id } }
            } else {
                trash_next(id, children)
            },
            _ => task,
        },
        // The trash takes an item away with all that it holds. A directory that it does not take
        // away so is emptied first.
        TaskState::DeletingTrashed { id, current, pending } => match reply {
            ReplyView::Failed(message) => if current.directory {
                TaskState::EmptyingTrashed {
                    id,
                    walk: delete_start(trash().child(current.name), true),
                    pending,
                }
            } else {
                failed(id, message)
            },
            _ => trash_next(id, pending),
        },
        TaskState::EmptyingTrashed { id, walk, pending } => trash_walked(
            id,
            delete_step(walk, reply),
            pending,
        ),
        TaskState::Ended { .. } => task,
    }
}

/// A task has its turn at something that there is, and no walk of it has come to its end.
pub open spec fn task_valid(task: TaskState) -> bool {
    match task {
        TaskState::Inspecting { paste, at } => 0 <= at < paste.sources.len(),
        TaskState::Moving { paste, at, .. } => 0 <= at < paste.sources.len(),
        TaskState::Copying { paste, at, copy } => {
            &&& 0 <= at < paste.sources.len()
            &&& copy_walk_valid(copy)
            &&& !(copy.phase is Finished)
        },
        TaskState::Trashing { delete, at } => 0 <= at < delete.entries.len(),
        TaskState::Deleting { delete, at, walk } => {
            &&& 0 <= at < delete.entries.len()
            &&& delete_walk_valid(walk)
            &&& !(walk.phase is Finished)
        },
        TaskState::EmptyingTrashed { walk, .. } => {
            &&& delete_walk_valid(walk)
            &&& !(walk.phase is Finished)
        },
        _ => true,
    }
}

#[derive(Debug)]
enum Stage {
    Renaming { id: u64, file: FileRef, name: String },
    Creating { id: u64, file: FileRef },
    Inspecting { paste: PasteRequest, at: usize },
    Moving { paste: PasteRequest, at: usize, target: FileRef },
    Copying { paste: PasteRequest, at: usize, copy: CopyWalk },
    Trashing { delete: DeleteRequest, at: usize },
    Deleting { delete: DeleteRequest, at: usize, walk: DeleteWalk },
    OpeningTrash { id: u64 },
    ListingTrash { id: u64 },
    DeletingTrashed { id: u64, current: Child, pending: Vec<Child> },
    EmptyingTrashed { id: u64, walk: DeleteWalk, pending: Vec<Child> },
    Ended { event: OperationEvent },
}

spec fn stage_of(stage: Stage) -> TaskState {
    match stage {
        Stage::Renaming { id, file, name } => TaskState::Renaming {
            id: id as int,
            file: file@,
            name: name@,
        },
        Stage::Creating { id, file } => TaskState::Creating { id: id as int, file: file@ },
        Stage::Inspecting { paste, at } => TaskState::Inspecting { paste: paste@, at: at as int },
        Stage::Moving { paste, at, target } => TaskState::Moving {
            paste: paste@,
            at: at as int,
            target: target@,
        },
        Stage::Copying { paste, at, copy } => TaskState::Copying {
            paste: paste@,
            at: at as int,
            copy: copy@,
        },
        Stage::Trashing { delete, at } => TaskState::Trashing { delete: delete@, at: at as int },
        Stage::Deleting { delete, at, walk } => TaskState::Deleting {
            delete: delete@,
            at: at as int,
            walk: walk@,
        },
        Stage::OpeningTrash { id } => TaskState::OpeningTrash { id: id as int },
        Stage::ListingTrash { id } => TaskState::ListingTrash { id: id as int },
        Stage::DeletingTrashed { id, current, pending } => TaskState::DeletingTrashed {
            id: id as int,
            current: current@,
            pending: children_of(pending@),
        },
        Stage::EmptyingTrashed { id, walk, pending } => TaskState::EmptyingTrashed {
            id: id as int,
            walk: walk@,
            pending: children_of(pending@),
        },
        Stage::Ended { event } => TaskState::Ended { event: event@ },
    }
}

/// An operation on files.
#[derive(Debug)]
pub struct FileTask {
    stage: Stage,
}

impl View for FileTask {
    type V = TaskState;

    closed spec fn view(&self) -> TaskState {
        stage_of(self.stage)
    }
}

fn failure(id: u64, message: String) -> (stage: Stage)
    ensures
        stage_of(stage) == failed(id as int, message@),
{
    Stage::Ended { event: OperationEvent::Failed { request_id: id, message } }
}

fn trash_file() -> (file: FileRef)
    ensures
        file@ == trash(),
{
    FileRef::at(&Location::Uri("trash:///".to_owned()))
}

fn paste_from(paste: PasteRequest, at: usize) -> (stage: Stage)
    ensures
        stage_of(stage) == paste_at(paste@, at as int),
        task_valid(stage_of(stage)),
{
    assert(locations_of(paste.sources@).len() == paste.sources@.len());
    if at < paste.sources.len() {
        Stage::Inspecting { paste, at }
    } else {
        Stage::Ended { event: OperationEvent::Pasted { request_id: paste.id } }
    }
}

fn delete_from(delete: DeleteRequest, at: usize) -> (stage: Stage)
    ensures
        stage_of(stage) == delete_at(delete@, at as int),
        task_valid(stage_of(stage)),
{
    assert(entries_of(delete.entries@).len() == delete.entries@.len());
    if at < delete.entries.len() {
        if delete.permanent {
            let walk = DeleteWalk::new(
                FileRef::at(&delete.entries[at].location),
                delete.entries[at].is_directory(),
            );
            Stage::Deleting { delete, at, walk }
        } else {
            Stage::Trashing { delete, at }
        }
    } else {
        Stage::Ended { event: OperationEvent::Deleted { request_id: delete.id } }
    }
}

fn trash_from(id: u64, pending: Vec<Child>) -> (stage: Stage)
    ensures
        stage_of(stage) == trash_next(id as int, children_of(pending@)),
        task_valid(stage_of(stage)),
{
    let mut rest = pending;
    assert(children_of(rest@).len() == rest@.len());
    if rest.len() == 0 {
        Stage::ListingTrash { id }
    } else {
        let current = rest.remove(0);
        assert(children_of(rest@) =~= children_of(pending@).drop_first());
        Stage::DeletingTrashed { id, current, pending: rest }
    }
}

fn paste_with_facts(paste: PasteRequest, at: usize, facts: TransferFacts) -> (stage: Stage)
    requires
        at < paste@.sources.len(),
    ensures
        stage_of(stage) == paste_inspected(paste@, at as int, facts@),
        task_valid(stage_of(stage)),
{
    match facts.name {
        None => failure(paste.id, "A clipboard item has no file name".to_owned()),
        Some(name) => {
            let target = FileRef::at(&paste.destination).child(&name);
            if facts.is_target || facts.is_destination || facts.holds_destination {
                failure(
                    paste.id,
                    "A file or folder cannot be transferred into itself".to_owned(),
                )
            } else if paste.move_sources {
                Stage::Moving { paste, at, target }
            } else {
                let copy = CopyWalk::new(FileRef::at(&paste.sources[at]), target);
                Stage::Copying { paste, at, copy }
            }
        },
    }
}

/// The message of an entry that cannot be deleted.
fn delete_failure_message(entry: &FileEntry, message: &String) -> (text: String)
    ensures
        text@ == delete_failure(entry@, message@),
{
    let mut text = entry.display_name.clone();
    text.append(": ");
    text.append(message.as_str());
    text
}

impl FileTask {
    /// What is to be done next. An event that is to be emitted is the last step.
    pub fn action(&self) -> (action: FileAction)
        requires
            task_valid(self@),
        ensures
            action@ == task_action(self@),
    {
        match &self.stage {
            Stage::Renaming { file, name, .. } => FileAction::SetDisplayName {
                file: file.clone(),
                name: name.clone(),
            },
            Stage::Creating { file, .. } => FileAction::MakeDirectory { file: file.clone() },
            Stage::Inspecting { paste, at } => FileAction::InspectTransfer {
                source: FileRef::at(&paste.sources[*at]),
                destination: FileRef::at(&paste.destination),
            },
            Stage::Moving { paste, at, target } => FileAction::MoveFile {
                source: FileRef::at(&paste.sources[*at]),
                target: target.clone(),
            },
            Stage::Copying { copy, .. } => match copy.action() {
                Some(action) => action,
                None => unreached(),
            },
            Stage::Trashing { delete, at } => FileAction::Trash {
                file: FileRef::at(&delete.entries[*at].location),
            },
            Stage::Deleting { walk, .. } => match walk.action() {
                Some(action) => action,
                None => unreached(),
            },
            Stage::OpeningTrash { .. } => FileAction::OpenChildren { file: trash_file() },
            Stage::ListingTrash { .. } => FileAction::NextChildren { file: trash_file() },
            Stage::DeletingTrashed { current, .. } => FileAction::Delete {
                file: trash_file().child(&current.name),
            },
            Stage::EmptyingTrashed { walk, .. } => match walk.action() {
                Some(action) => action,
                None => unreached(),
            },
            Stage::Ended { event } => FileAction::Emit { event: event.clone() },
        }
    }

    /// Goes on after a reply to the last step.
    pub fn resume(&mut self, reply: FileReply)
        requires
            task_valid(old(self)@),
            answers(task_action(old(self)@), reply@),
        ensures
            final(self)@ == task_step(old(self)@, reply@),
            task_valid(final(self)@),
    {
        let mut stage = Stage::OpeningTrash { id: 0 };
        std::mem::swap(&mut stage, &mut self.stage);
        self.stage = match stage {
            Stage::Renaming { id, .. } => match reply {
                FileReply::Failed(message) => failure(id, message),
                _ => Stage::Ended { event: OperationEvent::Renamed { request_id: id } },
            },
            Stage::Creating { id, .. } => match reply {
                FileReply::Failed(message) => failure(id, message),
                _ => Stage::Ended { event: OperationEvent::Created { request_id: id } },
            },
            Stage::Inspecting { paste, at } => match reply {
                FileReply::Facts(facts) => paste_with_facts(paste, at, facts),
                _ => unreached(),
            },
            Stage::Moving { paste, at, .. } => {
                let count: usize = paste.sources.len();
                assert(at < count);
                match reply {
                    FileReply::Failed(message) => failure(paste.id, message),
                    _ => paste_from(paste, at + 1),
                }
            },
            Stage::Copying { paste, at, mut copy } => {
                copy.resume(reply);
                let count: usize = paste.sources.len();
                assert(at < count);
                match copy.end() {
                    Some(Ok(_)) => paste_from(paste, at + 1),
                    Some(Err(message)) => failure(paste.id, message),
                    None => Stage::Copying { paste, at, copy },
                }
            },
            Stage::Trashing { delete, at } => {
                let count: usize = delete.entries.len();
                assert(at < count);
                match reply {
                    FileReply::Failed(message) => failure(
                        delete.id,
                        delete_failure_message(&delete.entries[at], &message),
                    ),
                    _ => delete_from(delete, at + 1),
                }
            },
            Stage::Deleting { delete, at, mut walk } => {
                walk.resume(reply);
                let count: usize = delete.entries.len();
                assert(at < count);
                match walk.end() {
                    Some(Ok(_)) => delete_from(delete, at + 1),
                    Some(Err(message)) => failure(
                        delete.id,
                        delete_failure_message(&delete.entries[at], &message),
                    ),
                    None => Stage::Deleting { delete, at, walk },
                }
            },
            Stage::OpeningTrash { id } => match reply {
                FileReply::Failed(message) => failure(id, message),
                _ => Stage::ListingTrash { id },
            },
            Stage::ListingTrash { id } => match reply {
                FileReply::Failed(message) => failure(id, message),
                FileReply::Children(children) => {
                    assert(children_of(children@).len() == children@.len());
                    if children.len() == 0 {
                        Stage::Ended { event: OperationEvent::Deleted { request_id: id } }
                    } else {
                        trash_from(id, children)
                    }
                },
                _ => unreached(),
            },
            Stage::DeletingTrashed { id, current, pending } => match reply {
                FileReply::Failed(message) => {
                    if current.directory {
                        let walk = DeleteWalk::new(trash_file().child(&current.name), true);
                        Stage::EmptyingTrashed { id, walk, pending }
                    } else {
                        failure(id, message)
                    }
                },
                _ => trash_from(id, pending),
            },
            Stage::EmptyingTrashed { id, mut walk, pending } => {
                walk.resume(reply);
                match walk.end() {
                    Some(Ok(_)) => trash_from(id, pending),
                    Some(Err(message)) => failure(id, message),
                    None => Stage::EmptyingTrashed { id, walk, pending },
                }
            },
            Stage::Ended { .. } => unreached(),
        };
    }
}

/// The operations on files, as tasks.
#[derive(Debug, Clone, Copy)]
pub struct LocalOperationProvider;

impl Default for LocalOperationProvider {
    fn default() -> (provider: Self)
        ensures
            provider == LocalOperationProvider,
    {
        LocalOperationProvider
    }
}

impl LocalOperationProvider {
    /// Renames an entry.
    pub fn rename(&self, request: RenameRequest) -> (task: FileTask)
        ensures
            task@ == (TaskState::Renaming {
                id: request.id as int,
                file: file_at(request.entry@.location),
                name: request.new_name@,
            }),
            task_valid(task@),
    {
        let file = FileRef::at(&request.entry.location);
        FileTask { stage: Stage::Renaming { id: request.id, file, name: request.new_name } }
    }

    /// Makes a directory.
    pub fn create_directory(&self, request: CreateDirectoryRequest) -> (task: FileTask)
        ensures
            task@ == (TaskState::Creating {
                id: request.id as int,
                file: file_at(request.parent@).child(vstd::utf8::encode_utf8(request.name@)),
            }),
            task_valid(task@),
    {
        let name = request.name.as_str().as_bytes_vec();
        let file = FileRef::at(&request.parent).child(&name);
        FileTask { stage: Stage::Creating { id: request.id, file } }
    }

    /// Copies or moves files into a directory.
    pub fn paste(&self, request: PasteRequest) -> (task: FileTask)
        ensures
            task@ == paste_at(request@, 0),
            task_valid(task@),
    {
        FileTask { stage: paste_from(request, 0) }
    }

    /// Puts entries into the trash, or deletes them for good.
    pub fn delete(&self, request: DeleteRequest) -> (task: FileTask)
        ensures
            task@ == delete_at(request@, 0),
            task_valid(task@),
    {
        FileTask { stage: delete_from(request, 0) }
    }

    /// Empties the trash.
    pub fn empty_trash(&self, request: EmptyTrashRequest) -> (task: FileTask)
        ensures
            task@ == (TaskState::OpeningTrash { id: request.id as int }),
            task_valid(task@),
    {
        FileTask { stage: Stage::OpeningTrash { id: request.id } }
    }
}

} // verus!
