//! What holds of every operation on files, whatever comes of its steps.
use vstd::prelude::*;

use crate::copy_walk;
use crate::copy_walk::{copy_action, copy_next, copy_start, copy_step, copy_walk_valid};
use crate::delete_walk;
use crate::delete_walk::{delete_action, delete_next, delete_start, delete_step, delete_walk_valid};
use crate::event::OperationEventView;
use crate::files::{answers, file_at, ActionView, FactsView, FileRefView, ReplyView};
use crate::operations::{
    delete_at, paste_at, paste_inspected, task_action, task_step, task_valid, transfers_into_itself,
    trash, DeleteView, PasteView, TaskState,
};

verus! {

/// Whether replies answer the steps of a task, one after the other.
pub open spec fn task_answered(task: TaskState, replies: Seq<ReplyView>) -> bool
    decreases replies.len(),
{
    replies.len() > 0 ==> {
        &&& answers(task_action(task), replies[0])
        &&& task_answered(task_step(task, replies[0]), replies.drop_first())
    }
}

/// Where a task stands after replies.
pub open spec fn task_run(task: TaskState, replies: Seq<ReplyView>) -> TaskState
    decreases replies.len(),
{
    if replies.len() == 0 {
        task
    } else {
        task_run(task_step(task, replies[0]), replies.drop_first())
    }
}

/// The number of the request that a task serves.
pub open spec fn task_id(task: TaskState) -> int {
    match task {
        TaskState::Renaming { id, .. } => id,
        TaskState::Creating { id, .. } => id,
        TaskState::Inspecting { paste, .. } => paste.id,
        TaskState::Moving { paste, .. } => paste.id,
        TaskState::Copying { paste, .. } => paste.id,
        TaskState::Trashing { delete, .. } => delete.id,
        TaskState::Deleting { delete, .. } => delete.id,
        TaskState::OpeningTrash { id } => id,
        TaskState::ListingTrash { id } => id,
        TaskState::DeletingTrashed { id, .. } => id,
        TaskState::EmptyingTrashed { id, .. } => id,
        TaskState::Ended { event } => event_id(event),
    }
}

/// The number of the request that an event answers.
pub open spec fn event_id(event: OperationEventView) -> int {
    match event {
        OperationEventView::Renamed { request_id } => request_id,
        OperationEventView::Created { request_id } => request_id,
        OperationEventView::Pasted { request_id } => request_id,
        OperationEventView::Deleted { request_id } => request_id,
        OperationEventView::Failed { request_id, .. } => request_id,
    }
}

/// A task serves one request from start to end: the event that it emits, whatever came of its
/// steps, answers that request.
pub proof fn lemma_event_answers_the_request(task: TaskState, replies: Seq<ReplyView>)
    ensures
        task_id(task_run(task, replies)) == task_id(task),
        task_run(task, replies) matches TaskState::Ended { event } ==> event_id(event) == task_id(
            task,
        ),
    decreases replies.len(),
{
    if replies.len() > 0 {
        lemma_event_answers_the_request(task_step(task, replies[0]), replies.drop_first());
    }
}

/// The event is the last step of a task: nothing answers it.
pub proof fn lemma_event_is_last(task: TaskState, reply: ReplyView)
    requires
        task is Ended,
    ensures
        task_action(task) is Emit,
        !answers(task_action(task), reply),
{
}

/// Whether a file is another one, or lies somewhere in it.
pub open spec fn lies_in(file: FileRefView, root: FileRefView) -> bool {
    file.base == root.base && root.names.is_prefix_of(file.names)
}

/// Whether an action concerns files that lie in `root` alone.
pub open spec fn acts_in(action: ActionView, root: FileRefView) -> bool {
    match action {
        ActionView::SetDisplayName { file, .. } => lies_in(file, root),
        ActionView::MakeDirectory { file } => lies_in(file, root),
        ActionView::QueryKind { file } => lies_in(file, root),
        ActionView::OpenChildren { file } => lies_in(file, root),
        ActionView::NextChildren { file } => lies_in(file, root),
        ActionView::CopyFile { source, target } => lies_in(source, root) && lies_in(target, root),
        ActionView::MoveFile { source, target } => lies_in(source, root) && lies_in(target, root),
        ActionView::Trash { file } => lies_in(file, root),
        ActionView::Delete { file } => lies_in(file, root),
        ActionView::InspectTransfer { source, destination } => lies_in(source, root) && lies_in(
            destination,
            root,
        ),
        ActionView::Emit { .. } => true,
    }
}

proof fn lemma_child_lies_in(file: FileRefView, root: FileRefView, name: Seq<u8>)
    requires
        lies_in(file, root),
    ensures
        lies_in(file.child(name), root),
{
}

spec fn delete_stays_in(walk: delete_walk::WalkState, root: FileRefView) -> bool {
    &&& forall|k: int|
        0 <= k < walk.frames.len() ==> lies_in((#[trigger] walk.frames[k]).file, root)
    &&& walk.phase matches delete_walk::PhaseState::Deleting(file) ==> lies_in(file, root)
}

proof fn lemma_delete_next_stays_in(frames: Seq<delete_walk::FrameState>, root: FileRefView)
    requires
        forall|k: int| 0 <= k < frames.len() ==> lies_in((#[trigger] frames[k]).file, root),
    ensures
        delete_stays_in(delete_next(frames), root),
        delete_walk_valid(delete_next(frames)),
{
    if frames.len() > 0 && frames.last().pending.len() > 0 {
        assert(lies_in(frames[frames.len() - 1].file, root));
        lemma_child_lies_in(frames.last().file, root, frames.last().pending[0].name);
    }
}

proof fn lemma_delete_step_stays_in(
    walk: delete_walk::WalkState,
    root: FileRefView,
    reply: ReplyView,
)
    requires
        delete_stays_in(walk, root),
        delete_walk_valid(walk),
        delete_action(walk) matches Some(action) && answers(action, reply),
    ensures
        delete_stays_in(delete_step(walk, reply), root),
        delete_walk_valid(delete_step(walk, reply)),
        delete_action(delete_step(walk, reply)) matches Some(action) ==> acts_in(action, root),
{
    match reply {
        ReplyView::Children(children) => {
            assert(lies_in(walk.frames[walk.frames.len() - 1].file, root));
            if children.len() > 0 {
                lemma_delete_next_stays_in(
                    walk.frames.update(
                        walk.frames.len() - 1,
                        delete_walk::FrameState { pending: children, ..walk.frames.last() },
                    ),
                    root,
                );
            }
        },
        _ => {
            lemma_delete_next_stays_in(walk.frames, root);
        },
    }
    let next = delete_step(walk, reply);
    if next.frames.len() > 0 {
        assert(lies_in(next.frames[next.frames.len() - 1].file, root));
    }
}

/// Whether replies answer the steps of a deletion, one after the other.
pub open spec fn delete_answered(walk: delete_walk::WalkState, replies: Seq<ReplyView>) -> bool
    decreases replies.len(),
{
    replies.len() > 0 ==> {
        &&& delete_action(walk) matches Some(action) && answers(action, replies[0])
        &&& delete_answered(delete_step(walk, replies[0]), replies.drop_first())
    }
}

proof fn lemma_delete_run_stays_in(
    walk: delete_walk::WalkState,
    root: FileRefView,
    replies: Seq<ReplyView>,
)
    requires
        delete_stays_in(walk, root),
        delete_walk_valid(walk),
        delete_answered(walk, replies),
    ensures
        delete_action(crate::walk_laws::delete_run(walk, replies)) matches Some(action) ==> acts_in(
            action,
            root,
        ),
    decreases replies.len(),
{
    if replies.len() > 0 {
        lemma_delete_step_stays_in(walk, root, replies[0]);
        lemma_delete_run_stays_in(delete_step(walk, replies[0]), root, replies.drop_first());
    } else if walk.frames.len() > 0 {
        assert(lies_in(walk.frames[walk.frames.len() - 1].file, root));
    }
}

/// Deleting a file touches that file and what lies in it, and nothing else, whatever comes of the
/// steps.
pub proof fn lemma_deletion_stays_inside(
    file: FileRefView,
    directory: bool,
    replies: Seq<ReplyView>,
)
    requires
        delete_answered(delete_start(file, directory), replies),
    ensures
        delete_action(
            crate::walk_laws::delete_run(delete_start(file, directory), replies),
        ) matches Some(action) ==> acts_in(action, file),
{
    lemma_delete_run_stays_in(delete_start(file, directory), file, replies);
}

/// Whether an action of a copy reads from `source` and writes to `target` alone.
pub open spec fn copies_between(
    action: ActionView,
    source: FileRefView,
    target: FileRefView,
) -> bool {
    match action {
        ActionView::QueryKind { file } => lies_in(file, source),
        ActionView::OpenChildren { file } => lies_in(file, source),
        ActionView::NextChildren { file } => lies_in(file, source),
        ActionView::MakeDirectory { file } => lies_in(file, target),
        ActionView::CopyFile { source: from, target: to } => lies_in(from, source) && lies_in(
            to,
            target,
        ),
        _ => false,
    }
}

spec fn copy_stays_between(
    walk: copy_walk::WalkState,
    source: FileRefView,
    target: FileRefView,
) -> bool {
    &&& forall|k: int|
        0 <= k < walk.frames.len() ==> lies_in((#[trigger] walk.frames[k]).source, source)
            && lies_in(walk.frames[k].target, target)
    &&& walk.phase matches copy_walk::PhaseState::Asking { source: from, target: to } ==> lies_in(
        from,
        source,
    ) && lies_in(to, target)
    &&& walk.phase matches copy_walk::PhaseState::Making { source: from, target: to } ==> lies_in(
        from,
        source,
    ) && lies_in(to, target)
    &&& walk.phase matches copy_walk::PhaseState::Copying { source: from, target: to } ==> lies_in(
        from,
        source,
    ) && lies_in(to, target)
}

proof fn lemma_copy_next_stays_between(
    frames: Seq<copy_walk::FrameState>,
    source: FileRefView,
    target: FileRefView,
)
    requires
        forall|k: int|
            0 <= k < frames.len() ==> lies_in((#[trigger] frames[k]).source, source) && lies_in(
                frames[k].target,
                target,
            ),
    ensures
        copy_stays_between(copy_next(frames), source, target),
        copy_walk_valid(copy_next(frames)),
{
    if frames.len() > 0 && frames.last().pending.len() > 0 {
        assert(lies_in(frames[frames.len() - 1].source, source));
        lemma_child_lies_in(frames.last().source, source, frames.last().pending[0].name);
        lemma_child_lies_in(frames.last().target, target, frames.last().pending[0].name);
    }
}

proof fn lemma_copy_step_stays_between(
    walk: copy_walk::WalkState,
    source: FileRefView,
    target: FileRefView,
    reply: ReplyView,
)
    requires
        copy_stays_between(walk, source, target),
        copy_walk_valid(walk),
        copy_action(walk) matches Some(action) && answers(action, reply),
    ensures
        copy_stays_between(copy_step(walk, reply), source, target),
        copy_walk_valid(copy_step(walk, reply)),
{
    match reply {
        ReplyView::Children(children) => {
            assert(lies_in(walk.frames[walk.frames.len() - 1].source, source));
            if children.len() > 0 {
                lemma_copy_next_stays_between(
                    walk.frames.update(
                        walk.frames.len() - 1,
                        copy_walk::FrameState { pending: children, ..walk.frames.last() },
                    ),
                    source,
                    target,
                );
            } else {
                lemma_copy_next_stays_between(walk.frames.drop_last(), source, target);
            }
        },
        _ => {
            lemma_copy_next_stays_between(walk.frames, source, target);
        },
    }
}

/// Whether replies answer the steps of a copy, one after the other.
pub open spec fn copy_answered(walk: copy_walk::WalkState, replies: Seq<ReplyView>) -> bool
    decreases replies.len(),
{
    replies.len() > 0 ==> {
        &&& copy_action(walk) matches Some(action) && answers(action, replies[0])
        &&& copy_answered(copy_step(walk, replies[0]), replies.drop_first())
    }
}

proof fn lemma_copy_run_stays_between(
    walk: copy_walk::WalkState,
    source: FileRefView,
    target: FileRefView,
    replies: Seq<ReplyView>,
)
    requires
        copy_stays_between(walk, source, target),
        copy_walk_valid(walk),
        copy_answered(walk, replies),
    ensures
        copy_action(crate::walk_laws::copy_run(walk, replies)) matches Some(action)
            ==> copies_between(action, source, target),
    decreases replies.len(),
{
    if replies.len() > 0 {
        lemma_copy_step_stays_between(walk, source, target, replies[0]);
        lemma_copy_run_stays_between(
            copy_step(walk, replies[0]),
            source,
            target,
            replies.drop_first(),
        );
    } else if walk.frames.len() > 0 {
        assert(lies_in(walk.frames[walk.frames.len() - 1].source, source));
    }
}

/// Copying a file reads that file and what lies in it, and writes the copy and what lies in it,
/// and nothing else, whatever comes of the steps.
pub proof fn lemma_copy_stays_inside(
    source: FileRefView,
    target: FileRefView,
    replies: Seq<ReplyView>,
)
    requires
        copy_answered(copy_start(source, target), replies),
    ensures
        copy_action(
            crate::walk_laws::copy_run(copy_start(source, target), replies),
        ) matches Some(action) ==> copies_between(action, source, target),
{
    lemma_copy_run_stays_between(copy_start(source, target), source, target, replies);
}

spec fn empties_trash(task: TaskState) -> bool {
    match task {
        TaskState::OpeningTrash { .. } => true,
        TaskState::ListingTrash { .. } => true,
        TaskState::DeletingTrashed { .. } => true,
        TaskState::EmptyingTrashed { walk, .. } => delete_stays_in(walk, trash()),
        TaskState::Ended { .. } => true,
        _ => false,
    }
}

/// Emptying the trash touches the trash and what lies in it, and nothing else, whatever comes of
/// the steps.
pub proof fn lemma_emptying_stays_in_the_trash(id: int, replies: Seq<ReplyView>)
    requires
        task_answered(TaskState::OpeningTrash { id }, replies),
    ensures
        acts_in(task_action(task_run(TaskState::OpeningTrash { id }, replies)), trash()),
{
    lemma_emptying_run(TaskState::OpeningTrash { id }, replies);
}

proof fn lemma_emptying_run(task: TaskState, replies: Seq<ReplyView>)
    requires
        task_valid(task),
        empties_trash(task),
        task_answered(task, replies),
    ensures
        acts_in(task_action(task_run(task, replies)), trash()),
    decreases replies.len(),
{
    assert(lies_in(trash(), trash()));
    if replies.len() > 0 {
        let reply = replies[0];
        let next = task_step(task, reply);
        assert(task_valid(next) && empties_trash(next)) by {
            match task {
                TaskState::DeletingTrashed { current, .. } => {
                    lemma_child_lies_in(trash(), trash(), current.name);
                },
                TaskState::EmptyingTrashed { walk, .. } => {
                    lemma_delete_step_stays_in(walk, trash(), reply);
                },
                _ => {},
            }
        }
        lemma_emptying_run(next, replies.drop_first());
    } else {
        match task {
            TaskState::DeletingTrashed { current, .. } => {
                lemma_child_lies_in(trash(), trash(), current.name);
            },
            TaskState::EmptyingTrashed { walk, .. } => {
                if walk.frames.len() > 0 {
                    assert(lies_in(walk.frames[walk.frames.len() - 1].file, trash()));
                }
            },
            _ => {},
        }
    }
}

/// Putting entries into the trash deletes nothing for good: each step puts one of the entries into
/// the trash, or tells how it ended.
pub proof fn lemma_trashing_deletes_nothing(delete: DeleteView, replies: Seq<ReplyView>)
    requires
        !delete.permanent,
    ensures
        match task_action(task_run(delete_at(delete, 0), replies)) {
            ActionView::Trash { file } => exists|k: int|
                0 <= k < delete.entries.len() && file == file_at(
                    #[trigger] delete.entries[k].location,
                ),
            ActionView::Emit { .. } => true,
            _ => false,
        },
{
    lemma_trashing_run(delete, delete_at(delete, 0), replies);
}

proof fn lemma_trashing_run(delete: DeleteView, task: TaskState, replies: Seq<ReplyView>)
    requires
        !delete.permanent,
        match task {
            TaskState::Trashing { delete: served, at } => served == delete && 0 <= at
                < delete.entries.len(),
            TaskState::Ended { .. } => true,
            _ => false,
        },
    ensures
        match task_action(task_run(task, replies)) {
            ActionView::Trash { file } => exists|k: int|
                0 <= k < delete.entries.len() && file == file_at(
                    #[trigger] delete.entries[k].location,
                ),
            ActionView::Emit { .. } => true,
            _ => false,
        },
    decreases replies.len(),
{
    if replies.len() > 0 {
        lemma_trashing_run(delete, task_step(task, replies[0]), replies.drop_first());
    }
}

/// Entries go into the trash in order, each once, and after the last one the deletion is done.
pub proof fn lemma_trashing_in_order(delete: DeleteView, count: nat)
    requires
        !delete.permanent,
        count <= delete.entries.len(),
    ensures
        task_run(delete_at(delete, 0), Seq::new(count, |k: int| ReplyView::Done)) == delete_at(
            delete,
            count as int,
        ),
        delete_at(delete, delete.entries.len() as int) == (TaskState::Ended {
            event: OperationEventView::Deleted { request_id: delete.id },
        }),
{
    lemma_trashing_from(delete, 0, count);
}

proof fn lemma_trashing_from(delete: DeleteView, at: int, count: nat)
    requires
        !delete.permanent,
        0 <= at,
        at + count <= delete.entries.len(),
    ensures
        task_run(delete_at(delete, at), Seq::new(count, |k: int| ReplyView::Done)) == delete_at(
            delete,
            at + count,
        ),
    decreases count,
{
    let replies = Seq::new(count, |k: int| ReplyView::Done);
    if count > 0 {
        assert(replies.drop_first() =~= Seq::new((count - 1) as nat, |k: int| ReplyView::Done));
        lemma_trashing_from(delete, at + 1, (count - 1) as nat);
    }
}

/// A source is transferred where it has a name and would not end up in itself or in its own
/// place, and then into the destination, under its own name. Else the transfer ends there.
pub proof fn lemma_nothing_goes_into_itself(paste: PasteView, at: int, facts: FactsView)
    requires
        0 <= at < paste.sources.len(),
    ensures
        match paste_inspected(paste, at, facts) {
            TaskState::Moving { target, .. } => {
                &&& paste.move_sources
                &&& !transfers_into_itself(facts)
                &&& facts.name matches Some(name) && target == file_at(paste.destination).child(name)
            },
            TaskState::Copying { copy, .. } => {
                &&& !paste.move_sources
                &&& !transfers_into_itself(facts)
                &&& facts.name matches Some(name) && copy == copy_start(
                    file_at(paste.sources[at]),
                    file_at(paste.destination).child(name),
                )
            },
            TaskState::Ended { event } => (event is Failed) && (facts.name is None
                || transfers_into_itself(facts)),
            _ => false,
        },
{
}

/// A failure ends a deletion or a transfer at once: none of the entries or sources behind it has
/// its turn.
pub proof fn lemma_failure_ends_the_operation(task: TaskState, message: Seq<char>)
    requires
        task_valid(task),
        task is Moving || task is Copying || task is Trashing || task is Deleting,
    ensures
        task_step(task, ReplyView::Failed(message)) matches TaskState::Ended { event } && event
            is Failed,
{
}

/// The source whose turn it is in a transfer.
pub open spec fn source_at(task: TaskState) -> Option<(PasteView, int)> {
    match task {
        TaskState::Inspecting { paste, at } => Some((paste, at)),
        TaskState::Moving { paste, at, .. } => Some((paste, at)),
        TaskState::Copying { paste, at, .. } => Some((paste, at)),
        _ => None,
    }
}

/// A transfer goes through its sources in order. The next one has its turn, and after the last one
/// success is reported, only once the one before it has been moved, or copied to the end.
pub proof fn lemma_transfer_goes_through_the_sources(task: TaskState, reply: ReplyView)
    requires
        task_valid(task),
        source_at(task) is Some,
        answers(task_action(task), reply),
    ensures
        ({
            let (paste, at) = source_at(task)->0;
            let next = task_step(task, reply);
            let transferred = match task {
                TaskState::Moving { .. } => reply is Done,
                TaskState::Copying { copy, .. } => copy_step(copy, reply).phase
                    == copy_walk::PhaseState::Finished(Ok(())),
                _ => false,
            };
            if transferred {
                next == paste_at(paste, at + 1)
            } else {
                source_at(next) == Some((paste, at)) || (next matches TaskState::Ended { event }
                    && event is Failed)
            }
        }),
{
}

/// The entry whose turn it is in a deletion.
pub open spec fn entry_at(task: TaskState) -> Option<(DeleteView, int)> {
    match task {
        TaskState::Trashing { delete, at } => Some((delete, at)),
        TaskState::Deleting { delete, at, .. } => Some((delete, at)),
        _ => None,
    }
}

/// A deletion goes through its entries in order. The next one has its turn, and after the last one
/// success is reported, only once the one before it is in the trash, or deleted to the end.
pub proof fn lemma_deletion_goes_through_the_entries(task: TaskState, reply: ReplyView)
    requires
        task_valid(task),
        entry_at(task) is Some,
        answers(task_action(task), reply),
    ensures
        ({
            let (delete, at) = entry_at(task)->0;
            let next = task_step(task, reply);
            let gone = match task {
                TaskState::Trashing { .. } => reply is Done,
                TaskState::Deleting { walk, .. } => delete_step(walk, reply).phase
                    == delete_walk::PhaseState::Finished(Ok(())),
                _ => false,
            };
            if gone {
                next == delete_at(delete, at + 1)
            } else {
                entry_at(next) == Some((delete, at)) || (next matches TaskState::Ended { event }
                    && event is Failed)
            }
        }),
{
}

/// A transfer of nothing and a deletion of nothing are done at once.
pub proof fn lemma_nothing_to_do(paste: PasteView, delete: DeleteView)
    requires
        paste.sources.len() == 0,
        delete.entries.len() == 0,
    ensures
        task_action(paste_at(paste, 0)) == (ActionView::Emit {
            event: OperationEventView::Pasted { request_id: paste.id },
        }),
        task_action(delete_at(delete, 0)) == (ActionView::Emit {
            event: OperationEventView::Deleted { request_id: delete.id },
        }),
{
}

} // verus!
