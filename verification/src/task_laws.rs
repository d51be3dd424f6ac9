//! What the steps of an operation on files are: which files they touch, in which order, and what is
//! reported in the end.
use vstd::prelude::*;

use crate::delete_walk::delete_start;
use crate::event::OperationEventView;
use crate::files::{ActionView, ChildView, FactsView, FileRefView, ReplyView};
use crate::operation_laws::task_run;
use crate::operations::{
    delete_at, paste_at, task_action, task_step, DeleteView, PasteView, TaskState,
};
use crate::model::LocationView;

verus! {

/// The file that is reached from a place over names.
pub open spec fn reached(base: LocationView, names: Seq<Seq<u8>>) -> FileRefView {
    FileRefView { base, names }
}

/// Whether a task has nothing left to do but to report.
pub open spec fn reports(task: TaskState, event: OperationEventView) -> bool {
    task_action(task) == (ActionView::Emit { event })
}

// Names and directories.

/// A rename gives that file that name, and reports that it did, or why it could not.
pub proof fn lemma_rename_sets_the_name(
    id: int,
    file: FileRefView,
    name: Seq<char>,
    message: Seq<char>,
)
    ensures
        ({
            let task = TaskState::Renaming { id, file, name };
            &&& task_action(task) == (ActionView::SetDisplayName { file, name })
            &&& reports(
                task_step(task, ReplyView::Done),
                OperationEventView::Renamed { request_id: id },
            )
            &&& reports(
                task_step(task, ReplyView::Failed(message)),
                OperationEventView::Failed { request_id: id, message },
            )
        }),
{
}

/// A new directory is made as that file, and is reported to be there, or why it could not be made.
pub proof fn lemma_directory_is_made(id: int, file: FileRefView, message: Seq<char>)
    ensures
        ({
            let task = TaskState::Creating { id, file };
            &&& task_action(task) == (ActionView::MakeDirectory { file })
            &&& reports(
                task_step(task, ReplyView::Done),
                OperationEventView::Created { request_id: id },
            )
            &&& reports(
                task_step(task, ReplyView::Failed(message)),
                OperationEventView::Failed { request_id: id, message },
            )
        }),
{
}

// Transfers.

/// A transfer looks at each source before it touches it, in turn from the first to the last, and
/// reports after the last one that it is done.
pub proof fn lemma_sources_have_their_turn(paste: PasteView, at: int)
    requires
        0 <= at <= paste.sources.len(),
    ensures
        at < paste.sources.len() ==> task_action(paste_at(paste, at)) == (
        ActionView::InspectTransfer {
            source: reached(paste.sources[at], Seq::empty()),
            destination: reached(paste.destination, Seq::empty()),
        }),
        at == paste.sources.len() ==> reports(
            paste_at(paste, at),
            OperationEventView::Pasted { request_id: paste.id },
        ),
{
}

/// Whether a source may be transferred: it has a name, is neither the destination nor what would be
/// written, and does not hold the destination.
pub open spec fn may_go(facts: FactsView) -> bool {
    &&& facts.name is Some
    &&& !facts.is_target
    &&& !facts.is_destination
    &&& !facts.holds_destination
}

/// Where a source goes: into the destination, under its own name.
pub open spec fn goes_to(paste: PasteView, facts: FactsView) -> FileRefView {
    reached(paste.destination, seq![facts.name->0])
}

/// A transfer that moves, moves each source into the destination under its own name, and then turns
/// to the next one.
pub proof fn lemma_source_is_moved(paste: PasteView, at: int, facts: FactsView)
    requires
        paste.move_sources,
        0 <= at < paste.sources.len(),
        may_go(facts),
    ensures
        ({
            let seen = task_step(paste_at(paste, at), ReplyView::Facts(facts));
            &&& task_action(seen) == (ActionView::MoveFile {
                source: reached(paste.sources[at], Seq::empty()),
                target: goes_to(paste, facts),
            })
            &&& task_step(seen, ReplyView::Done) == paste_at(paste, at + 1)
        }),
{
}

/// A transfer that copies, asks what each source is. A file is copied into the destination under
/// its own name, and then it is the turn of the next source. For a directory, one of that name is
/// made there. It never moves or deletes anything.
pub proof fn lemma_source_is_copied(paste: PasteView, at: int, facts: FactsView)
    requires
        !paste.move_sources,
        0 <= at < paste.sources.len(),
        may_go(facts),
    ensures
        ({
            let source = reached(paste.sources[at], Seq::empty());
            let target = goes_to(paste, facts);
            let seen = task_step(paste_at(paste, at), ReplyView::Facts(facts));
            let file = task_step(seen, ReplyView::Kind { directory: false });
            let directory = task_step(seen, ReplyView::Kind { directory: true });
            &&& task_action(seen) == (ActionView::QueryKind { file: source })
            &&& task_action(file) == (ActionView::CopyFile { source, target })
            &&& task_step(file, ReplyView::Done) == paste_at(paste, at + 1)
            &&& task_action(directory) == (ActionView::MakeDirectory { file: target })
            &&& task_action(task_step(directory, ReplyView::Done)) == (ActionView::OpenChildren {
                file: source,
            })
        }),
{
}

/// A source that may not go ends the transfer with a message, and nothing is done to it.
pub proof fn lemma_source_stays(paste: PasteView, at: int, facts: FactsView)
    requires
        0 <= at < paste.sources.len(),
        !may_go(facts),
    ensures
        ({
            let seen = task_step(paste_at(paste, at), ReplyView::Facts(facts));
            &&& task_action(seen) is Emit
            &&& task_action(seen)->Emit_event is Failed
            &&& task_action(seen)->Emit_event->Failed_request_id == paste.id
            &&& task_action(seen)->Emit_event->Failed_message == if facts.name is None {
                "A clipboard item has no file name"@
            } else {
                "A file or folder cannot be transferred into itself"@
            }
        }),
{
}

/// What a task is to do at each of its steps.
pub open spec fn steps_of(task: TaskState, replies: Seq<ReplyView>) -> Seq<ActionView>
    decreases replies.len(),
{
    if replies.len() == 0 {
        seq![task_action(task)]
    } else {
        seq![task_action(task)] + steps_of(task_step(task, replies[0]), replies.drop_first())
    }
}

/// What is moved in the course of steps, in order.
pub open spec fn moves_in(steps: Seq<ActionView>) -> Seq<(FileRefView, FileRefView)>
    decreases steps.len(),
{
    if steps.len() == 0 {
        Seq::empty()
    } else {
        let rest = moves_in(steps.drop_first());
        match steps[0] {
            ActionView::MoveFile { source, target } => seq![(source, target)] + rest,
            _ => rest,
        }
    }
}

/// Where nothing goes wrong, a transfer that moves, moves all of its sources in their order, each
/// once and each into the destination under its own name, and reports that it is done.
pub proof fn lemma_all_sources_are_moved(
    paste: PasteView,
    facts: Seq<FactsView>,
    replies: Seq<ReplyView>,
)
    requires
        paste.move_sources,
        facts.len() == paste.sources.len(),
        forall|k: int| 0 <= k < facts.len() ==> may_go(#[trigger] facts[k]),
        replies.len() == 2 * facts.len(),
        forall|k: int|
            0 <= k < facts.len() ==> replies[2 * k] == ReplyView::Facts(#[trigger] facts[k])
                && replies[2 * k + 1] == ReplyView::Done,
    ensures
        ({
            let task = paste_at(paste, 0);
            let moved = moves_in(steps_of(task, replies));
            &&& reports(
                task_run(task, replies),
                OperationEventView::Pasted { request_id: paste.id },
            )
            &&& moved.len() == paste.sources.len()
            &&& forall|k: int|
                0 <= k < moved.len() ==> #[trigger] moved[k] == (
                    reached(paste.sources[k], Seq::empty()),
                    goes_to(paste, facts[k]),
                )
        }),
{
    lemma_moved_from(paste, facts, replies, 0);
}

proof fn lemma_moved_from(
    paste: PasteView,
    facts: Seq<FactsView>,
    replies: Seq<ReplyView>,
    at: int,
)
    requires
        paste.move_sources,
        0 <= at,
        facts.len() + at == paste.sources.len(),
        forall|k: int| 0 <= k < facts.len() ==> may_go(#[trigger] facts[k]),
        replies.len() == 2 * facts.len(),
        forall|k: int|
            0 <= k < facts.len() ==> replies[2 * k] == ReplyView::Facts(#[trigger] facts[k])
                && replies[2 * k + 1] == ReplyView::Done,
    ensures
        ({
            let task = paste_at(paste, at);
            let moved = moves_in(steps_of(task, replies));
            &&& reports(
                task_run(task, replies),
                OperationEventView::Pasted { request_id: paste.id },
            )
            &&& moved.len() == facts.len()
            &&& forall|k: int|
                0 <= k < moved.len() ==> #[trigger] moved[k] == (
                    reached(paste.sources[at + k], Seq::empty()),
                    goes_to(paste, facts[k]),
                )
        }),
    decreases facts.len(),
{
    let task = paste_at(paste, at);
    if facts.len() == 0 {
        lemma_sources_have_their_turn(paste, at);
        let steps = steps_of(task, replies);
        assert(steps.drop_first() =~= Seq::empty());
        assert(moves_in(steps.drop_first()) =~= Seq::empty());
    } else {
        lemma_sources_have_their_turn(paste, at);
        lemma_source_is_moved(paste, at, facts[0]);
        let first = facts[0];
        assert(replies[0] == ReplyView::Facts(first) && replies[1] == ReplyView::Done);
        let later = facts.drop_first();
        let tail = replies.drop_first();
        let rest = tail.drop_first();
        assert forall|k: int| 0 <= k < later.len() implies rest[2 * k] == ReplyView::Facts(
            #[trigger] later[k],
        ) && rest[2 * k + 1] == ReplyView::Done by {
            assert(later[k] == facts[k + 1]);
            assert(rest[2 * k] == replies[2 * (k + 1)]);
            assert(rest[2 * k + 1] == replies[2 * (k + 1) + 1]);
        }
        lemma_moved_from(paste, later, rest, at + 1);
        let seen = task_step(task, replies[0]);
        let next = task_step(seen, tail[0]);
        assert(tail[0] == replies[1]);
        assert(next == paste_at(paste, at + 1));
        let steps = steps_of(task, replies);
        let second = steps_of(seen, tail);
        let third = steps_of(next, rest);
        assert(steps.drop_first() =~= second);
        assert(second.drop_first() =~= third);
        assert(steps[0] == task_action(task));
        assert(second[0] == task_action(seen));
        let moved = moves_in(steps);
        assert(moved == moves_in(second));
        assert(moved == seq![
            (reached(paste.sources[at], Seq::empty()), goes_to(paste, facts[0])),
        ] + moves_in(third));
        assert forall|k: int| 0 <= k < moved.len() implies #[trigger] moved[k] == (
            reached(paste.sources[at + k], Seq::empty()),
            goes_to(paste, facts[k]),
        ) by {
            if k > 0 {
                assert(moved[k] == moves_in(third)[k - 1]);
                assert(later[k - 1] == facts[k]);
            }
        }
        assert(task_run(task, replies) == task_run(seen, tail));
        assert(task_run(seen, tail) == task_run(next, rest));
    }
}

// Deletions.

/// A deletion turns to its entries from the first to the last. One that is not for good puts each
/// of them into the trash. One that is for good deletes a file itself, and looks into a directory
/// first. After the last entry it reports that it is done.
pub proof fn lemma_entries_have_their_turn(delete: DeleteView, at: int)
    requires
        0 <= at <= delete.entries.len(),
    ensures
        ({
            let task = delete_at(delete, at);
            &&& at == delete.entries.len() ==> reports(
                task,
                OperationEventView::Deleted { request_id: delete.id },
            )
            &&& at < delete.entries.len() ==> {
                let file = reached(delete.entries[at].location, Seq::empty());
                let kind = delete.entries[at].kind;
                &&& !delete.permanent ==> task_action(task) == (ActionView::Trash { file })
                &&& delete.permanent && (kind is Directory || kind is DirectoryLink)
                    ==> task_action(task) == (ActionView::OpenChildren { file })
                &&& delete.permanent && !(kind is Directory || kind is DirectoryLink)
                    ==> task_action(task) == (ActionView::Delete { file })
            }
        }),
{
}

/// Once an entry is in the trash, or a file is deleted, it is the turn of the next entry. Where it
/// cannot be done, the deletion ends and reports the name of the entry and why.
pub proof fn lemma_turn_of_an_entry(delete: DeleteView, at: int, message: Seq<char>)
    requires
        0 <= at < delete.entries.len(),
    ensures
        ({
            let entry = delete.entries[at];
            let task = delete_at(delete, at);
            let file = !(entry.kind is Directory || entry.kind is DirectoryLink);
            &&& !delete.permanent || file ==> task_step(task, ReplyView::Done) == delete_at(
                delete,
                at + 1,
            )
            &&& reports(
                task_step(task, ReplyView::Failed(message)),
                OperationEventView::Failed {
                    request_id: delete.id,
                    message: entry.display_name + ": "@ + message,
                },
            )
        }),
{
}

/// A directory that is deleted for good and turns out to be empty is deleted itself, and then it is
/// the turn of the next entry.
pub proof fn lemma_empty_directory_is_deleted(delete: DeleteView, at: int)
    requires
        0 <= at < delete.entries.len(),
        delete.permanent,
        delete.entries[at].kind is Directory || delete.entries[at].kind is DirectoryLink,
    ensures
        ({
            let file = reached(delete.entries[at].location, Seq::empty());
            let opened = task_step(delete_at(delete, at), ReplyView::Done);
            let emptied = task_step(opened, ReplyView::Children(Seq::empty()));
            &&& task_action(opened) == (ActionView::NextChildren { file })
            &&& task_action(emptied) == (ActionView::Delete { file })
            &&& task_step(emptied, ReplyView::Done) == delete_at(delete, at + 1)
        }),
{
    let file = reached(delete.entries[at].location, Seq::empty());
    let opened = task_step(delete_at(delete, at), ReplyView::Done);
    let emptied = task_step(opened, ReplyView::Children(Seq::empty()));
    assert(delete_start(file, true).frames.drop_last() =~= Seq::empty());
}

// The trash.

/// Emptying the trash lists the trash, and deletes what it lists, one after the other, until
/// nothing more is listed; then it reports that it is done.
pub proof fn lemma_trash_is_emptied(id: int, children: Seq<ChildView>, message: Seq<char>)
    ensures
        ({
            let root = LocationView::Uri("trash:///"@);
            let opening = TaskState::OpeningTrash { id };
            let listing = task_step(opening, ReplyView::Done);
            let listed = task_step(listing, ReplyView::Children(children));
            &&& task_action(opening) == (ActionView::OpenChildren {
                file: reached(root, Seq::empty()),
            })
            &&& task_action(listing) == (ActionView::NextChildren {
                file: reached(root, Seq::empty()),
            })
            &&& children.len() == 0 ==> reports(
                listed,
                OperationEventView::Deleted { request_id: id },
            )
            &&& children.len() > 0 ==> {
                &&& task_action(listed) == (ActionView::Delete {
                    file: reached(root, seq![children[0].name]),
                })
                &&& children.len() == 1 ==> task_step(listed, ReplyView::Done) == listing
                &&& children.len() > 1 ==> task_action(task_step(listed, ReplyView::Done)) == (
                ActionView::Delete { file: reached(root, seq![children[1].name]) })
                &&& !children[0].directory ==> reports(
                    task_step(listed, ReplyView::Failed(message)),
                    OperationEventView::Failed { request_id: id, message },
                )
                &&& children[0].directory ==> task_action(
                    task_step(listed, ReplyView::Failed(message)),
                ) == (ActionView::OpenChildren { file: reached(root, seq![children[0].name]) })
            }
            &&& reports(
                task_step(opening, ReplyView::Failed(message)),
                OperationEventView::Failed { request_id: id, message },
            )
            &&& reports(
                task_step(listing, ReplyView::Failed(message)),
                OperationEventView::Failed { request_id: id, message },
            )
        }),
{
}

} // verus!
