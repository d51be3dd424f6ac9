//! What a walk through a tree of files does as a whole.
use vstd::prelude::*;

use crate::copy_walk;
use crate::copy_walk::{copy_action, copy_next, copy_start, copy_step};
use crate::delete_walk;
use crate::delete_walk::{delete_action, delete_next, delete_start, delete_step};
use crate::files::{ActionView, ChildView, FileRefView, ReplyView};

verus! {

/// A file, with all that it holds.
pub enum FileTree {
    File,
    Directory(Seq<NamedTree>),
}

/// A file in a directory.
pub struct NamedTree {
    pub name: Seq<u8>,
    pub tree: FileTree,
}

/// What a directory tells of the files that it holds.
pub open spec fn listing(children: Seq<NamedTree>) -> Seq<ChildView> {
    children.map_values(
        |child: NamedTree| ChildView { name: child.name, directory: child.tree is Directory },
    )
}

/// A batch that a directory hands out: the next files in order, and none only at the end.
pub open spec fn is_batch(rest: Seq<NamedTree>, batch: Seq<ChildView>) -> bool {
    &&& batch.len() <= rest.len()
    &&& batch == listing(rest.take(batch.len() as int))
    &&& rest.len() > 0 ==> batch.len() > 0
}

/// The files in the order in which they are deleted: what a directory holds goes before it.
pub open spec fn deletion_order(file: FileRefView, tree: FileTree) -> Seq<FileRefView>
    decreases tree,
{
    match tree {
        FileTree::File => seq![file],
        FileTree::Directory(children) => deletion_order_in(file, children).push(file),
    }
}

/// The files in a directory in the order in which they are deleted.
pub open spec fn deletion_order_in(
    directory: FileRefView,
    children: Seq<NamedTree>,
) -> Seq<FileRefView>
    decreases children,
{
    if children.len() == 0 {
        Seq::empty()
    } else {
        deletion_order(directory.child(children[0].name), children[0].tree) + deletion_order_in(
            directory,
            children.drop_first(),
        )
    }
}

/// What is written, in order, when a file is copied: a directory is made before it is filled.
pub open spec fn copy_order(source: FileRefView, target: FileRefView, tree: FileTree) -> Seq<
    ActionView,
>
    decreases tree,
{
    match tree {
        FileTree::File => seq![ActionView::CopyFile { source, target }],
        FileTree::Directory(children) => seq![ActionView::MakeDirectory { file: target }]
            + copy_order_in(source, target, children),
    }
}

/// What is written, in order, when the files in a directory are copied.
pub open spec fn copy_order_in(
    source: FileRefView,
    target: FileRefView,
    children: Seq<NamedTree>,
) -> Seq<ActionView>
    decreases children,
{
    if children.len() == 0 {
        Seq::empty()
    } else {
        copy_order(
            source.child(children[0].name),
            target.child(children[0].name),
            children[0].tree,
        ) + copy_order_in(source, target, children.drop_first())
    }
}

// Deleting.
//
// `rests` holds, for each directory that is being emptied, its files whose turn has not come.

spec fn pending_fits(pending: Seq<ChildView>, rest: Seq<NamedTree>) -> bool {
    pending.len() <= rest.len() && pending == listing(rest.take(pending.len() as int))
}

spec fn delete_fits(walk: delete_walk::WalkState, rests: Seq<Seq<NamedTree>>) -> bool {
    &&& rests.len() == walk.frames.len()
    &&& forall|k: int|
        0 <= k < rests.len() ==> pending_fits((#[trigger] walk.frames[k]).pending, rests[k])
    &&& walk.phase is Opening || walk.phase is Listing ==> walk.frames.len() > 0
        && walk.frames.last().pending.len() == 0
}

/// What is left of each directory once it turns to its next file.
pub open spec fn delete_rests_next(
    frames: Seq<delete_walk::FrameState>,
    rests: Seq<Seq<NamedTree>>,
) -> Seq<Seq<NamedTree>> {
    if frames.len() == 0 || frames.last().pending.len() == 0 {
        rests
    } else {
        let kept = rests.update(rests.len() - 1, rests.last().drop_first());
        match rests.last()[0].tree {
            FileTree::Directory(children) => kept.push(children),
            FileTree::File => kept,
        }
    }
}

/// What is left of each directory after a reply.
pub open spec fn delete_rests_step(
    walk: delete_walk::WalkState,
    rests: Seq<Seq<NamedTree>>,
    reply: ReplyView,
) -> Seq<Seq<NamedTree>> {
    match reply {
        ReplyView::Children(children) => if children.len() == 0 {
            rests.drop_last()
        } else {
            delete_rests_next(
                walk.frames.update(
                    walk.frames.len() - 1,
                    delete_walk::FrameState { pending: children, ..walk.frames.last() },
                ),
                rests,
            )
        },
        _ => match walk.phase {
            delete_walk::PhaseState::Opening => rests,
            _ => delete_rests_next(walk.frames, rests),
        },
    }
}

/// Whether a reply is one of a tree of which no file fails to be listed or deleted.
pub open spec fn delete_reply_fits(
    walk: delete_walk::WalkState,
    rests: Seq<Seq<NamedTree>>,
    reply: ReplyView,
) -> bool {
    match walk.phase {
        delete_walk::PhaseState::Listing => reply matches ReplyView::Children(batch) && is_batch(
            rests.last(),
            batch,
        ),
        delete_walk::PhaseState::Finished(_) => false,
        _ => reply is Done,
    }
}

/// Whether replies are those of a tree of which no file fails to be listed or deleted, from a
/// point of the walk on at which `rests` are the files whose turn has not come.
pub open spec fn delete_replies_fit(
    walk: delete_walk::WalkState,
    rests: Seq<Seq<NamedTree>>,
    replies: Seq<ReplyView>,
) -> bool
    decreases replies.len(),
{
    replies.len() > 0 ==> {
        &&& delete_reply_fits(walk, rests, replies[0])
        &&& delete_replies_fit(
            delete_step(walk, replies[0]),
            delete_rests_step(walk, rests, replies[0]),
            replies.drop_first(),
        )
    }
}

/// Whether replies are those of a tree of which no file fails to be listed or deleted.
pub open spec fn delete_faithful(
    file: FileRefView,
    tree: FileTree,
    replies: Seq<ReplyView>,
) -> bool {
    delete_replies_fit(
        delete_start(file, tree is Directory),
        match tree {
            FileTree::Directory(children) => seq![children],
            FileTree::File => Seq::empty(),
        },
        replies,
    )
}

/// Where a walk stands after replies.
pub open spec fn delete_run(
    walk: delete_walk::WalkState,
    replies: Seq<ReplyView>,
) -> delete_walk::WalkState
    decreases replies.len(),
{
    if replies.len() == 0 {
        walk
    } else {
        delete_run(delete_step(walk, replies[0]), replies.drop_first())
    }
}

/// The files that a walk deletes, in order, up to the last of the replies.
pub open spec fn deleted(walk: delete_walk::WalkState, replies: Seq<ReplyView>) -> Seq<FileRefView>
    decreases replies.len(),
{
    if replies.len() == 0 {
        Seq::empty()
    } else {
        (match walk.phase {
            delete_walk::PhaseState::Deleting(file) => if replies[0] is Done {
                seq![file]
            } else {
                Seq::empty()
            },
            _ => Seq::empty(),
        }) + deleted(delete_step(walk, replies[0]), replies.drop_first())
    }
}

spec fn left_in(frames: Seq<delete_walk::FrameState>, rests: Seq<Seq<NamedTree>>) -> Seq<FileRefView>
    decreases frames.len(),
{
    if frames.len() == 0 {
        Seq::empty()
    } else {
        deletion_order_in(frames.last().file, rests.last()).push(frames.last().file) + left_in(
            frames.drop_last(),
            rests.drop_last(),
        )
    }
}

spec fn left(walk: delete_walk::WalkState, rests: Seq<Seq<NamedTree>>) -> Seq<FileRefView> {
    match walk.phase {
        delete_walk::PhaseState::Deleting(file) => seq![file] + left_in(walk.frames, rests),
        delete_walk::PhaseState::Finished(_) => Seq::empty(),
        _ => left_in(walk.frames, rests),
    }
}

proof fn lemma_next_pending(pending: Seq<ChildView>, rest: Seq<NamedTree>)
    requires
        pending_fits(pending, rest),
        pending.len() > 0,
    ensures
        pending[0].name == rest[0].name,
        pending[0].directory == (rest[0].tree is Directory),
        pending_fits(pending.drop_first(), rest.drop_first()),
{
    assert(rest.take(pending.len() as int)[0] == rest[0]);
    assert(pending[0] == listing(rest.take(pending.len() as int))[0]);
    assert(pending.drop_first() =~= listing(
        rest.drop_first().take(pending.drop_first().len() as int),
    ));
}

proof fn lemma_delete_next(frames: Seq<delete_walk::FrameState>, rests: Seq<Seq<NamedTree>>)
    requires
        rests.len() == frames.len(),
        forall|k: int|
            0 <= k < rests.len() ==> pending_fits((#[trigger] frames[k]).pending, rests[k]),
    ensures
        delete_fits(delete_next(frames), delete_rests_next(frames, rests)),
        left(delete_next(frames), delete_rests_next(frames, rests)) == left_in(frames, rests),
        delete_next(frames).phase is Finished ==> delete_next(frames).phase
            == delete_walk::PhaseState::Finished(Ok(())),
{
    if frames.len() > 0 && frames.last().pending.len() > 0 {
        let top = frames.last();
        let rest = rests.last();
        assert(pending_fits(frames[frames.len() - 1].pending, rests[frames.len() - 1]));
        lemma_next_pending(top.pending, rest);
        let file = top.file.child(top.pending[0].name);
        let shorter = frames.update(
            frames.len() - 1,
            delete_walk::FrameState { pending: top.pending.drop_first(), ..top },
        );
        let kept = rests.update(rests.len() - 1, rest.drop_first());
        assert(shorter.drop_last() =~= frames.drop_last());
        assert(kept.drop_last() =~= rests.drop_last());
        assert(left_in(shorter, kept) == deletion_order_in(top.file, rest.drop_first()).push(
            top.file,
        ) + left_in(frames.drop_last(), rests.drop_last()));
        let outer = left_in(frames.drop_last(), rests.drop_last());
        let others = deletion_order_in(top.file, rest.drop_first());
        assert(deletion_order_in(top.file, rest) == deletion_order(file, rest[0].tree) + others);
        assert(left_in(frames, rests) == deletion_order_in(top.file, rest).push(top.file) + outer);
        assert(left_in(frames, rests) =~= deletion_order(file, rest[0].tree) + (others.push(
            top.file,
        ) + outer));
        match rest[0].tree {
            FileTree::Directory(children) => {
                let inner = delete_walk::FrameState { file, pending: Seq::empty() };
                assert(shorter.push(inner).drop_last() =~= shorter);
                assert(kept.push(children).drop_last() =~= kept);
                assert(listing(children.take(0)) =~= Seq::empty());
                assert(left_in(shorter.push(inner), kept.push(children)) == deletion_order_in(
                    file,
                    children,
                ).push(file) + left_in(shorter, kept));
                assert(left_in(frames, rests) =~= left_in(
                    shorter.push(inner),
                    kept.push(children),
                ));
            },
            FileTree::File => {
                assert(left_in(frames, rests) =~= seq![file] + left_in(shorter, kept));
            },
        }
    }
}

proof fn lemma_delete_step(
    walk: delete_walk::WalkState,
    rests: Seq<Seq<NamedTree>>,
    reply: ReplyView,
)
    requires
        delete_fits(walk, rests),
        delete_reply_fits(walk, rests, reply),
    ensures
        delete_fits(delete_step(walk, reply), delete_rests_step(walk, rests, reply)),
        left(walk, rests) == deleted(walk, seq![reply]) + left(
            delete_step(walk, reply),
            delete_rests_step(walk, rests, reply),
        ),
        delete_step(walk, reply).phase is Finished ==> delete_step(walk, reply).phase
            == delete_walk::PhaseState::Finished(Ok(())),
{
    let last = walk.frames.len() - 1;
    assert(seq![reply].drop_first() =~= Seq::empty());
    reveal_with_fuel(deleted, 2);
    match reply {
        ReplyView::Children(children) => {
            if children.len() == 0 {
                assert(deletion_order_in(walk.frames.last().file, rests.last()) =~= Seq::empty());
                assert(left(walk, rests) =~= seq![walk.frames.last().file] + left_in(
                    walk.frames.drop_last(),
                    rests.drop_last(),
                ));
                assert(left(walk, rests) =~= deleted(walk, seq![reply]) + left(
                    delete_step(walk, reply),
                    delete_rests_step(walk, rests, reply),
                ));
            } else {
                let frames = walk.frames.update(
                    last,
                    delete_walk::FrameState { pending: children, ..walk.frames.last() },
                );
                lemma_delete_next(frames, rests);
                assert(frames.drop_last() =~= walk.frames.drop_last());
                assert(left_in(frames, rests) == left_in(walk.frames, rests));
                assert(left(walk, rests) =~= deleted(walk, seq![reply]) + left(
                    delete_step(walk, reply),
                    delete_rests_step(walk, rests, reply),
                ));
            }
        },
        _ => {
            if walk.phase is Deleting {
                lemma_delete_next(walk.frames, rests);
            }
            assert(left(walk, rests) =~= deleted(walk, seq![reply]) + left(
                delete_step(walk, reply),
                delete_rests_step(walk, rests, reply),
            ));
        },
    }
}

proof fn lemma_delete_run(
    walk: delete_walk::WalkState,
    rests: Seq<Seq<NamedTree>>,
    replies: Seq<ReplyView>,
)
    requires
        delete_fits(walk, rests),
        delete_replies_fit(walk, rests, replies),
        walk.phase is Finished ==> walk.phase == delete_walk::PhaseState::Finished(Ok(())),
    ensures
        deleted(walk, replies).is_prefix_of(left(walk, rests)),
        delete_run(walk, replies).phase is Finished ==> {
            &&& deleted(walk, replies) == left(walk, rests)
            &&& delete_run(walk, replies).phase == delete_walk::PhaseState::Finished(Ok(()))
        },
    decreases replies.len(),
{
    if replies.len() > 0 {
        let reply = replies[0];
        lemma_delete_step(walk, rests, reply);
        lemma_delete_run(
            delete_step(walk, reply),
            delete_rests_step(walk, rests, reply),
            replies.drop_first(),
        );
        assert(seq![reply].drop_first() =~= Seq::empty());
        reveal_with_fuel(deleted, 2);
        assert(deleted(walk, replies) =~= deleted(walk, seq![reply]) + deleted(
            delete_step(walk, reply),
            replies.drop_first(),
        ));
    } else if walk.phase is Finished {
        assert(left(walk, rests) =~= Seq::empty());
    }
}

/// Where no file of a tree fails to be listed or deleted, a walk deletes the files in order, each
/// once, whatever the batches are in which they are listed, and where it ends, it has deleted
/// them all and reports success.
pub proof fn lemma_delete_walk_deletes_the_tree(
    file: FileRefView,
    tree: FileTree,
    replies: Seq<ReplyView>,
)
    requires
        delete_faithful(file, tree, replies),
    ensures
        ({
            let start = delete_start(file, tree is Directory);
            &&& deleted(start, replies).is_prefix_of(deletion_order(file, tree))
            &&& delete_run(start, replies).phase is Finished ==> {
                &&& deleted(start, replies) == deletion_order(file, tree)
                &&& delete_run(start, replies).phase == delete_walk::PhaseState::Finished(Ok(()))
            }
        }),
{
    let start = delete_start(file, tree is Directory);
    match tree {
        FileTree::Directory(children) => {
            let rests = seq![children];
            assert(listing(children.take(0)) =~= Seq::empty());
            assert(start.frames.drop_last() =~= Seq::empty());
            assert(left(start, rests) =~= deletion_order(file, tree)) by {
                reveal_with_fuel(left_in, 2);
            }
            lemma_delete_run(start, rests, replies);
        },
        FileTree::File => {
            let rests = Seq::<Seq<NamedTree>>::empty();
            assert(left(start, rests) =~= deletion_order(file, tree));
            lemma_delete_run(start, rests, replies);
        },
    }
}

/// The first failure ends a deletion, with the message of the failure.
pub proof fn lemma_failure_ends_a_deletion(walk: delete_walk::WalkState, message: Seq<char>)
    ensures
        delete_step(walk, ReplyView::Failed(message)).phase == delete_walk::PhaseState::Finished(
            Err(message),
        ),
        delete_action(delete_step(walk, ReplyView::Failed(message))) is None,
{
}

// Copying.
//
// `rests` holds, for each directory that is being copied, its files whose turn has not come, and
// `current` is the file whose turn it is.

/// Whether listed files are the next ones of a directory, by their names.
pub open spec fn names_fit(pending: Seq<ChildView>, rest: Seq<NamedTree>) -> bool {
    &&& pending.len() <= rest.len()
    &&& forall|k: int| 0 <= k < pending.len() ==> (#[trigger] pending[k]).name == rest[k].name
}

spec fn copy_fits(
    walk: copy_walk::WalkState,
    rests: Seq<Seq<NamedTree>>,
    current: FileTree,
) -> bool {
    &&& rests.len() == walk.frames.len()
    &&& forall|k: int|
        0 <= k < rests.len() ==> names_fit((#[trigger] walk.frames[k]).pending, rests[k])
    &&& walk.phase is Opening || walk.phase is Listing ==> walk.frames.len() > 0
        && walk.frames.last().pending.len() == 0
    &&& walk.phase is Making ==> current is Directory
    &&& walk.phase is Copying ==> current is File
}

/// What is left of each directory once it turns to its next file.
pub open spec fn copy_rests_next(
    frames: Seq<copy_walk::FrameState>,
    rests: Seq<Seq<NamedTree>>,
) -> Seq<Seq<NamedTree>> {
    if frames.len() == 0 || frames.last().pending.len() == 0 {
        rests
    } else {
        rests.update(rests.len() - 1, rests.last().drop_first())
    }
}

/// The file that a directory turns to.
pub open spec fn copy_current_next(
    frames: Seq<copy_walk::FrameState>,
    rests: Seq<Seq<NamedTree>>,
) -> FileTree {
    if frames.len() == 0 || frames.last().pending.len() == 0 {
        FileTree::File
    } else {
        rests.last()[0].tree
    }
}

/// The directories once the innermost one has been listed further. One with nothing further is
/// done.
pub open spec fn copy_frames_listed(
    frames: Seq<copy_walk::FrameState>,
    children: Seq<ChildView>,
) -> Seq<copy_walk::FrameState> {
    if children.len() == 0 {
        frames.drop_last()
    } else {
        frames.update(
            frames.len() - 1,
            copy_walk::FrameState { pending: children, ..frames.last() },
        )
    }
}

/// What is left of each directory once the innermost one has been listed further.
pub open spec fn copy_rests_listed(
    rests: Seq<Seq<NamedTree>>,
    children: Seq<ChildView>,
) -> Seq<Seq<NamedTree>> {
    if children.len() == 0 {
        rests.drop_last()
    } else {
        rests
    }
}

/// What is left of each directory after a reply.
pub open spec fn copy_rests_step(
    walk: copy_walk::WalkState,
    rests: Seq<Seq<NamedTree>>,
    current: FileTree,
    reply: ReplyView,
) -> Seq<Seq<NamedTree>> {
    match reply {
        ReplyView::Children(children) => copy_rests_next(
            copy_frames_listed(walk.frames, children),
            copy_rests_listed(rests, children),
        ),
        _ => match walk.phase {
            copy_walk::PhaseState::Making { .. } => rests.push(current->Directory_0),
            copy_walk::PhaseState::Copying { .. } => copy_rests_next(walk.frames, rests),
            _ => rests,
        },
    }
}

/// The file whose turn it is after a reply.
pub open spec fn copy_current_step(
    walk: copy_walk::WalkState,
    rests: Seq<Seq<NamedTree>>,
    current: FileTree,
    reply: ReplyView,
) -> FileTree {
    match reply {
        ReplyView::Children(children) => copy_current_next(
            copy_frames_listed(walk.frames, children),
            copy_rests_listed(rests, children),
        ),
        _ => match walk.phase {
            copy_walk::PhaseState::Copying { .. } => copy_current_next(walk.frames, rests),
            _ => current,
        },
    }
}

/// Whether a reply is one of a tree of which no file fails to be listed or copied.
pub open spec fn copy_reply_fits(
    walk: copy_walk::WalkState,
    rests: Seq<Seq<NamedTree>>,
    current: FileTree,
    reply: ReplyView,
) -> bool {
    match walk.phase {
        copy_walk::PhaseState::Asking { .. } => reply == (ReplyView::Kind {
            directory: current is Directory,
        }),
        copy_walk::PhaseState::Listing => reply matches ReplyView::Children(batch) && names_fit(
            batch,
            rests.last(),
        ) && (rests.last().len() > 0 ==> batch.len() > 0),
        copy_walk::PhaseState::Finished(_) => false,
        _ => reply is Done,
    }
}

/// Whether replies are those of a tree of which no file fails to be listed or copied, from a
/// point of the walk on at which it is the turn of `current`, and `rests` are the files whose turn
/// has not come.
pub open spec fn copy_replies_fit(
    walk: copy_walk::WalkState,
    rests: Seq<Seq<NamedTree>>,
    current: FileTree,
    replies: Seq<ReplyView>,
) -> bool
    decreases replies.len(),
{
    replies.len() > 0 ==> {
        &&& copy_reply_fits(walk, rests, current, replies[0])
        &&& copy_replies_fit(
            copy_step(walk, replies[0]),
            copy_rests_step(walk, rests, current, replies[0]),
            copy_current_step(walk, rests, current, replies[0]),
            replies.drop_first(),
        )
    }
}

/// Whether replies are those of a tree of which no file fails to be listed or copied.
pub open spec fn copy_faithful(
    source: FileRefView,
    target: FileRefView,
    tree: FileTree,
    replies: Seq<ReplyView>,
) -> bool {
    copy_replies_fit(copy_start(source, target), Seq::empty(), tree, replies)
}

/// Where a walk stands after replies.
pub open spec fn copy_run(
    walk: copy_walk::WalkState,
    replies: Seq<ReplyView>,
) -> copy_walk::WalkState
    decreases replies.len(),
{
    if replies.len() == 0 {
        walk
    } else {
        copy_run(copy_step(walk, replies[0]), replies.drop_first())
    }
}

/// The directories that a walk makes and the files that it copies, in order, up to the last of the
/// replies.
pub open spec fn copied(walk: copy_walk::WalkState, replies: Seq<ReplyView>) -> Seq<ActionView>
    decreases replies.len(),
{
    if replies.len() == 0 {
        Seq::empty()
    } else {
        (if (walk.phase is Making || walk.phase is Copying) && replies[0] is Done {
            seq![copy_action(walk)->0]
        } else {
            Seq::empty()
        }) + copied(copy_step(walk, replies[0]), replies.drop_first())
    }
}

spec fn uncopied_in(
    frames: Seq<copy_walk::FrameState>,
    rests: Seq<Seq<NamedTree>>,
) -> Seq<ActionView>
    decreases frames.len(),
{
    if frames.len() == 0 {
        Seq::empty()
    } else {
        copy_order_in(frames.last().source, frames.last().target, rests.last()) + uncopied_in(
            frames.drop_last(),
            rests.drop_last(),
        )
    }
}

spec fn uncopied(
    walk: copy_walk::WalkState,
    rests: Seq<Seq<NamedTree>>,
    current: FileTree,
) -> Seq<ActionView> {
    match walk.phase {
        copy_walk::PhaseState::Asking { source, target } => copy_order(source, target, current)
            + uncopied_in(walk.frames, rests),
        copy_walk::PhaseState::Making { source, target } => copy_order(source, target, current)
            + uncopied_in(walk.frames, rests),
        copy_walk::PhaseState::Copying { source, target } => copy_order(source, target, current)
            + uncopied_in(walk.frames, rests),
        copy_walk::PhaseState::Finished(_) => Seq::empty(),
        _ => uncopied_in(walk.frames, rests),
    }
}

proof fn lemma_copy_next(frames: Seq<copy_walk::FrameState>, rests: Seq<Seq<NamedTree>>)
    requires
        rests.len() == frames.len(),
        forall|k: int| 0 <= k < rests.len() ==> names_fit((#[trigger] frames[k]).pending, rests[k]),
    ensures
        copy_fits(
            copy_next(frames),
            copy_rests_next(frames, rests),
            copy_current_next(frames, rests),
        ),
        uncopied(
            copy_next(frames),
            copy_rests_next(frames, rests),
            copy_current_next(frames, rests),
        ) == uncopied_in(frames, rests),
        copy_next(frames).phase is Finished ==> copy_next(frames).phase
            == copy_walk::PhaseState::Finished(Ok(())),
{
    if frames.len() > 0 && frames.last().pending.len() > 0 {
        let top = frames.last();
        let rest = rests.last();
        assert(names_fit(frames[frames.len() - 1].pending, rests[frames.len() - 1]));
        assert(top.pending[0].name == rest[0].name);
        let source = top.source.child(rest[0].name);
        let target = top.target.child(rest[0].name);
        let shorter = frames.update(
            frames.len() - 1,
            copy_walk::FrameState { pending: top.pending.drop_first(), ..top },
        );
        let kept = rests.update(rests.len() - 1, rest.drop_first());
        assert(names_fit(top.pending.drop_first(), rest.drop_first()));
        assert(shorter.drop_last() =~= frames.drop_last());
        assert(kept.drop_last() =~= rests.drop_last());
        let outer = uncopied_in(frames.drop_last(), rests.drop_last());
        let others = copy_order_in(top.source, top.target, rest.drop_first());
        assert(uncopied_in(shorter, kept) == others + outer);
        assert(copy_order_in(top.source, top.target, rest) == copy_order(
            source,
            target,
            rest[0].tree,
        ) + others);
        assert(uncopied_in(frames, rests) == copy_order_in(top.source, top.target, rest) + outer);
        assert(uncopied_in(frames, rests) =~= copy_order(source, target, rest[0].tree) + (others
            + outer));
    }
}

proof fn lemma_copy_step(
    walk: copy_walk::WalkState,
    rests: Seq<Seq<NamedTree>>,
    current: FileTree,
    reply: ReplyView,
)
    requires
        copy_fits(walk, rests, current),
        copy_reply_fits(walk, rests, current, reply),
    ensures
        copy_fits(
            copy_step(walk, reply),
            copy_rests_step(walk, rests, current, reply),
            copy_current_step(walk, rests, current, reply),
        ),
        uncopied(walk, rests, current) == copied(walk, seq![reply]) + uncopied(
            copy_step(walk, reply),
            copy_rests_step(walk, rests, current, reply),
            copy_current_step(walk, rests, current, reply),
        ),
        copy_step(walk, reply).phase is Finished ==> copy_step(walk, reply).phase
            == copy_walk::PhaseState::Finished(Ok(())),
{
    assert(seq![reply].drop_first() =~= Seq::empty());
    reveal_with_fuel(copied, 2);
    match reply {
        ReplyView::Children(children) => {
            let frames = copy_frames_listed(walk.frames, children);
            let listed = copy_rests_listed(rests, children);
            lemma_copy_next(frames, listed);
            if children.len() == 0 {
                assert(copy_order_in(
                    walk.frames.last().source,
                    walk.frames.last().target,
                    rests.last(),
                ) =~= Seq::empty());
                assert(uncopied_in(walk.frames, rests) =~= uncopied_in(frames, listed));
            } else {
                assert(frames.drop_last() =~= walk.frames.drop_last());
                assert(uncopied_in(walk.frames, rests) == uncopied_in(frames, listed));
            }
        },
        _ => match walk.phase {
            copy_walk::PhaseState::Making { source, target } => {
                let children = current->Directory_0;
                let inner = copy_walk::FrameState { source, target, pending: Seq::empty() };
                assert(walk.frames.push(inner).drop_last() =~= walk.frames);
                assert(rests.push(children).drop_last() =~= rests);
                assert(uncopied_in(walk.frames.push(inner), rests.push(children)) == copy_order_in(
                    source,
                    target,
                    children,
                ) + uncopied_in(walk.frames, rests));
            },
            copy_walk::PhaseState::Copying { .. } => {
                lemma_copy_next(walk.frames, rests);
            },
            _ => {},
        },
    }
    assert(uncopied(walk, rests, current) =~= copied(walk, seq![reply]) + uncopied(
        copy_step(walk, reply),
        copy_rests_step(walk, rests, current, reply),
        copy_current_step(walk, rests, current, reply),
    ));
}

proof fn lemma_copy_run(
    walk: copy_walk::WalkState,
    rests: Seq<Seq<NamedTree>>,
    current: FileTree,
    replies: Seq<ReplyView>,
)
    requires
        copy_fits(walk, rests, current),
        copy_replies_fit(walk, rests, current, replies),
        walk.phase is Finished ==> walk.phase == copy_walk::PhaseState::Finished(Ok(())),
    ensures
        copied(walk, replies).is_prefix_of(uncopied(walk, rests, current)),
        copy_run(walk, replies).phase is Finished ==> {
            &&& copied(walk, replies) == uncopied(walk, rests, current)
            &&& copy_run(walk, replies).phase == copy_walk::PhaseState::Finished(Ok(()))
        },
    decreases replies.len(),
{
    if replies.len() > 0 {
        let reply = replies[0];
        lemma_copy_step(walk, rests, current, reply);
        lemma_copy_run(
            copy_step(walk, reply),
            copy_rests_step(walk, rests, current, reply),
            copy_current_step(walk, rests, current, reply),
            replies.drop_first(),
        );
        assert(seq![reply].drop_first() =~= Seq::empty());
        reveal_with_fuel(copied, 2);
        assert(copied(walk, replies) =~= copied(walk, seq![reply]) + copied(
            copy_step(walk, reply),
            replies.drop_first(),
        ));
    } else if walk.phase is Finished {
        assert(uncopied(walk, rests, current) =~= Seq::empty());
    }
}

/// Where no file of a tree fails to be listed or copied, a walk makes the directories and copies
/// the files in order, each once, whatever the batches are in which they are listed, and where it
/// ends, it has copied them all and reports success.
pub proof fn lemma_copy_walk_copies_the_tree(
    source: FileRefView,
    target: FileRefView,
    tree: FileTree,
    replies: Seq<ReplyView>,
)
    requires
        copy_faithful(source, target, tree, replies),
    ensures
        ({
            let start = copy_start(source, target);
            &&& copied(start, replies).is_prefix_of(copy_order(source, target, tree))
            &&& copy_run(start, replies).phase is Finished ==> {
                &&& copied(start, replies) == copy_order(source, target, tree)
                &&& copy_run(start, replies).phase == copy_walk::PhaseState::Finished(Ok(()))
            }
        }),
{
    let start = copy_start(source, target);
    lemma_copy_run(start, Seq::empty(), tree, replies);
    assert(uncopied(start, Seq::empty(), tree) =~= copy_order(source, target, tree));
}

/// The first failure ends a copy, with the message of the failure.
pub proof fn lemma_failure_ends_a_copy(walk: copy_walk::WalkState, message: Seq<char>)
    ensures
        copy_step(walk, ReplyView::Failed(message)).phase == copy_walk::PhaseState::Finished(
            Err(message),
        ),
        copy_action(copy_step(walk, ReplyView::Failed(message))) is None,
{
}

} // verus!
