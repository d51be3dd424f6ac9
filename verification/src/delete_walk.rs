//! Deleting a file for good, with everything that it holds.
use vstd::prelude::*;

use crate::files::{
    answers, children_of, ActionView, Child, ChildView, FileAction, FileRef, FileRefView, FileReply,
    ReplyView,
};

verus! {

/// A directory that is being emptied, with those of its listed files whose turn has not come.
#[verifier::ext_equal]
pub struct FrameState {
    pub file: FileRefView,
    pub pending: Seq<ChildView>,
}

/// What a walk waits for.
#[verifier::ext_equal]
pub enum PhaseState {
    Opening,
    Listing,
    Deleting(FileRefView),
    Finished(Result<(), Seq<char>>),
}

/// A walk through a tree of files that deletes them. The directories that are being emptied
/// stand from the outermost to the innermost.
#[verifier::ext_equal]
pub struct WalkState {
    pub frames: Seq<FrameState>,
    pub phase: PhaseState,
}

/// Turns to a file: a directory is emptied first.
pub open spec fn delete_into(frames: Seq<FrameState>, file: FileRefView, directory: bool) -> WalkState {
    if directory {
        WalkState {
            frames: frames.push(FrameState { file, pending: Seq::empty() }),
            phase: PhaseState::Opening,
        }
    } else {
        WalkState { frames, phase: PhaseState::Deleting(file) }
    }
}

/// The start of a walk.
pub open spec fn delete_start(file: FileRefView, directory: bool) -> WalkState {
    delete_into(Seq::empty(), file, directory)
}

/// Turns to the next file of the innermost directory.
pub open spec fn delete_next(frames: Seq<FrameState>) -> WalkState {
    if frames.len() == 0 {
        WalkState { frames, phase: PhaseState::Finished(Ok(())) }
    } else {
        let top = frames.last();
        if top.pending.len() == 0 {
            WalkState { frames, phase: PhaseState::Listing }
        } else {
            delete_into(
                frames.update(
                    frames.len() - 1,
                    FrameState { pending: top.pending.drop_first(), ..top },
                ),
                top.file.child(top.pending[0].name),
                top.pending[0].directory,
            )
        }
    }
}

/// What is to be done in a phase.
pub open spec fn delete_action(walk: WalkState) -> Option<ActionView> {
    match walk.phase {
        PhaseState::Opening => Some(ActionView::OpenChildren { file: walk.frames.last().file }),
        PhaseState::Listing => Some(ActionView::NextChildren { file: walk.frames.last().file }),
        PhaseState::Deleting(file) => Some(ActionView::Delete { file }),
        PhaseState::Finished(_) => None,
    }
}

/// Goes on after a reply. The first failure ends the walk.
pub open spec fn delete_step(walk: WalkState, reply: ReplyView) -> WalkState {
    match reply {
        ReplyView::Failed(message) => WalkState {
            frames: walk.frames,
            phase: PhaseState::Finished(Err(message)),
        },
        ReplyView::Children(children) => if children.len() == 0 {
            WalkState {
                frames: walk.frames.drop_last(),
                phase: PhaseState::Deleting(walk.frames.last().file),
            }
        } else {
            delete_next(
                walk.frames.update(
                    walk.frames.len() - 1,
                    FrameState { pending: children, ..walk.frames.last() },
                ),
            )
        },
        _ => match walk.phase {
            PhaseState::Opening => WalkState { phase: PhaseState::Listing, ..walk },
            _ => delete_next(walk.frames),
        },
    }
}

/// There is a directory to list wherever one is listed.
pub open spec fn delete_walk_valid(walk: WalkState) -> bool {
    walk.phase is Opening || walk.phase is Listing ==> walk.frames.len() > 0
}

#[derive(Debug)]
struct Frame {
    file: FileRef,
    pending: Vec<Child>,
}

#[derive(Debug)]
enum Phase {
    Opening,
    Listing,
    Deleting(FileRef),
    Finished(Result<(), String>),
}

/// A walk through a tree of files that deletes them.
#[derive(Debug)]
pub struct DeleteWalk {
    frames: Vec<Frame>,
    phase: Phase,
}

spec fn frame_of(frame: Frame) -> FrameState {
    FrameState { file: frame.file@, pending: children_of(frame.pending@) }
}

spec fn frames_of(frames: Seq<Frame>) -> Seq<FrameState> {
    frames.map_values(|frame: Frame| frame_of(frame))
}

spec fn phase_of(phase: Phase) -> PhaseState {
    match phase {
        Phase::Opening => PhaseState::Opening,
        Phase::Listing => PhaseState::Listing,
        Phase::Deleting(file) => PhaseState::Deleting(file@),
        Phase::Finished(Ok(_)) => PhaseState::Finished(Ok(())),
        Phase::Finished(Err(message)) => PhaseState::Finished(Err(message@)),
    }
}

impl View for DeleteWalk {
    type V = WalkState;

    closed spec fn view(&self) -> WalkState {
        WalkState { frames: frames_of(self.frames@), phase: phase_of(self.phase) }
    }
}

impl DeleteWalk {
    /// The start of a walk.
    pub fn new(file: FileRef, directory: bool) -> (walk: Self)
        ensures
            walk@ == delete_start(file@, directory),
            delete_walk_valid(walk@),
    {
        let mut walk = DeleteWalk { frames: Vec::new(), phase: Phase::Listing };
        assert(walk@.frames =~= Seq::empty());
        walk.turn_to(file, directory);
        walk
    }

    /// Turns to a file.
    fn turn_to(&mut self, file: FileRef, directory: bool)
        ensures
            final(self)@ == delete_into(old(self)@.frames, file@, directory),
    {
        let ghost before = self.frames@;
        if directory {
            self.frames.push(Frame { file, pending: Vec::new() });
            self.phase = Phase::Opening;
            proof {
                assert(frame_of(self.frames@.last()) =~= FrameState {
                    file: file@,
                    pending: Seq::empty(),
                });
                assert(frames_of(self.frames@) =~= frames_of(before).push(
                    frame_of(self.frames@.last()),
                ));
            }
        } else {
            self.phase = Phase::Deleting(file);
        }
    }

    /// Turns to the next file of the innermost directory.
    fn turn_to_next(&mut self)
        ensures
            final(self)@ == delete_next(old(self)@.frames),
    {
        let ghost before = self@.frames;
        proof {
            assert(before.len() == self.frames@.len());
        }
        if self.frames.len() == 0 {
            self.phase = Phase::Finished(Ok(()));
            return;
        }
        let top: usize = self.frames.len() - 1;
        proof {
            assert(before.last() == frame_of(self.frames@[top as int]));
        }
        if self.frames[top].pending.len() == 0 {
            self.phase = Phase::Listing;
            return;
        }
        let ghost listed = self.frames@[top as int].pending@;
        let child = self.frames[top].pending.remove(0);
        let file = self.frames[top].file.child(&child.name);
        proof {
            assert(children_of(listed)[0] == child@);
            assert(children_of(self.frames@[top as int].pending@) =~= children_of(listed).drop_first());
            assert(frames_of(self.frames@) =~= before.update(
                top as int,
                FrameState {
                    pending: before.last().pending.drop_first(),
                    ..before.last()
                },
            ));
        }
        self.turn_to(file, child.directory);
    }

    /// What is to be done next. Nothing, where the walk has come to its end.
    pub fn action(&self) -> (action: Option<FileAction>)
        requires
            delete_walk_valid(self@),
        ensures
            match action {
                Some(next) => delete_action(self@) == Some(next@),
                None => delete_action(self@) is None,
            },
    {
        proof {
            assert(self@.frames.len() == self.frames@.len());
        }
        match &self.phase {
            Phase::Opening => {
                let top: usize = self.frames.len() - 1;
                Some(FileAction::OpenChildren { file: self.frames[top].file.clone() })
            },
            Phase::Listing => {
                let top: usize = self.frames.len() - 1;
                Some(FileAction::NextChildren { file: self.frames[top].file.clone() })
            },
            Phase::Deleting(file) => Some(FileAction::Delete { file: file.clone() }),
            Phase::Finished(_) => None,
        }
    }

    /// How the walk ended, where it has come to its end.
    pub fn end(&self) -> (end: Option<Result<(), String>>)
        ensures
            match end {
                Some(Ok(_)) => self@.phase == PhaseState::Finished(Ok(())),
                Some(Err(message)) => self@.phase == PhaseState::Finished(Err(message@)),
                None => !(self@.phase is Finished),
            },
    {
        match &self.phase {
            Phase::Finished(Ok(_)) => Some(Ok(())),
            Phase::Finished(Err(message)) => Some(Err(message.clone())),
            _ => None,
        }
    }

    /// Goes on after a reply to the last action.
    pub fn resume(&mut self, reply: FileReply)
        requires
            delete_walk_valid(old(self)@),
            delete_action(old(self)@) matches Some(action) && answers(action, reply@),
        ensures
            final(self)@ == delete_step(old(self)@, reply@),
            delete_walk_valid(final(self)@),
    {
        let ghost before = self@.frames;
        proof {
            assert(before.len() == self.frames@.len());
        }
        match reply {
            FileReply::Failed(message) => {
                self.phase = Phase::Finished(Err(message));
            },
            FileReply::Children(children) => {
                proof {
                    assert(children_of(children@).len() == children@.len());
                }
                let top: usize = self.frames.len() - 1;
                if children.len() == 0 {
                    if let Some(frame) = self.frames.pop() {
                        proof {
                            assert(frames_of(self.frames@) =~= before.drop_last());
                            assert(before.last() == frame_of(frame));
                        }
                        self.phase = Phase::Deleting(frame.file);
                    }
                } else {
                    self.frames[top].pending = children;
                    proof {
                        assert(frames_of(self.frames@) =~= before.update(
                            top as int,
                            FrameState {
                                pending: children_of(children@),
                                ..before.last()
                            },
                        ));
                    }
                    self.turn_to_next();
                }
            },
            _ => {
                if matches!(self.phase, Phase::Opening) {
                    self.phase = Phase::Listing;
                } else {
                    self.turn_to_next();
                }
            },
        }
    }
}

} // verus!
