//! Copying a file, with everything that it holds.
use vstd::prelude::*;

use crate::files::{
    answers, children_of, ActionView, Child, ChildView, FileAction, FileRef, FileRefView, FileReply,
    ReplyView,
};

verus! {

/// A directory that is being copied, with those of its listed files whose turn has not come.
#[verifier::ext_equal]
pub struct FrameState {
    pub source: FileRefView,
    pub target: FileRefView,
    pub pending: Seq<ChildView>,
}

/// What a walk waits for.
#[verifier::ext_equal]
pub enum PhaseState {
    Asking { source: FileRefView, target: FileRefView },
    Making { source: FileRefView, target: FileRefView },
    Opening,
    Listing,
    Copying { source: FileRefView, target: FileRefView },
    Finished(Result<(), Seq<char>>),
}

/// A walk through a tree of files that copies them. The directories that are being copied stand
/// from the outermost to the innermost.
#[verifier::ext_equal]
pub struct WalkState {
    pub frames: Seq<FrameState>,
    pub phase: PhaseState,
}

/// The start of a walk.
pub open spec fn copy_start(source: FileRefView, target: FileRefView) -> WalkState {
    WalkState { frames: Seq::empty(), phase: PhaseState::Asking { source, target } }
}

/// Turns to the next file of the innermost directory. A directory without one is listed further.
pub open spec fn copy_next(frames: Seq<FrameState>) -> WalkState {
    if frames.len() == 0 {
        WalkState { frames, phase: PhaseState::Finished(Ok(())) }
    } else {
        let top = frames.last();
        if top.pending.len() == 0 {
            WalkState { frames, phase: PhaseState::Listing }
        } else {
            WalkState {
                frames: frames.update(
                    frames.len() - 1,
                    FrameState { pending: top.pending.drop_first(), ..top },
                ),
                phase: PhaseState::Asking {
                    source: top.source.child(top.pending[0].name),
                    target: top.target.child(top.pending[0].name),
                },
            }
        }
    }
}

/// What is to be done in a phase.
pub open spec fn copy_action(walk: WalkState) -> Option<ActionView> {
    match walk.phase {
        PhaseState::Asking { source, .. } => Some(ActionView::QueryKind { file: source }),
        PhaseState::Making { target, .. } => Some(ActionView::MakeDirectory { file: target }),
        PhaseState::Opening => Some(ActionView::OpenChildren { file: walk.frames.last().source }),
        PhaseState::Listing => Some(ActionView::NextChildren { file: walk.frames.last().source }),
        PhaseState::Copying { source, target } => Some(ActionView::CopyFile { source, target }),
        PhaseState::Finished(_) => None,
    }
}

/// Goes on after a reply. The first failure ends the walk.
pub open spec fn copy_step(walk: WalkState, reply: ReplyView) -> WalkState {
    match reply {
        ReplyView::Failed(message) => WalkState {
            phase: PhaseState::Finished(Err(message)),
            ..walk
        },
        ReplyView::Children(children) => if children.len() == 0 {
            copy_next(walk.frames.drop_last())
        } else {
            copy_next(
                walk.frames.update(
                    walk.frames.len() - 1,
                    FrameState { pending: children, ..walk.frames.last() },
                ),
            )
        },
        _ => match walk.phase {
            PhaseState::Asking { source, target } => WalkState {
                phase: if reply == (ReplyView::Kind { directory: true }) {
                    PhaseState::Making { source, target }
                } else {
                    PhaseState::Copying { source, target }
                },
                ..walk
            },
            PhaseState::Making { source, target } => WalkState {
                frames: walk.frames.push(FrameState { source, target, pending: Seq::empty() }),
                phase: PhaseState::Opening,
            },
            PhaseState::Opening => WalkState { phase: PhaseState::Listing, ..walk },
            _ => copy_next(walk.frames),
        },
    }
}

/// There is a directory to list wherever one is listed.
pub open spec fn copy_walk_valid(walk: WalkState) -> bool {
    walk.phase is Opening || walk.phase is Listing ==> walk.frames.len() > 0
}

#[derive(Debug)]
struct Frame {
    source: FileRef,
    target: FileRef,
    pending: Vec<Child>,
}

#[derive(Debug)]
enum Phase {
    Asking { source: FileRef, target: FileRef },
    Making { source: FileRef, target: FileRef },
    Opening,
    Listing,
    Copying { source: FileRef, target: FileRef },
    Finished(Result<(), String>),
}

/// A walk through a tree of files that copies them.
#[derive(Debug)]
pub struct CopyWalk {
    frames: Vec<Frame>,
    phase: Phase,
}

spec fn frame_of(frame: Frame) -> FrameState {
    FrameState {
        source: frame.source@,
        target: frame.target@,
        pending: children_of(frame.pending@),
    }
}

spec fn frames_of(frames: Seq<Frame>) -> Seq<FrameState> {
    frames.map_values(|frame: Frame| frame_of(frame))
}

spec fn phase_of(phase: Phase) -> PhaseState {
    match phase {
        Phase::Asking { source, target } => PhaseState::Asking { source: source@, target: target@ },
        Phase::Making { source, target } => PhaseState::Making { source: source@, target: target@ },
        Phase::Opening => PhaseState::Opening,
        Phase::Listing => PhaseState::Listing,
        Phase::Copying { source, target } => PhaseState::Copying {
            source: source@,
            target: target@,
        },
        Phase::Finished(Ok(_)) => PhaseState::Finished(Ok(())),
        Phase::Finished(Err(message)) => PhaseState::Finished(Err(message@)),
    }
}

impl View for CopyWalk {
    type V = WalkState;

    closed spec fn view(&self) -> WalkState {
        WalkState { frames: frames_of(self.frames@), phase: phase_of(self.phase) }
    }
}

impl CopyWalk {
    /// The start of a walk.
    pub fn new(source: FileRef, target: FileRef) -> (walk: Self)
        ensures
            walk@ == copy_start(source@, target@),
            copy_walk_valid(walk@),
    {
        let walk = CopyWalk { frames: Vec::new(), phase: Phase::Asking { source, target } };
        assert(walk@.frames =~= Seq::empty());
        walk
    }

    /// Turns to the next file of the innermost directory.
    fn turn_to_next(&mut self)
        ensures
            final(self)@ == copy_next(old(self)@.frames),
    {
        let ghost before = self@.frames;
        proof {
            assert(before.len() == self.frames@.len());
        }
        if self.frames.len() == 0 {
            self.phase = Phase::Finished(Ok(()));
            return;
        }
        let top: usize = self.frames.len() - 1;
        proof {
            assert(before.last() == frame_of(self.frames@[top as int]));
        }
        if self.frames[top].pending.len() == 0 {
            self.phase = Phase::Listing;
            return;
        }
        let ghost listed = self.frames@[top as int].pending@;
        let child = self.frames[top].pending.remove(0);
        let source = self.frames[top].source.child(&child.name);
        let target = self.frames[top].target.child(&child.name);
        proof {
            assert(children_of(listed)[0] == child@);
            assert(children_of(self.frames@[top as int].pending@) =~= children_of(listed).drop_first());
            assert(frames_of(self.frames@) =~= before.update(
                top as int,
                FrameState {
                    pending: before.last().pending.drop_first(),
                    ..before.last()
                },
            ));
        }
        self.phase = Phase::Asking { source, target };
    }

    /// What is to be done next. Nothing, where the walk has come to its end.
    pub fn action(&self) -> (action: Option<FileAction>)
        requires
            copy_walk_valid(self@),
        ensures
            match action {
                Some(next) => copy_action(self@) == Some(next@),
                None => copy_action(self@) is None,
            },
    {
        proof {
            assert(self@.frames.len() == self.frames@.len());
        }
        match &self.phase {
            Phase::Asking { source, .. } => Some(FileAction::QueryKind { file: source.clone() }),
            Phase::Making { target, .. } => Some(
                FileAction::MakeDirectory { file: target.clone() },
            ),
            Phase::Opening => {
                let top: usize = self.frames.len() - 1;
                Some(FileAction::OpenChildren { file: self.frames[top].source.clone() })
            },
            Phase::Listing => {
                let top: usize = self.frames.len() - 1;
                Some(FileAction::NextChildren { file: self.frames[top].source.clone() })
            },
            Phase::Copying { source, target } => Some(
                FileAction::CopyFile { source: source.clone(), target: target.clone() },
            ),
            Phase::Finished(_) => None,
        }
    }

    /// How the walk ended, where it has come to its end.
    pub fn end(&self) -> (end: Option<Result<(), String>>)
        ensures
            match end {
                Some(Ok(_)) => self@.phase == PhaseState::Finished(Ok(())),
                Some(Err(message)) => self@.phase == PhaseState::Finished(Err(message@)),
                None => !(self@.phase is Finished),
            },
    {
        match &self.phase {
            Phase::Finished(Ok(_)) => Some(Ok(())),
            Phase::Finished(Err(message)) => Some(Err(message.clone())),
            _ => None,
        }
    }

    /// Goes on after a reply to the last action.
    pub fn resume(&mut self, reply: FileReply)
        requires
            copy_walk_valid(old(self)@),
            copy_action(old(self)@) matches Some(action) && answers(action, reply@),
        ensures
            final(self)@ == copy_step(old(self)@, reply@),
            copy_walk_valid(final(self)@),
    {
        let ghost before = self@.frames;
        let ghost was = self@.phase;
        proof {
            assert(before.len() == self.frames@.len());
        }
        match reply {
            FileReply::Failed(message) => {
                self.phase = Phase::Finished(Err(message));
            },
            FileReply::Children(children) => {
                proof {
                    assert(children_of(children@).len() == children@.len());
                }
                let top: usize = self.frames.len() - 1;
                if children.len() == 0 {
                    self.frames.truncate(top);
                    proof {
                        assert(frames_of(self.frames@) =~= before.drop_last());
                    }
                } else {
                    self.frames[top].pending = children;
                    proof {
                        assert(frames_of(self.frames@) =~= before.update(
                            top as int,
                            FrameState {
                                pending: children_of(children@),
                                ..before.last()
                            },
                        ));
                    }
                }
                self.turn_to_next();
            },
            _ => {
                let mut phase = Phase::Listing;
                std::mem::swap(&mut phase, &mut self.phase);
                match phase {
                    Phase::Asking { source, target } => {
                        if matches!(reply, FileReply::Kind { directory: true }) {
                            self.phase = Phase::Making { source, target };
                        } else {
                            self.phase = Phase::Copying { source, target };
                        }
                    },
                    Phase::Making { source, target } => {
                        self.frames.push(Frame { source, target, pending: Vec::new() });
                        self.phase = Phase::Opening;
                        proof {
                            let added = FrameState {
                                source: source@,
                                target: target@,
                                pending: Seq::empty(),
                            };
                            assert(frame_of(self.frames@.last()) =~= added);
                            assert(frames_of(self.frames@) =~= before.push(added));
                        }
                    },
                    Phase::Opening => {},
                    _ => {
                        self.turn_to_next();
                    },
                }
            },
        }
    }
}

} // verus!
