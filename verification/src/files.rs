//! File operations, step by step: what is to be done next, and what came of it.
use vstd::prelude::*;

use crate::event::{OperationEvent, OperationEventView};
use crate::model::{copy_bytes, names_of, Location, LocationView};

verus! {

/// A file, by the place that it is reached from and the names on the way.
#[derive(Debug)]
pub struct FileRef {
    pub base: Location,
    pub names: Vec<Vec<u8>>,
}

/// What a file reference holds.
#[verifier::ext_equal]
pub struct FileRefView {
    pub base: LocationView,
    pub names: Seq<Seq<u8>>,
}

impl View for FileRef {
    type V = FileRefView;

    open spec fn view(&self) -> FileRefView {
        FileRefView { base: self.base@, names: names_of(self.names@) }
    }
}

/// The file at a place itself.
pub open spec fn file_at(location: LocationView) -> FileRefView {
    FileRefView { base: location, names: Seq::empty() }
}

impl FileRefView {
    /// The file with this name in a directory.
    pub open spec fn child(self, name: Seq<u8>) -> FileRefView {
        FileRefView { names: self.names.push(name), ..self }
    }
}

impl Clone for FileRef {
    fn clone(&self) -> (copy: Self)
        ensures
            copy@ == self@,
    {
        let mut names: Vec<Vec<u8>> = Vec::new();
        let mut i: usize = 0;
        while i < self.names.len()
            invariant
                i <= self.names@.len(),
                names@.len() == i,
                forall|k: int| 0 <= k < i ==> (#[trigger] names@[k])@ == self.names@[k]@,
            decreases self.names@.len() - i,
        {
            names.push(copy_bytes(&self.names[i]));
            i += 1;
        }
        assert(names_of(names@) =~= names_of(self.names@));
        FileRef { base: self.base.clone(), names }
    }
}

impl FileRef {
    /// The file at a place itself.
    pub fn at(location: &Location) -> (file: Self)
        ensures
            file@ == file_at(location@),
    {
        let file = FileRef { base: location.clone(), names: Vec::new() };
        assert(file@ =~= file_at(location@));
        file
    }

    /// The file with this name in a directory.
    pub fn child(&self, name: &Vec<u8>) -> (file: Self)
        ensures
            file@ == self@.child(name@),
    {
        let mut file = self.clone();
        let ghost before = file.names@;
        file.names.push(copy_bytes(name));
        assert(names_of(file.names@) =~= names_of(before).push(name@));
        file
    }
}

/// A file that a directory lists. A symbolic link is no directory, whatever it leads to.
#[derive(Debug)]
pub struct Child {
    pub name: Vec<u8>,
    pub directory: bool,
}

/// What a listed file holds.
#[verifier::ext_equal]
pub struct ChildView {
    pub name: Seq<u8>,
    pub directory: bool,
}

impl View for Child {
    type V = ChildView;

    open spec fn view(&self) -> ChildView {
        ChildView { name: self.name@, directory: self.directory }
    }
}

/// The views of a list of files.
pub open spec fn children_of(children: Seq<Child>) -> Seq<ChildView> {
    children.map_values(|child: Child| child@)
}

/// How a source of a transfer lies to its destination.
#[derive(Debug)]
pub struct TransferFacts {
    /// The name of the source, where it has one.
    pub name: Option<Vec<u8>>,
    /// The source is the file that the transfer would write.
    pub is_target: bool,
    /// The source is the destination.
    pub is_destination: bool,
    /// The destination lies in the source.
    pub holds_destination: bool,
}

/// What transfer facts hold.
#[verifier::ext_equal]
pub struct FactsView {
    pub name: Option<Seq<u8>>,
    pub is_target: bool,
    pub is_destination: bool,
    pub holds_destination: bool,
}

impl View for TransferFacts {
    type V = FactsView;

    open spec fn view(&self) -> FactsView {
        FactsView {
            name: match self.name {
                Some(name) => Some(name@),
                None => None,
            },
            is_target: self.is_target,
            is_destination: self.is_destination,
            holds_destination: self.holds_destination,
        }
    }
}

/// One step of a file operation.
#[derive(Debug)]
pub enum FileAction {
    SetDisplayName { file: FileRef, name: String },
    MakeDirectory { file: FileRef },
    QueryKind { file: FileRef },
    OpenChildren { file: FileRef },
    NextChildren { file: FileRef },
    CopyFile { source: FileRef, target: FileRef },
    MoveFile { source: FileRef, target: FileRef },
    Trash { file: FileRef },
    Delete { file: FileRef },
    InspectTransfer { source: FileRef, destination: FileRef },
    Emit { event: OperationEvent },
}

/// What a step holds.
#[verifier::ext_equal]
pub enum ActionView {
    SetDisplayName { file: FileRefView, name: Seq<char> },
    MakeDirectory { file: FileRefView },
    QueryKind { file: FileRefView },
    OpenChildren { file: FileRefView },
    NextChildren { file: FileRefView },
    CopyFile { source: FileRefView, target: FileRefView },
    MoveFile { source: FileRefView, target: FileRefView },
    Trash { file: FileRefView },
    Delete { file: FileRefView },
    InspectTransfer { source: FileRefView, destination: FileRefView },
    Emit { event: OperationEventView },
}

impl View for FileAction {
    type V = ActionView;

    open spec fn view(&self) -> ActionView {
        match self {
            FileAction::SetDisplayName { file, name } => ActionView::SetDisplayName {
                file: file@,
                name: name@,
            },
            FileAction::MakeDirectory { file } => ActionView::MakeDirectory { file: file@ },
            FileAction::QueryKind { file } => ActionView::QueryKind { file: file@ },
            FileAction::OpenChildren { file } => ActionView::OpenChildren { file: file@ },
            FileAction::NextChildren { file } => ActionView::NextChildren { file: file@ },
            FileAction::CopyFile { source, target } => ActionView::CopyFile {
                source: source@,
                target: target@,
            },
            FileAction::MoveFile { source, target } => ActionView::MoveFile {
                source: source@,
                target: target@,
            },
            FileAction::Trash { file } => ActionView::Trash { file: file@ },
            FileAction::Delete { file } => ActionView::Delete { file: file@ },
            FileAction::InspectTransfer { source, destination } => ActionView::InspectTransfer {
                source: source@,
                destination: destination@,
            },
            FileAction::Emit { event } => ActionView::Emit { event: event@ },
        }
    }
}

/// What came of a step.
#[derive(Debug)]
pub enum FileReply {
    Done,
    Failed(String),
    Kind { directory: bool },
    Children(Vec<Child>),
    Facts(TransferFacts),
}

/// What a reply holds.
#[verifier::ext_equal]
pub enum ReplyView {
    Done,
    Failed(Seq<char>),
    Kind { directory: bool },
    Children(Seq<ChildView>),
    Facts(FactsView),
}

impl View for FileReply {
    type V = ReplyView;

    open spec fn view(&self) -> ReplyView {
        match self {
            FileReply::Done => ReplyView::Done,
            FileReply::Failed(message) => ReplyView::Failed(message@),
            FileReply::Kind { directory } => ReplyView::Kind { directory: *directory },
            FileReply::Children(children) => ReplyView::Children(children_of(children@)),
            FileReply::Facts(facts) => ReplyView::Facts(facts@),
        }
    }
}

/// Whether a reply answers an action.
pub open spec fn answers(action: ActionView, reply: ReplyView) -> bool {
    match action {
        ActionView::Emit { .. } => false,
        ActionView::QueryKind { .. } => reply is Kind || reply is Failed,
        ActionView::NextChildren { .. } => reply is Children || reply is Failed,
        ActionView::InspectTransfer { .. } => reply is Facts,
        _ => reply is Done || reply is Failed,
    }
}

} // verus!
