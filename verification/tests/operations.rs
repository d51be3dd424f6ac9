//! Operations on files, run against a tree in memory.
use std::collections::BTreeMap;

use strata::entry::{EntryKind, FileEntry, MetadataValue};
use strata::event::{
    CreateDirectoryRequest, DeleteRequest, EmptyTrashRequest, OperationEvent, PasteRequest,
    RenameRequest,
};
use strata::files::{Child, FileAction, FileRef, FileReply, TransferFacts};
use strata::model::Location;
use strata::operations::{FileTask, LocalOperationProvider};

fn local(path: &str) -> Location {
    Location::local(path.as_bytes().to_vec())
}

fn entry(path: &str, kind: EntryKind) -> FileEntry {
    let name = path.rsplit('/').next().unwrap_or(path);
    FileEntry {
        location: local(path),
        native_name: name.as_bytes().to_vec(),
        display_name: name.to_string(),
        kind,
        size: MetadataValue::Unknown,
        modified_unix_seconds: MetadataValue::Unknown,
    }
}

fn path_of(file: &FileRef) -> String {
    let mut path = file.base.display_path();
    for name in &file.names {
        if !path.ends_with('/') {
            path.push('/');
        }
        path.push_str(&String::from_utf8_lossy(name));
    }
    path
}

/// Files by their paths; a directory is marked.
struct Tree {
    files: BTreeMap<String, bool>,
    /// What fails, and how often it still does.
    broken: BTreeMap<String, usize>,
    batch: usize,
    listed: Vec<Vec<String>>,
    log: Vec<String>,
}

impl Tree {
    fn new(paths: &[&str]) -> Self {
        let mut files = BTreeMap::new();
        for path in paths {
            match path.strip_suffix('/') {
                Some(directory) => files.insert(directory.to_string(), true),
                None => files.insert(path.to_string(), false),
            };
        }
        Tree { files, broken: BTreeMap::new(), batch: 2, listed: Vec::new(), log: Vec::new() }
    }

    fn children(&self, path: &str) -> Vec<String> {
        let start = if path.ends_with('/') { path.to_string() } else { format!("{path}/") };
        self.files
            .keys()
            .filter(|known| known.starts_with(&start) && !known[start.len()..].contains('/'))
            .cloned()
            .collect()
    }

    fn fails(&mut self, step: &str) -> bool {
        match self.broken.get_mut(step) {
            Some(left) if *left > 0 => {
                *left -= 1;
                true
            }
            _ => false,
        }
    }

    fn perform(&mut self, action: &FileAction) -> Result<FileReply, OperationEvent> {
        let step = match action {
            FileAction::SetDisplayName { file, name } => format!("rename {} {name}", path_of(file)),
            FileAction::MakeDirectory { file } => format!("make {}", path_of(file)),
            FileAction::QueryKind { file } => format!("query {}", path_of(file)),
            FileAction::OpenChildren { file } => format!("open {}", path_of(file)),
            FileAction::NextChildren { file } => format!("next {}", path_of(file)),
            FileAction::CopyFile { source, target } => {
                format!("copy {} {}", path_of(source), path_of(target))
            }
            FileAction::MoveFile { source, target } => {
                format!("move {} {}", path_of(source), path_of(target))
            }
            FileAction::Trash { file } => format!("trash {}", path_of(file)),
            FileAction::Delete { file } => format!("delete {}", path_of(file)),
            FileAction::InspectTransfer { source, destination } => {
                format!("inspect {} {}", path_of(source), path_of(destination))
            }
            FileAction::Emit { event } => return Err(event.clone()),
        };
        self.log.push(step.clone());
        if self.fails(&step) {
            return Ok(FileReply::Failed("it does not work".to_string()));
        }
        Ok(match action {
            FileAction::QueryKind { file } => FileReply::Kind { directory: self.files[&path_of(file)] },
            FileAction::OpenChildren { file } => {
                let children = self.children(&path_of(file));
                self.listed.push(children);
                FileReply::Done
            }
            FileAction::NextChildren { .. } => {
                let listed = self.listed.last_mut().unwrap();
                let count = listed.len().min(self.batch);
                let batch: Vec<String> = listed.drain(..count).collect();
                if batch.is_empty() {
                    self.listed.pop();
                }
                FileReply::Children(
                    batch
                        .into_iter()
                        .map(|path| Child {
                            directory: self.files[&path],
                            name: path.rsplit('/').next().unwrap().as_bytes().to_vec(),
                        })
                        .collect(),
                )
            }
            FileAction::Delete { file } => {
                self.files.remove(&path_of(file));
                FileReply::Done
            }
            FileAction::InspectTransfer { source, destination } => {
                let from = path_of(source);
                let to = path_of(destination);
                let name = from.rsplit('/').next().unwrap().to_string();
                FileReply::Facts(TransferFacts {
                    is_target: !name.is_empty() && from == format!("{to}/{name}"),
                    is_destination: from == to,
                    holds_destination: to.starts_with(&format!("{from}/")),
                    name: if name.is_empty() { None } else { Some(name.into_bytes()) },
                })
            }
            _ => FileReply::Done,
        })
    }

    fn run(&mut self, mut task: FileTask) -> OperationEvent {
        loop {
            match self.perform(&task.action()) {
                Ok(reply) => task.resume(reply),
                Err(event) => return event,
            }
        }
    }

    fn steps(&self, kind: &str) -> Vec<&str> {
        self.log
            .iter()
            .filter_map(|step| step.strip_prefix(kind))
            .map(|rest| rest.trim_start())
            .collect()
    }
}

fn failure(event: &OperationEvent) -> Option<&str> {
    match event {
        OperationEvent::Failed { message, .. } => Some(message),
        _ => None,
    }
}

const PROVIDER: LocalOperationProvider = LocalOperationProvider;

#[test]
fn a_tree_is_deleted_from_the_inside_out() {
    let mut tree = Tree::new(&["/d/", "/d/a", "/d/b/", "/d/b/x", "/d/b/y", "/d/b/z", "/d/c"]);
    let event = tree.run(PROVIDER.delete(DeleteRequest {
        id: 4,
        entries: vec![entry("/d", EntryKind::Directory)],
        permanent: true,
    }));
    assert!(matches!(event, OperationEvent::Deleted { request_id: 4 }));
    assert_eq!(
        tree.steps("delete"),
        vec!["/d/a", "/d/b/x", "/d/b/y", "/d/b/z", "/d/b", "/d/c", "/d"],
    );
    assert!(tree.files.is_empty());
}

#[test]
fn the_size_of_batches_makes_no_difference() {
    let mut orders = Vec::new();
    for batch in 1..5 {
        let mut tree = Tree::new(&["/d/", "/d/a", "/d/b/", "/d/b/x", "/d/c", "/d/e/"]);
        tree.batch = batch;
        tree.run(PROVIDER.delete(DeleteRequest {
            id: 1,
            entries: vec![entry("/d", EntryKind::Directory)],
            permanent: true,
        }));
        orders.push(tree.steps("delete").iter().map(|path| path.to_string()).collect::<Vec<_>>());
    }
    assert!(orders.iter().all(|order| *order == orders[0]));
}

#[test]
fn files_are_deleted_without_listing() {
    let mut tree = Tree::new(&["/a"]);
    tree.run(PROVIDER.delete(DeleteRequest {
        id: 1,
        entries: vec![entry("/a", EntryKind::File)],
        permanent: true,
    }));
    assert_eq!(tree.log, vec!["delete /a"]);
}

#[test]
fn a_deletion_ends_at_the_first_failure() {
    let mut tree = Tree::new(&["/d/", "/d/a", "/d/b", "/e"]);
    tree.broken.insert("delete /d/a".to_string(), 1);
    let event = tree.run(PROVIDER.delete(DeleteRequest {
        id: 9,
        entries: vec![entry("/d", EntryKind::Directory), entry("/e", EntryKind::File)],
        permanent: true,
    }));
    assert_eq!(failure(&event), Some("d: it does not work"));
    assert!(matches!(event, OperationEvent::Failed { request_id: 9, .. }));
    assert_eq!(tree.steps("delete"), vec!["/d/a"]);
}

#[test]
fn trashing_deletes_nothing_for_good() {
    let mut tree = Tree::new(&["/d/", "/d/a", "/e"]);
    let event = tree.run(PROVIDER.delete(DeleteRequest {
        id: 2,
        entries: vec![entry("/d", EntryKind::Directory), entry("/e", EntryKind::File)],
        permanent: false,
    }));
    assert!(matches!(event, OperationEvent::Deleted { request_id: 2 }));
    assert_eq!(tree.log, vec!["trash /d", "trash /e"]);
}

#[test]
fn trashing_ends_at_the_first_failure() {
    let mut tree = Tree::new(&["/d/", "/e"]);
    tree.broken.insert("trash /d".to_string(), 1);
    let event = tree.run(PROVIDER.delete(DeleteRequest {
        id: 2,
        entries: vec![entry("/d", EntryKind::Directory), entry("/e", EntryKind::File)],
        permanent: false,
    }));
    assert_eq!(failure(&event), Some("d: it does not work"));
    assert_eq!(tree.log, vec!["trash /d"]);
}

fn paste(id: u64, sources: &[&str], destination: &str, move_sources: bool) -> FileTask {
    PROVIDER.paste(PasteRequest {
        id,
        destination: local(destination),
        sources: sources.iter().map(|path| local(path)).collect(),
        move_sources,
    })
}

#[test]
fn a_tree_is_copied_from_the_outside_in() {
    let mut tree = Tree::new(&["/s/", "/s/a", "/s/b/", "/s/b/x", "/s/c", "/t/"]);
    let event = tree.run(paste(3, &["/s"], "/t", false));
    assert!(matches!(event, OperationEvent::Pasted { request_id: 3 }));
    let written: Vec<&str> = tree
        .log
        .iter()
        .filter(|step| step.starts_with("make") || step.starts_with("copy"))
        .map(|step| step.as_str())
        .collect();
    assert_eq!(
        written,
        vec![
            "make /t/s",
            "copy /s/a /t/s/a",
            "make /t/s/b",
            "copy /s/b/x /t/s/b/x",
            "copy /s/c /t/s/c",
        ],
    );
}

#[test]
fn sources_are_moved_in_order() {
    let mut tree = Tree::new(&["/a", "/b", "/t/"]);
    let event = tree.run(paste(3, &["/a", "/b"], "/t", true));
    assert!(matches!(event, OperationEvent::Pasted { request_id: 3 }));
    assert_eq!(tree.steps("move"), vec!["/a /t/a", "/b /t/b"]);
}

#[test]
fn a_transfer_ends_at_the_first_failure() {
    let mut tree = Tree::new(&["/a", "/b", "/t/"]);
    tree.broken.insert("copy /a /t/a".to_string(), 1);
    let event = tree.run(paste(3, &["/a", "/b"], "/t", false));
    assert_eq!(failure(&event), Some("it does not work"));
    assert_eq!(tree.steps("copy"), vec!["/a /t/a"]);
    let mut tree = Tree::new(&["/a", "/b", "/t/"]);
    tree.broken.insert("move /a /t/a".to_string(), 1);
    let event = tree.run(paste(3, &["/a", "/b"], "/t", true));
    assert_eq!(failure(&event), Some("it does not work"));
    assert_eq!(tree.steps("move"), vec!["/a /t/a"]);
}

#[test]
fn nothing_is_transferred_into_itself() {
    for (source, destination) in [("/t/a", "/t"), ("/t", "/t"), ("/t", "/t/inner")] {
        for move_sources in [false, true] {
            let mut tree = Tree::new(&["/t/", "/t/a", "/t/inner/"]);
            let event = tree.run(paste(5, &[source], destination, move_sources));
            assert_eq!(failure(&event), Some("A file or folder cannot be transferred into itself"));
            assert_eq!(tree.log.len(), 1);
        }
    }
}

#[test]
fn a_source_without_a_name_is_not_transferred() {
    let mut tree = Tree::new(&["/t/"]);
    let event = tree.run(paste(5, &["/"], "/t", false));
    assert_eq!(failure(&event), Some("A clipboard item has no file name"));
}

#[test]
fn a_transfer_of_nothing_is_done_at_once() {
    let mut tree = Tree::new(&[]);
    assert!(matches!(tree.run(paste(6, &[], "/t", false)), OperationEvent::Pasted { request_id: 6 }));
    assert!(tree.log.is_empty());
}

#[test]
fn renaming_and_making_report_how_they_ended() {
    let mut tree = Tree::new(&["/a", "/d/"]);
    let request = || RenameRequest { id: 1, entry: entry("/a", EntryKind::File), new_name: "b".to_string() };
    assert!(matches!(tree.run(PROVIDER.rename(request())), OperationEvent::Renamed { request_id: 1 }));
    assert_eq!(tree.log, vec!["rename /a b"]);
    tree.broken.insert("rename /a b".to_string(), 1);
    assert_eq!(failure(&tree.run(PROVIDER.rename(request()))), Some("it does not work"));

    let request = || CreateDirectoryRequest { id: 2, parent: local("/d"), name: "été".to_string() };
    let event = tree.run(PROVIDER.create_directory(request()));
    assert!(matches!(event, OperationEvent::Created { request_id: 2 }));
    assert_eq!(tree.steps("make"), vec!["/d/été"]);
    tree.broken.insert("make /d/été".to_string(), 1);
    assert_eq!(
        failure(&tree.run(PROVIDER.create_directory(request()))),
        Some("it does not work"),
    );
}

#[test]
fn the_trash_is_emptied_item_by_item() {
    let mut tree = Tree::new(&["trash:///a", "trash:///d/", "trash:///b"]);
    let event = tree.run(PROVIDER.empty_trash(EmptyTrashRequest { id: 7 }));
    assert!(matches!(event, OperationEvent::Deleted { request_id: 7 }));
    assert_eq!(tree.steps("delete"), vec!["trash:///a", "trash:///b", "trash:///d"]);
}

#[test]
fn a_folder_that_the_trash_keeps_is_emptied_first() {
    let mut tree = Tree::new(&["trash:///d/", "trash:///d/x", "trash:///e"]);
    tree.broken.insert("delete trash:///d".to_string(), 1);
    let event = tree.run(PROVIDER.empty_trash(EmptyTrashRequest { id: 7 }));
    assert!(matches!(event, OperationEvent::Deleted { request_id: 7 }));
    assert_eq!(
        tree.steps("delete"),
        vec!["trash:///d", "trash:///d/x", "trash:///d", "trash:///e"],
    );
    assert!(tree.files.is_empty());
}

#[test]
fn a_file_that_the_trash_keeps_ends_the_emptying() {
    let mut tree = Tree::new(&["trash:///a", "trash:///b"]);
    tree.broken.insert("delete trash:///a".to_string(), 1);
    let event = tree.run(PROVIDER.empty_trash(EmptyTrashRequest { id: 7 }));
    assert_eq!(failure(&event), Some("it does not work"));
    assert_eq!(tree.steps("delete"), vec!["trash:///a"]);
}

#[test]
fn a_trash_that_cannot_be_listed_is_not_emptied() {
    for step in ["open trash:///", "next trash:///"] {
        let mut tree = Tree::new(&["trash:///a"]);
        tree.broken.insert(step.to_string(), 1);
        let event = tree.run(PROVIDER.empty_trash(EmptyTrashRequest { id: 7 }));
        assert_eq!(failure(&event), Some("it does not work"));
        assert!(tree.steps("delete").is_empty());
    }
}
