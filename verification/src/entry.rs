//! The entries of a directory.
use vstd::prelude::*;

use crate::model::{copy_bytes, Location, LocationView};

verus! {

/// What an entry is. A symbolic link is told apart by what it leads to.
#[derive(Debug, Clone, Copy, PartialEq, Eq, Structural)]
pub enum EntryKind {
    Directory,
    File,
    DirectoryLink,
    FileLink,
    BrokenLink,
}

/// What an entry is, given whether it is a symbolic link, and whether it is or leads to a
/// directory, where it leads anywhere.
pub open spec fn kind_of(link: bool, directory: Option<bool>) -> EntryKind {
    match (link, directory) {
        (false, Some(true)) => EntryKind::Directory,
        (false, _) => EntryKind::File,
        (true, Some(true)) => EntryKind::DirectoryLink,
        (true, Some(false)) => EntryKind::FileLink,
        (true, None) => EntryKind::BrokenLink,
    }
}

/// What an entry is, given whether it is a symbolic link, and whether it is or leads to a
/// directory, where it leads anywhere.
pub fn entry_kind(link: bool, directory: Option<bool>) -> (kind: EntryKind)
    ensures
        kind == kind_of(link, directory),
        is_link_kind(kind) == link,
        is_directory_kind(kind) == (directory == Some(true)),
{
    match (link, directory) {
        (false, Some(true)) => EntryKind::Directory,
        (false, _) => EntryKind::File,
        (true, Some(true)) => EntryKind::DirectoryLink,
        (true, Some(false)) => EntryKind::FileLink,
        (true, None) => EntryKind::BrokenLink,
    }
}

/// A piece of metadata: known, not read yet, or not to be had.
#[derive(Debug, Copy, PartialEq, Eq)]
pub enum MetadataValue<T> {
    Known(T),
    Unknown,
    Unavailable,
}

impl<T: Copy> Clone for MetadataValue<T> {
    fn clone(&self) -> (copy: Self)
        ensures
            copy == *self,
    {
        *self
    }
}

/// One entry of a directory.
#[derive(Debug)]
pub struct FileEntry {
    pub location: Location,
    pub native_name: Vec<u8>,
    pub display_name: String,
    pub kind: EntryKind,
    pub size: MetadataValue<u64>,
    pub modified_unix_seconds: MetadataValue<i64>,
}

/// What an entry holds.
#[verifier::ext_equal]
pub struct FileEntryView {
    pub location: LocationView,
    pub native_name: Seq<u8>,
    pub display_name: Seq<char>,
    pub kind: EntryKind,
    pub size: MetadataValue<u64>,
    pub modified_unix_seconds: MetadataValue<i64>,
}

/// Whether entries of this kind can be browsed.
pub open spec fn is_directory_kind(kind: EntryKind) -> bool {
    kind == EntryKind::Directory || kind == EntryKind::DirectoryLink
}

/// Whether entries of this kind are symbolic links.
pub open spec fn is_link_kind(kind: EntryKind) -> bool {
    kind == EntryKind::DirectoryLink || kind == EntryKind::FileLink || kind == EntryKind::BrokenLink
}

impl FileEntryView {
    /// Whether the entry can be browsed.
    pub open spec fn is_directory(self) -> bool {
        is_directory_kind(self.kind)
    }
}

impl View for FileEntry {
    type V = FileEntryView;

    open spec fn view(&self) -> FileEntryView {
        FileEntryView {
            location: self.location@,
            native_name: self.native_name@,
            display_name: self.display_name@,
            kind: self.kind,
            size: self.size,
            modified_unix_seconds: self.modified_unix_seconds,
        }
    }
}

/// The views of a list of entries.
pub open spec fn entries_of(entries: Seq<FileEntry>) -> Seq<FileEntryView> {
    entries.map_values(|entry: FileEntry| entry@)
}

impl Clone for FileEntry {
    fn clone(&self) -> (copy: Self)
        ensures
            copy@ == self@,
    {
        FileEntry {
            location: self.location.clone(),
            native_name: copy_bytes(&self.native_name),
            display_name: self.display_name.clone(),
            kind: self.kind,
            size: self.size,
            modified_unix_seconds: self.modified_unix_seconds,
        }
    }
}

impl FileEntry {
    /// Whether the entry can be browsed.
    pub fn is_directory(&self) -> (directory: bool)
        ensures
            directory == is_directory_kind(self.kind),
    {
        matches!(self.kind, EntryKind::Directory | EntryKind::DirectoryLink)
    }

    /// Whether the entry is a symbolic link.
    pub fn is_symbolic_link(&self) -> (link: bool)
        ensures
            link == is_link_kind(self.kind),
    {
        matches!(self.kind, EntryKind::DirectoryLink | EntryKind::FileLink | EntryKind::BrokenLink)
    }

    /// Whether the entry is a symbolic link that leads nowhere.
    pub fn is_broken_symbolic_link(&self) -> (broken: bool)
        ensures
            broken == (self.kind == EntryKind::BrokenLink),
    {
        matches!(self.kind, EntryKind::BrokenLink)
    }
}

/// Copies of the entries.
pub fn copy_entries(entries: &Vec<FileEntry>) -> (copies: Vec<FileEntry>)
    ensures
        entries_of(copies@) == entries_of(entries@),
{
    let mut copies: Vec<FileEntry> = Vec::new();
    let mut i: usize = 0;
    while i < entries.len()
        invariant
            i <= entries@.len(),
            copies@.len() == i,
            forall|k: int| 0 <= k < i ==> (#[trigger] copies@[k])@ == entries@[k]@,
        decreases entries@.len() - i,
    {
        copies.push(entries[i].clone());
        i += 1;
    }
    assert(entries_of(copies@) =~= entries_of(entries@));
    copies
}

} // verus!
