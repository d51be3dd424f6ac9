//! What dialogs and rows say of entries.
use vstd::prelude::*;
use vstd::string::*;

use crate::entry::{entries_of, FileEntry, FileEntryView, MetadataValue};
use crate::labels::{
    dash, entry_kind_summary, format_file_size, item_count, item_count_label, kind_summary,
    size_text,
};
use crate::location_bar::{compact_display_path, compact_text};
use crate::model::{name_text, path_text, Location, LocationView};
use crate::rows::{entry_icon, icon_of, texts_of, Icon};
use crate::text::{has_prefix, join, joined, starts_with};

verus! {

/// What is said of the size of an entry.
#[derive(Debug, Clone, Copy, PartialEq, Eq, Structural)]
pub enum SizeLabel {
    Folder,
    Bytes(u64),
    Unknown,
}

/// What is said of the size of an entry.
pub open spec fn size_of(entry: FileEntryView) -> SizeLabel {
    if entry.is_directory() {
        SizeLabel::Folder
    } else {
        match entry.size {
            MetadataValue::Known(bytes) => SizeLabel::Bytes(bytes),
            _ => SizeLabel::Unknown,
        }
    }
}

/// What is said of the size of an entry.
pub fn entry_size(entry: &FileEntry) -> (size: SizeLabel)
    ensures
        size == size_of(entry@),
{
    if entry.is_directory() {
        SizeLabel::Folder
    } else {
        match entry.size {
            MetadataValue::Known(bytes) => SizeLabel::Bytes(bytes),
            _ => SizeLabel::Unknown,
        }
    }
}

/// What is said of a size in words.
pub open spec fn size_words(size: SizeLabel, rounded: Seq<char>) -> Seq<char> {
    match size {
        SizeLabel::Folder => "Folder"@,
        SizeLabel::Bytes(bytes) => size_text(bytes as int, rounded),
        SizeLabel::Unknown => dash(),
    }
}

/// What is said of a size in words. `rounded` is the size in the unit that it is shown in, to one
/// decimal place.
pub fn size_label(size: SizeLabel, rounded: &str) -> (text: String)
    ensures
        text@ == size_words(size, rounded@),
{
    match size {
        SizeLabel::Folder => "Folder".to_owned(),
        SizeLabel::Bytes(bytes) => format_file_size(bytes, rounded),
        SizeLabel::Unknown => "—".to_owned(),
    }
}

/// One of the entries that are to be deleted.
#[derive(Debug)]
pub struct DoomedRow {
    pub icon: Icon,
    pub name: String,
    pub path: String,
    pub size: SizeLabel,
}

/// What one of the entries that are to be deleted is shown as.
#[verifier::ext_equal]
pub struct DoomedView {
    pub icon: Icon,
    pub name: Seq<char>,
    pub path: Seq<char>,
    pub size: SizeLabel,
}

impl View for DoomedRow {
    type V = DoomedView;

    open spec fn view(&self) -> DoomedView {
        DoomedView { icon: self.icon, name: self.name@, path: self.path@, size: self.size }
    }
}

/// What an entry that is to be deleted is shown as.
pub open spec fn doomed(entry: FileEntryView) -> DoomedView {
    DoomedView {
        icon: icon_of(entry),
        name: entry.display_name,
        path: path_text(entry.location),
        size: size_of(entry),
    }
}

/// The question whether entries are to be deleted.
#[derive(Debug)]
pub struct DeleteConfirmation {
    pub entries: Vec<FileEntry>,
    pub permanent: bool,
    pub question: String,
    pub summary: String,
    pub rows: Vec<DoomedRow>,
    /// Whether there are so many rows that they are scrolled through.
    pub scrolls: bool,
    pub explanation: String,
    pub confirm: String,
}

/// What the question says.
#[verifier::ext_equal]
pub struct ConfirmationView {
    pub entries: Seq<FileEntryView>,
    pub permanent: bool,
    pub question: Seq<char>,
    pub summary: Seq<char>,
    pub rows: Seq<DoomedView>,
    pub scrolls: bool,
    pub explanation: Seq<char>,
    pub confirm: Seq<char>,
}

impl View for DeleteConfirmation {
    type V = ConfirmationView;

    open spec fn view(&self) -> ConfirmationView {
        ConfirmationView {
            entries: entries_of(self.entries@),
            permanent: self.permanent,
            question: self.question@,
            summary: self.summary@,
            rows: self.rows@.map_values(|row: DoomedRow| row@),
            scrolls: self.scrolls,
            explanation: self.explanation@,
            confirm: self.confirm@,
        }
    }
}

/// The question whether entries are to be deleted.
pub open spec fn confirmation(entries: Seq<FileEntryView>, permanent: bool) -> ConfirmationView {
    let count = item_count(entries.len());
    ConfirmationView {
        entries,
        permanent,
        question: if permanent {
            "Permanently delete "@ + count + "?"@
        } else {
            "Move "@ + count + " to trash?"@
        },
        summary: kind_summary(entries),
        rows: entries.map_values(|entry: FileEntryView| doomed(entry)),
        scrolls: entries.len() > 10,
        explanation: if permanent {
            "These items will be permanently deleted. This action cannot be undone."@
        } else {
            "The items will be moved to trash. You can restore them later."@
        },
        confirm: if permanent {
            "Permanently delete "@ + count
        } else {
            "Move "@ + count
        },
    }
}

/// The question whether entries are to be deleted.
pub fn delete_confirmation(entries: Vec<FileEntry>, permanent: bool) -> (question: DeleteConfirmation)
    ensures
        question@ == confirmation(entries_of(entries@), permanent),
{
    let ghost views = entries_of(entries@);
    assert(views.len() == entries@.len());
    let count = item_count_label(entries.len());
    let mut question = if permanent {
        "Permanently delete ".to_owned()
    } else {
        "Move ".to_owned()
    };
    question.append(count.as_str());
    let confirm = question.clone();
    question.append(
        if permanent {
            "?"
        } else {
            " to trash?"
        },
    );
    let summary = entry_kind_summary(&entries);
    let mut rows: Vec<DoomedRow> = Vec::new();
    let mut i: usize = 0;
    while i < entries.len()
        invariant
            i <= entries@.len(),
            rows@.len() == i,
            forall|k: int| 0 <= k < i ==> (#[trigger] rows@[k])@ == doomed(entries@[k]@),
        decreases entries@.len() - i,
    {
        let row = DoomedRow {
            icon: entry_icon(&entries[i]),
            name: entries[i].display_name.clone(),
            path: entries[i].location.display_path(),
            size: entry_size(&entries[i]),
        };
        assert(row@ =~= doomed(entries@[i as int]@));
        rows.push(row);
        i += 1;
    }
    let scrolls = entries.len() > 10;
    let explanation = if permanent {
        "These items will be permanently deleted. This action cannot be undone.".to_owned()
    } else {
        "The items will be moved to trash. You can restore them later.".to_owned()
    };
    assert(rows@.map_values(|row: DoomedRow| row@) =~= views.map_values(
        |entry: FileEntryView| doomed(entry),
    ));
    DeleteConfirmation { entries, permanent, question, summary, rows, scrolls, explanation, confirm }
}

/// The question whether the trash is to be emptied.
#[derive(Debug)]
pub struct EmptyTrashConfirmation {
    pub question: String,
    pub summary: String,
    pub explanation: String,
    pub confirm: String,
}

/// What the question says.
#[verifier::ext_equal]
pub struct EmptyTrashView {
    pub question: Seq<char>,
    pub summary: Seq<char>,
    pub explanation: Seq<char>,
    pub confirm: Seq<char>,
}

impl View for EmptyTrashConfirmation {
    type V = EmptyTrashView;

    open spec fn view(&self) -> EmptyTrashView {
        EmptyTrashView {
            question: self.question@,
            summary: self.summary@,
            explanation: self.explanation@,
            confirm: self.confirm@,
        }
    }
}

/// The question whether the trash is to be emptied.
pub open spec fn emptying_question() -> EmptyTrashView {
    EmptyTrashView {
        question: "Empty trash?"@,
        summary: "Everything in the trash"@,
        explanation:
            "All items in the trash will be permanently deleted. This action cannot be undone."@,
        confirm: "Empty Trash"@,
    }
}

/// The question whether the trash is to be emptied.
pub fn empty_trash_confirmation() -> (question: EmptyTrashConfirmation)
    ensures
        question@ == emptying_question(),
{
    EmptyTrashConfirmation {
        question: "Empty trash?".to_owned(),
        summary: "Everything in the trash".to_owned(),
        explanation:
            "All items in the trash will be permanently deleted. This action cannot be undone.".to_owned(),
        confirm: "Empty Trash".to_owned(),
    }
}

/// What is said of a place, or of an entry.
#[derive(Debug)]
pub struct Properties {
    pub name: String,
    pub icon: Icon,
    pub directory: bool,
    /// The place in short, and as it is.
    pub location: String,
    pub path: String,
    pub size: Option<u64>,
    pub modified: Option<i64>,
    pub hidden: bool,
    /// Whether there is an entry that can be renamed.
    pub can_rename: bool,
}

/// What is said of a place, or of an entry.
#[verifier::ext_equal]
pub struct PropertiesView {
    pub name: Seq<char>,
    pub icon: Icon,
    pub directory: bool,
    pub location: Seq<char>,
    pub path: Seq<char>,
    pub size: Option<u64>,
    pub modified: Option<i64>,
    pub hidden: bool,
    pub can_rename: bool,
}

impl View for Properties {
    type V = PropertiesView;

    open spec fn view(&self) -> PropertiesView {
        PropertiesView {
            name: self.name@,
            icon: self.icon,
            directory: self.directory,
            location: self.location@,
            path: self.path@,
            size: self.size,
            modified: self.modified,
            hidden: self.hidden,
            can_rename: self.can_rename,
        }
    }
}

/// A piece of metadata, where it is known.
pub open spec fn known<T>(value: MetadataValue<T>) -> Option<T> {
    match value {
        MetadataValue::Known(known) => Some(known),
        _ => None,
    }
}

/// Whether a name is that of a hidden file.
pub open spec fn is_hidden_name(name: Seq<char>) -> bool {
    has_prefix(name, "."@)
}

/// What is said of the place that a column shows.
pub open spec fn place_properties(location: LocationView, home: LocationView) -> PropertiesView {
    PropertiesView {
        name: name_text(location),
        icon: Icon::Folder,
        directory: true,
        location: compact_text(location, home),
        path: path_text(location),
        size: None,
        modified: None,
        hidden: is_hidden_name(name_text(location)),
        can_rename: false,
    }
}

/// What is said of an entry.
pub open spec fn entry_properties(entry: FileEntryView, home: LocationView) -> PropertiesView {
    PropertiesView {
        name: entry.display_name,
        icon: icon_of(entry),
        directory: entry.is_directory(),
        location: compact_text(entry.location, home),
        path: path_text(entry.location),
        size: known(entry.size),
        modified: known(entry.modified_unix_seconds),
        hidden: is_hidden_name(entry.display_name),
        can_rename: true,
    }
}

/// What is said of the place that a column shows.
pub fn folder_properties(location: &Location, home: &Location) -> (properties: Properties)
    ensures
        properties@ == place_properties(location@, home@),
{
    let name = location.display_name();
    let hidden = starts_with(name.as_str(), ".");
    Properties {
        name,
        icon: Icon::Folder,
        directory: true,
        location: compact_display_path(location, home),
        path: location.display_path(),
        size: None,
        modified: None,
        hidden,
        can_rename: false,
    }
}

/// What is said of an entry.
pub fn properties_of_entry(entry: &FileEntry, home: &Location) -> (properties: Properties)
    ensures
        properties@ == entry_properties(entry@, home@),
{
    Properties {
        name: entry.display_name.clone(),
        icon: entry_icon(entry),
        directory: entry.is_directory(),
        location: compact_display_path(&entry.location, home),
        path: entry.location.display_path(),
        size: match entry.size {
            MetadataValue::Known(bytes) => Some(bytes),
            _ => None,
        },
        modified: match entry.modified_unix_seconds {
            MetadataValue::Known(seconds) => Some(seconds),
            _ => None,
        },
        hidden: starts_with(entry.display_name.as_str(), "."),
        can_rename: true,
    }
}

/// The size to show once a file has been asked for it. That of a folder is not told anew.
pub fn queried_size(directory: bool, size: i64) -> (shown: Option<u64>)
    ensures
        shown == if directory {
            None
        } else if size < 0 {
            Some(0u64)
        } else {
            Some(size as u64)
        },
{
    if directory {
        None
    } else if size < 0 {
        Some(0)
    } else {
        Some(size as u64)
    }
}

/// The paths of entries, one in a line.
pub open spec fn path_lines(entries: Seq<FileEntryView>) -> Seq<char> {
    joined(entries.map_values(|entry: FileEntryView| path_text(entry.location)), "\n"@)
}

/// The paths of entries, one in a line.
pub fn copied_paths(entries: &Vec<FileEntry>) -> (text: String)
    ensures
        text@ == path_lines(entries_of(entries@)),
{
    let mut paths: Vec<String> = Vec::new();
    let mut i: usize = 0;
    while i < entries.len()
        invariant
            i <= entries@.len(),
            paths@.len() == i,
            forall|k: int|
                0 <= k < i ==> (#[trigger] paths@[k])@ == path_text(entries@[k]@.location),
        decreases entries@.len() - i,
    {
        paths.push(entries[i].location.display_path());
        i += 1;
    }
    assert(paths@.map_values(|t: String| t@) =~= entries_of(entries@).map_values(
        |entry: FileEntryView| path_text(entry.location),
    ));
    join(&paths, "\n")
}

/// A list of URIs as it is handed to other programs. There is none of nothing.
pub fn uri_list(uris: &Vec<String>) -> (text: Option<String>)
    ensures
        match text {
            Some(list) => uris@.len() > 0 && list@ == joined(texts_of(uris@), "\r\n"@) + "\r\n"@,
            None => uris@.len() == 0,
        },
{
    if uris.len() == 0 {
        return None;
    }
    let mut list = join(uris, "\r\n");
    assert(uris@.map_values(|t: String| t@) =~= texts_of(uris@));
    list.append("\r\n");
    Some(list)
}

/// What is said where the clipboard holds no files.
pub fn clipboard_failure(error: &str) -> (text: String)
    ensures
        text@ == "The clipboard does not contain files: "@ + error@,
{
    let mut text = "The clipboard does not contain files: ".to_owned();
    text.append(error);
    text
}

/// The width of a column that has not been widened.
pub const COLUMN_WIDTH: i32 = 300;

/// The width that a column takes.
pub open spec fn column_width(width: i32) -> int {
    if width < COLUMN_WIDTH {
        COLUMN_WIDTH as int
    } else {
        width as int
    }
}

/// The width that columns take together.
pub open spec fn total_width(widths: Seq<i32>) -> int
    decreases widths.len(),
{
    if widths.len() == 0 {
        0
    } else {
        total_width(widths.drop_last()) + column_width(widths.last())
    }
}

/// The width that columns take together, as far as it can be told.
pub fn occupied_width(widths: &Vec<i32>) -> (total: i32)
    ensures
        total == if total_width(widths@) > i32::MAX {
            i32::MAX as int
        } else {
            total_width(widths@)
        },
{
    let mut total: i32 = 0;
    let mut i: usize = 0;
    assert(widths@.take(0) =~= Seq::empty());
    while i < widths.len()
        invariant
            i <= widths@.len(),
            total_width(widths@.take(i as int)) >= 0,
            total == if total_width(widths@.take(i as int)) > i32::MAX {
                i32::MAX as int
            } else {
                total_width(widths@.take(i as int))
            },
        decreases widths@.len() - i,
    {
        proof {
            assert(widths@.take(i + 1).drop_last() =~= widths@.take(i as int));
        }
        let width: i32 = if widths[i] < COLUMN_WIDTH {
            COLUMN_WIDTH
        } else {
            widths[i]
        };
        total = match total.checked_add(width) {
            Some(sum) => sum,
            None => i32::MAX,
        };
        i += 1;
    }
    assert(widths@.take(i as int) =~= widths@);
    total
}

} // verus!
