//! The menu by which a column is sorted.
use vstd::prelude::*;
use vstd::string::*;

use crate::order::SortKey;

verus! {

/// What has been chosen in the menu of a column.
#[derive(Debug, Clone, Copy, PartialEq, Eq, Structural)]
pub struct SortMenu {
    pub chosen: SortKey,
    pub folders_first: bool,
}

/// What is marked in the menu.
#[derive(Debug, Clone, Copy, PartialEq, Eq, Structural)]
pub struct SortMarks {
    pub name: bool,
    pub size: bool,
    pub modified: bool,
    pub kind: bool,
    pub folders_first: bool,
}

/// The menu before anything has been chosen.
pub open spec fn fresh_menu() -> SortMenu {
    SortMenu { chosen: SortKey::Name, folders_first: true }
}

/// The fields that the menu offers, from top to bottom.
pub open spec fn fields() -> Seq<SortKey> {
    seq![SortKey::Name, SortKey::Size, SortKey::Modified, SortKey::Type]
}

/// The fields that the menu offers, from top to bottom.
pub fn sort_fields() -> (offered: Vec<SortKey>)
    ensures
        offered@ == fields(),
{
    let mut offered: Vec<SortKey> = Vec::new();
    offered.push(SortKey::Name);
    offered.push(SortKey::Size);
    offered.push(SortKey::Modified);
    offered.push(SortKey::Type);
    assert(offered@ =~= fields());
    offered
}

/// What the menu calls a field.
pub open spec fn field_name(key: SortKey) -> Seq<char> {
    match key {
        SortKey::Name => "Name"@,
        SortKey::Size => "Size"@,
        SortKey::Modified => "Modified"@,
        SortKey::Type => "Type"@,
    }
}

/// What the menu calls a field.
pub fn sort_field_label(key: SortKey) -> (label: String)
    ensures
        label@ == field_name(key),
{
    match key {
        SortKey::Name => "Name".to_owned(),
        SortKey::Size => "Size".to_owned(),
        SortKey::Modified => "Modified".to_owned(),
        SortKey::Type => "Type".to_owned(),
    }
}

/// What is said of the direction in which a column is sorted.
pub fn sort_direction_tip(descending: bool) -> (tip: String)
    ensures
        tip@ == if descending {
            "Descending — click to reverse"@
        } else {
            "Ascending — click to reverse"@
        },
{
    if descending {
        "Descending — click to reverse".to_owned()
    } else {
        "Ascending — click to reverse".to_owned()
    }
}

impl SortMarks {
    /// Whether a field is marked.
    pub open spec fn marks(self, key: SortKey) -> bool {
        match key {
            SortKey::Name => self.name,
            SortKey::Size => self.size,
            SortKey::Modified => self.modified,
            SortKey::Type => self.kind,
        }
    }

    /// Whether a field is marked.
    pub fn field(&self, key: SortKey) -> (marked: bool)
        ensures
            marked == self.marks(key),
    {
        match key {
            SortKey::Name => self.name,
            SortKey::Size => self.size,
            SortKey::Modified => self.modified,
            SortKey::Type => self.kind,
        }
    }
}

/// What is marked: the field that was chosen, and whether folders stand first.
pub open spec fn marks_of(menu: SortMenu) -> SortMarks {
    SortMarks {
        name: menu.chosen == SortKey::Name,
        size: menu.chosen == SortKey::Size,
        modified: menu.chosen == SortKey::Modified,
        kind: menu.chosen == SortKey::Type,
        folders_first: menu.folders_first,
    }
}

impl SortMenu {
    /// The menu before anything has been chosen.
    pub fn new() -> (menu: Self)
        ensures
            menu == fresh_menu(),
    {
        SortMenu { chosen: SortKey::Name, folders_first: true }
    }

    /// What is marked.
    pub fn marks(&self) -> (marks: SortMarks)
        ensures
            marks == marks_of(*self),
    {
        SortMarks {
            name: self.chosen == SortKey::Name,
            size: self.chosen == SortKey::Size,
            modified: self.chosen == SortKey::Modified,
            kind: self.chosen == SortKey::Type,
            folders_first: self.folders_first,
        }
    }
}

/// Of the fields that the menu offers, exactly the chosen one is marked.
pub proof fn lemma_one_field_is_marked(menu: SortMenu)
    ensures
        exists|k: int|
            0 <= k < fields().len() && #[trigger] marks_of(menu).marks(fields()[k]) && fields()[k]
                == menu.chosen,
        forall|k: int|
            0 <= k < fields().len() ==> #[trigger] marks_of(menu).marks(fields()[k]) == (
            fields()[k] == menu.chosen),
        forall|k: int, l: int|
            0 <= k < fields().len() && 0 <= l < fields().len() && marks_of(menu).marks(
                #[trigger] fields()[k],
            ) && marks_of(menu).marks(#[trigger] fields()[l]) ==> k == l,
{
    let k: int = match menu.chosen {
        SortKey::Name => 0,
        SortKey::Size => 1,
        SortKey::Modified => 2,
        SortKey::Type => 3,
    };
    assert(marks_of(menu).marks(fields()[k]));
}

} // verus!
