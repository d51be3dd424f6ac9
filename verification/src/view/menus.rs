//! Menus, dragging and dropping, and how rows are drawn.
use vstd::prelude::*;
use vstd::string::*;

use super::{columns_of, scene, still, BrowserView, Effects};
use crate::dialogs::{
    confirmation, delete_confirmation, entry_properties, entry_size, folder_properties,
    place_properties, properties_of_entry, size_of, total_width, DeleteConfirmation, Properties,
    SizeLabel,
};
use crate::entry::{entries_of, FileEntry, FileEntryView};
use crate::event::{position_of, positions_of};
use crate::gestures;
use crate::gestures::{context_entries, entry_behind, menu_target};
use crate::labels::{names_summary, selected_items_summary};
use crate::location_bar::{compact_display_path, compact_text};
use crate::model::{in_trash, locations_of, Location, LocationView};
use crate::rows::{
    entry_icon, icon_of, model_display_name, row_name, shown_rows, visible_rows, Icon,
};
use crate::screen;
use crate::screen::{ColumnScreen, Scene};
use crate::state;
use crate::text::{count_text, decimal};
use crate::view::editing::drawn_of;

verus! {

/// How a row of a column is drawn.
#[derive(Debug)]
pub struct RowDisplay {
    pub name: String,
    pub icon: Icon,
    pub directory: bool,
    /// The size of a file, where it is known.
    pub size: Option<u64>,
    /// Whether the next column opens behind the row.
    pub active: bool,
}

/// How a row of a column is drawn.
#[verifier::ext_equal]
pub struct DisplayView {
    pub name: Seq<char>,
    pub icon: Icon,
    pub directory: bool,
    pub size: Option<u64>,
    pub active: bool,
}

impl View for RowDisplay {
    type V = DisplayView;

    open spec fn view(&self) -> DisplayView {
        DisplayView {
            name: self.name@,
            icon: self.icon,
            directory: self.directory,
            size: self.size,
            active: self.active,
        }
    }
}

/// How a row of the filtered list of a column is drawn. A row without an entry is drawn as a file.
pub open spec fn display_of(s: Scene, depth: int, row: int, text: Seq<char>) -> DisplayView {
    let position = if s.has_column(depth) {
        s.view.columns[depth].source(row)
    } else {
        None
    };
    let active = position is Some && state::active_child_position(s.browser, depth) == position;
    match entry_behind(s, depth, row) {
        Some((_, entry)) => DisplayView {
            name: row_name(text),
            icon: icon_of(entry),
            directory: entry.is_directory(),
            size: match size_of(entry) {
                SizeLabel::Bytes(bytes) => Some(bytes),
                _ => None,
            },
            active,
        },
        None => DisplayView {
            name: row_name(text),
            icon: Icon::Documents,
            directory: false,
            size: None,
            active,
        },
    }
}

/// The menu of a row.
#[derive(Debug)]
pub struct ContextMenu {
    pub heading: String,
    pub summary: String,
    /// Whether the menu is for more than one entry.
    pub multiple: bool,
    /// Whether the entry of the row can be looked at.
    pub can_preview: bool,
}

/// The menu of a row.
#[verifier::ext_equal]
pub struct MenuView {
    pub heading: Seq<char>,
    pub summary: Seq<char>,
    pub multiple: bool,
    pub can_preview: bool,
}

impl View for ContextMenu {
    type V = MenuView;

    open spec fn view(&self) -> MenuView {
        MenuView {
            heading: self.heading@,
            summary: self.summary@,
            multiple: self.multiple,
            can_preview: self.can_preview,
        }
    }
}

/// The menu of a row with this entry, while these entries are selected.
pub open spec fn menu_of(
    entry: FileEntryView,
    selected: Seq<FileEntryView>,
    home: LocationView,
) -> MenuView {
    if selected.len() > 1 {
        MenuView {
            heading: decimal(selected.len()) + " items selected"@,
            summary: names_summary(selected),
            multiple: true,
            can_preview: !entry.is_directory(),
        }
    } else {
        MenuView {
            heading: entry.display_name,
            summary: compact_text(entry.location, home),
            multiple: false,
            can_preview: !entry.is_directory(),
        }
    }
}

/// What the menu of a place offers.
#[derive(Debug, Clone, Copy)]
pub struct FolderMenu {
    pub can_paste: bool,
    pub can_select_all: bool,
}

impl BrowserView {
    /// What the menu of the place that a column shows offers. There is something to paste where
    /// the clipboard holds files, and something to select where the filter shows rows.
    pub fn folder_menu(&self, depth: usize, clipboard_has_files: bool) -> (menu: FolderMenu)
        requires
            depth < self@.columns.len(),
        ensures
            menu.can_paste == clipboard_has_files,
            menu.can_select_all == (shown_rows(
                self@.columns[depth as int].rows,
                self@.columns[depth as int].query,
            ).len() > 0),
    {
        assert(columns_of(self.columns@).len() == self.columns@.len());
        let rows = visible_rows(&self.columns[depth].rows, self.columns[depth].query.as_str());
        FolderMenu { can_paste: clipboard_has_files, can_select_all: rows.len() > 0 }
    }

    /// How a row of the filtered list of a column is drawn. `text` is what the row holds.
    pub fn row_display(&self, depth: usize, row: usize, text: &str) -> (drawn: RowDisplay)
        ensures
            drawn@ == display_of(still(*self), depth as int, row as int, text@),
    {
        let name = model_display_name(text);
        let position = if self.has_column(depth) {
            self.columns[depth].source(row)
        } else {
            None
        };
        let active = match position {
            Some(at) => match self.browser.active_child_position(depth) {
                Some(child) => child == at,
                None => false,
            },
            None => false,
        };
        match self.entry_behind(depth, row) {
            Some((_, entry)) => RowDisplay {
                name,
                icon: entry_icon(&entry),
                directory: entry.is_directory(),
                size: match entry_size(&entry) {
                    SizeLabel::Bytes(bytes) => Some(bytes),
                    _ => None,
                },
                active,
            },
            None => RowDisplay {
                name,
                icon: Icon::Documents,
                directory: false,
                size: None,
                active,
            },
        }
    }

    /// The entries that are dragged with a row.
    pub fn drag_entries(&self, depth: usize, row: usize) -> (entries: Vec<FileEntry>)
        ensures
            entries_of(entries@) == gestures::dragged(still(*self), depth as int, row as int),
    {
        match self.entry_behind(depth, row) {
            Some((position, entry)) => {
                let selected = self.browser.selected_entries();
                let ghost views = entries_of(selected@);
                let mut i: usize = 0;
                while i < selected.len()
                    invariant
                        views == entries_of(selected@),
                        views == state::selected_entries(self.browser_state()),
                        entry_behind(still(*self), depth as int, row as int) == Some(
                            (position as int, entry@),
                        ),
                        i <= selected@.len(),
                        forall|k: int|
                            0 <= k < i ==> (#[trigger] views[k]).location.key()
                                != entry@.location.key(),
                    decreases selected@.len() - i,
                {
                    if selected[i].location.same(&entry.location) {
                        assert(views[i as int].location.key() == entry@.location.key());
                        return selected;
                    }
                    i += 1;
                }
                let mut entries: Vec<FileEntry> = Vec::new();
                entries.push(entry);
                assert(entries_of(entries@) =~= seq![entry@]);
                entries
            },
            None => {
                let entries: Vec<FileEntry> = Vec::new();
                assert(entries_of(entries@) =~= Seq::empty());
                entries
            },
        }
    }

    /// Where what is dropped on a row goes, where it takes anything.
    pub fn drop_destination(&self, depth: usize, row: usize) -> (destination: Option<Location>)
        ensures
            match destination {
                Some(location) => gestures::drop_destination(
                    still(*self),
                    depth as int,
                    row as int,
                ) == Some(location@),
                None => gestures::drop_destination(still(*self), depth as int, row as int) is None,
            },
    {
        match self.entry_behind(depth, row) {
            Some((_, entry)) => if entry.is_directory() {
                Some(entry.location)
            } else {
                None
            },
            None => None,
        }
    }

    /// Takes over what was dropped. Tells whether it was anything.
    pub fn files_dropped(
        &mut self,
        destination: Location,
        sources: Vec<Location>,
        move_sources: bool,
    ) -> (taken: (bool, Effects))
        requires
            old(self).browser_state().next_id < u64::MAX,
        ensures
            taken.0 == (sources@.len() > 0),
            scene(*final(self), taken.1) == gestures::files_dropped(
                still(*old(self)),
                destination@,
                locations_of(sources@),
                move_sources,
            ),
    {
        let mut out = Effects::new();
        assert(locations_of(sources@).len() == sources@.len());
        if sources.len() == 0 {
            return (false, out);
        }
        let outcome = self.browser.transfer(destination, sources, move_sources);
        self.take_outcome(outcome, &mut out);
        (true, out)
    }

    /// Where what is pasted goes.
    pub fn paste(&self) -> (destination: Option<Location>)
        ensures
            match destination {
                Some(location) => state::active_location(self.browser_state()) == Some(location@),
                None => state::active_location(self.browser_state()) is None,
            },
    {
        self.browser.active_location()
    }

    /// Pastes files into a place.
    pub fn paste_into(&mut self, destination: Location, sources: Vec<Location>) -> (effects: Effects)
        requires
            old(self).browser_state().next_id < u64::MAX,
        ensures
            scene(*final(self), effects) == screen::show(
                still(*old(self)),
                state::transfer(
                    old(self).browser_state(),
                    destination@,
                    locations_of(sources@),
                    false,
                ),
            ),
    {
        let mut out = Effects::new();
        let outcome = self.browser.paste(destination, sources);
        self.take_outcome(outcome, &mut out);
        out
    }

    /// Opens the menu of a row. `selected` are the rows of the filtered list that are selected.
    pub fn open_menu(&mut self, depth: usize, row: usize, selected: &Vec<usize>) -> (menu: Option<
        ContextMenu,
    >)
        ensures
            still(*final(self)) == gestures::open_menu(
                still(*old(self)),
                depth as int,
                row as int,
                positions_of(selected@),
            ),
            match menu {
                Some(opened) => entry_behind(
                    still(*old(self)),
                    depth as int,
                    row as int,
                ) matches Some((_, entry)) && opened@ == menu_of(
                    entry,
                    state::selected_entries(final(self).browser_state()),
                    old(self)@.home,
                ),
                None => entry_behind(still(*old(self)), depth as int, row as int) is None,
            },
    {
        match self.entry_behind(depth, row) {
            None => None,
            Some((position, entry)) => {
                let ghost before = self.columns@;
                assert(columns_of(self.columns@).len() == self.columns@.len());
                let sources = self.columns[depth].sources(selected);
                self.columns[depth].target = Some((position, entry.clone()));
                proof {
                    let column = ColumnScreen {
                        target: Some((position as int, entry@)),
                        ..before[depth as int]@
                    };
                    assert(self.columns@[depth as int]@ =~= column);
                    assert(columns_of(self.columns@) =~= columns_of(before).update(
                        depth as int,
                        column,
                    ));
                }
                self.browser.set_selection(depth, &sources, Some(position));
                let entries = self.browser.selected_entries();
                assert(entries_of(entries@).len() == entries@.len());
                let can_preview = !entry.is_directory();
                if entries.len() > 1 {
                    let mut heading = count_text(entries.len());
                    heading.append(" items selected");
                    Some(
                        ContextMenu {
                            heading,
                            summary: selected_items_summary(&entries),
                            multiple: true,
                            can_preview,
                        },
                    )
                } else {
                    Some(
                        ContextMenu {
                            heading: entry.display_name.clone(),
                            summary: compact_display_path(&entry.location, &self.home),
                            multiple: false,
                            can_preview,
                        },
                    )
                }
            },
        }
    }

    /// The entry that the menu of a column is for, with its position.
    pub fn menu_target(&self, depth: usize) -> (target: Option<(usize, FileEntry)>)
        ensures
            match target {
                Some((position, entry)) => menu_target(still(*self), depth as int) == Some(
                    (position as int, entry@),
                ),
                None => menu_target(still(*self), depth as int) is None,
            },
    {
        if self.has_column(depth) {
            match &self.columns[depth].target {
                Some((position, entry)) => Some((*position, entry.clone())),
                None => None,
            }
        } else {
            None
        }
    }

    /// The entries that the menu of a column is for.
    pub fn context_entries(&self, depth: usize) -> (entries: Vec<FileEntry>)
        ensures
            entries_of(entries@) == context_entries(still(*self), depth as int),
    {
        let selected = self.browser.selected_entries();
        assert(entries_of(selected@).len() == selected@.len());
        if selected.len() > 0 {
            return selected;
        }
        let mut entries: Vec<FileEntry> = Vec::new();
        match self.menu_target(depth) {
            Some((_, entry)) => {
                entries.push(entry);
                assert(entries_of(entries@) =~= seq![entry@]);
            },
            None => {
                assert(entries_of(entries@) =~= Seq::empty());
            },
        }
        entries
    }

    /// Opens the entry that the menu of a column is for.
    pub fn menu_open(&mut self, depth: usize) -> (effects: Effects)
        ensures
            scene(*final(self), effects) == gestures::menu_open(still(*old(self)), depth as int),
    {
        let mut out = Effects::new();
        if let Some((position, _)) = self.menu_target(depth) {
            let outcome = self.browser.activate(depth, position);
            self.take_outcome(outcome, &mut out);
        }
        out
    }

    /// Looks at the file that the menu of a column is for.
    pub fn menu_preview(&mut self, depth: usize) -> (effects: Effects)
        ensures
            scene(*final(self), effects) == gestures::menu_preview(still(*old(self)), depth as int),
    {
        let mut out = Effects::new();
        if let Some((position, entry)) = self.menu_target(depth) {
            if !entry.is_directory() {
                let outcome = self.browser.preview(depth, position);
                self.take_outcome(outcome, &mut out);
            }
        }
        out
    }

    /// Lets the name of the entry be edited that the menu of a column is for.
    pub fn menu_rename(&mut self, depth: usize, drawn: &Vec<Vec<usize>>) -> (effects: Effects)
        ensures
            scene(*final(self), effects) == gestures::menu_rename(
                still(*old(self)),
                depth as int,
                drawn_of(drawn@),
            ),
    {
        match self.menu_target(depth) {
            Some((position, _)) => {
                let (_, effects) = self.rename_at(depth, position, drawn);
                effects
            },
            None => Effects::new(),
        }
    }

    /// Whether what is deleted through the menu of a column is deleted for good.
    pub fn menu_deletes_for_good(&self, depth: usize) -> (permanent: bool)
        ensures
            permanent == (state::location_at(self.browser_state(), depth as int) matches Some(at)
                && in_trash(at)),
    {
        match self.browser.location_at(depth) {
            Some(location) => location.is_trash_location(),
            None => false,
        }
    }

    /// The question whether the entries are to be deleted that the menu of a column is for.
    pub fn menu_delete(&self, depth: usize) -> (question: DeleteConfirmation)
        ensures
            question@ == confirmation(
                context_entries(still(*self), depth as int),
                state::location_at(self.browser_state(), depth as int) matches Some(at) && in_trash(
                    at,
                ),
            ),
    {
        let permanent = self.menu_deletes_for_good(depth);
        delete_confirmation(self.context_entries(depth), permanent)
    }

    /// The question whether the selected entries are to be deleted, where there are any. In the
    /// trash they are deleted for good in any case.
    pub fn confirm_delete(&self, permanent: bool, focused: Option<usize>) -> (question: Option<
        DeleteConfirmation,
    >)
        ensures
            ({
                let entries = state::selected_entries(self.browser_state());
                match question {
                    Some(asked) => entries.len() > 0 && asked@ == confirmation(
                        entries,
                        permanent || gestures::deletes_for_good(
                            self.browser_state(),
                            position_of(focused),
                        ),
                    ),
                    None => entries.len() == 0,
                }
            }),
    {
        let entries = self.browser.selected_entries();
        assert(entries_of(entries@).len() == entries@.len());
        if entries.len() == 0 {
            return None;
        }
        let place = match focused {
            Some(depth) => self.browser.location_at(depth),
            None => None,
        };
        let location = match place {
            Some(at) => Some(at),
            None => self.browser.active_location(),
        };
        let trashed = match location {
            Some(at) => at.is_trash_location(),
            None => false,
        };
        Some(delete_confirmation(entries, permanent || trashed))
    }

    /// Deletes the entries of a question that was answered with yes.
    pub fn delete_confirmed(&mut self, question: DeleteConfirmation) -> (effects: Effects)
        requires
            old(self).browser_state().next_id < u64::MAX,
        ensures
            scene(*final(self), effects) == screen::show(
                still(*old(self)),
                state::delete(
                    old(self).browser_state(),
                    question@.entries,
                    question.permanent,
                ),
            ),
    {
        let mut out = Effects::new();
        let outcome = self.browser.delete(question.entries, question.permanent);
        self.take_outcome(outcome, &mut out);
        out
    }

    /// Empties the trash, once that was asked for and answered with yes.
    pub fn empty_trash_confirmed(&mut self) -> (effects: Effects)
        requires
            old(self).browser_state().next_id < u64::MAX,
        ensures
            scene(*final(self), effects) == screen::show(
                still(*old(self)),
                state::empty_trash(old(self).browser_state()),
            ),
    {
        let mut out = Effects::new();
        let outcome = self.browser.empty_trash();
        self.take_outcome(outcome, &mut out);
        out
    }

    /// What is said of the place that a column shows.
    pub fn folder_properties(&self, location: &Location) -> (properties: Properties)
        ensures
            properties@ == place_properties(location@, self@.home),
    {
        folder_properties(location, &self.home)
    }

    /// What is said of an entry.
    pub fn entry_properties(&self, entry: &FileEntry) -> (properties: Properties)
        ensures
            properties@ == entry_properties(entry@, self@.home),
    {
        properties_of_entry(entry, &self.home)
    }

    /// The width that the columns take together, given the width of each on the screen.
    pub fn occupied_width(&self, widths: &Vec<i32>) -> (total: i32)
        ensures
            total == if total_width(widths@) > i32::MAX {
                i32::MAX as int
            } else {
                total_width(widths@)
            },
    {
        crate::dialogs::occupied_width(widths)
    }
}

} // verus!
