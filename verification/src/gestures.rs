//! What the gestures of the user do to the screen.
use vstd::prelude::*;

use crate::entry::FileEntryView;
use crate::labels::stem_length;
use crate::model::{path_text, LocationView};
use crate::names::{location_error_text, typed_location, LocationValidationError};
use crate::pointing::{focus_choice, range_end};
use crate::order::SortKey;
use crate::screen::{
    cancel_new_folder, cancel_rename, end_peek, focus_active, show, stop_close_timer,
    stop_peek_timer, ColumnScreen, Scene, ViewActionView, ViewState,
};
use crate::sort_menu::{marks_of, SortMenu};
use crate::state;
use crate::state::BrowserState;
use crate::text::lowercase;

verus! {

// Columns and rows.

/// Selects all rows of a column.
pub open spec fn select_all_in(s: Scene, depth: int) -> Scene {
    if s.has_column(depth) {
        s.act(ViewActionView::SelectAllRows { depth }).act(ViewActionView::FocusColumn { depth })
    } else {
        s
    }
}

/// The entry that a row of the filtered list of a column shows, with its position.
pub open spec fn entry_behind(s: Scene, depth: int, row: int) -> Option<(int, FileEntryView)> {
    if s.has_column(depth) {
        match s.view.columns[depth].source(row) {
            Some(position) => if state::has_entry(s.browser, depth, position) {
                Some((position, s.browser.columns[depth].entries[position]))
            } else {
                None
            },
            None => None,
        }
    } else {
        None
    }
}

/// Takes over what is selected in the filtered list of a column, of which `count` rows from `from`
/// on have changed.
pub open spec fn selection_changed(
    s: Scene,
    depth: int,
    positions: Seq<int>,
    from: int,
    count: int,
) -> Scene {
    if s.has_column(depth) {
        let column = s.view.columns[depth];
        let focused = focus_choice(positions, from, range_end(from, count), column.focused);
        let source = match focused {
            Some(row) => column.source(row),
            None => None,
        };
        Scene {
            browser: state::set_selection(s.browser, depth, column.sources(positions), source),
            ..s.with_column(depth, ColumnScreen { focused, ..column })
        }
    } else {
        s
    }
}

/// Puts the anchor of a column where a row was pressed.
pub open spec fn set_anchor(s: Scene, depth: int, anchor: Option<usize>) -> Scene {
    if s.has_column(depth) {
        s.with_column(depth, ColumnScreen { anchor, ..s.view.columns[depth] })
    } else {
        s
    }
}

/// Goes on after a row was pressed: the second press opens its entry, and a first one without a
/// modifier looks at it.
pub open spec fn row_pressed(
    s: Scene,
    depth: int,
    row: int,
    presses: int,
    control: bool,
    shift: bool,
) -> Scene {
    if s.has_column(depth) {
        match s.view.columns[depth].source(row) {
            Some(position) => if presses == 2 {
                show(s, state::activate(s.browser, depth, position))
            } else if !control && !shift {
                show(s, state::preview(s.browser, depth, position))
            } else {
                s
            },
            None => s,
        }
    } else {
        s
    }
}

/// Opens the entry of a row.
pub open spec fn activate_row(s: Scene, depth: int, row: int) -> Scene {
    if s.has_column(depth) {
        match s.view.columns[depth].source(row) {
            Some(position) => show(s, state::activate(s.browser, depth, position)),
            None => s,
        }
    } else {
        s
    }
}

/// Filters a column by another text.
pub open spec fn set_query(s: Scene, depth: int, typed: Seq<char>) -> Scene {
    if s.has_column(depth) {
        s.with_column(depth, ColumnScreen { query: lowercase(typed), ..s.view.columns[depth] })
    } else {
        s
    }
}

/// Reveals the filter of a column, or takes it away. Without a filter all rows are shown.
pub open spec fn filter_toggled(s: Scene, depth: int, active: bool) -> Scene {
    if s.has_column(depth) {
        if active {
            s.act(ViewActionView::ShowFilter { depth })
        } else {
            s.with_column(
                depth,
                ColumnScreen { query: Seq::empty(), ..s.view.columns[depth] },
            ).act(ViewActionView::HideFilter { depth })
        }
    } else {
        s
    }
}

/// Takes the filter away that has the focus.
pub open spec fn dismiss_filter(s: Scene, focused: Option<int>) -> Scene {
    match focused {
        Some(depth) => if s.has_column(depth) {
            filter_toggled(s, depth, false).act(ViewActionView::FocusColumn { depth })
        } else {
            s
        },
        None => s,
    }
}

/// Marks in the menu of a column what has been chosen there.
pub open spec fn mark_sort(s: Scene, depth: int, menu: SortMenu) -> Scene {
    s.with_column(depth, ColumnScreen { sort_menu: menu, ..s.view.columns[depth] }).act(
        ViewActionView::MarkSort { depth, marks: marks_of(menu) },
    )
}

/// Sorts a column by another field, and marks the field.
pub open spec fn choose_sort_key(s: Scene, depth: int, key: SortKey) -> Scene {
    let t = if s.has_column(depth) {
        mark_sort(s, depth, SortMenu { chosen: key, ..s.view.columns[depth].sort_menu })
    } else {
        s
    };
    show(t, state::set_sort_key(t.browser, depth, key))
}

/// Turns over whether folders stand first in a column, and marks it.
pub open spec fn toggle_folders_first(s: Scene, depth: int) -> Scene {
    if s.has_column(depth) {
        let menu = s.view.columns[depth].sort_menu;
        let folders_first = !menu.folders_first;
        let t = mark_sort(s, depth, SortMenu { folders_first, ..menu });
        show(t, state::set_folders_first(t.browser, depth, folders_first))
    } else {
        s
    }
}

// Peeks.

/// Prepares a peek that opens once the pointer has rested long enough. A peek that is open already
/// stays.
pub open spec fn schedule_peek(s: Scene, origin: int, location: LocationView) -> Scene {
    if s.view.peek_enabled {
        let t = stop_close_timer(stop_peek_timer(s));
        if t.view.peek is Some && t.view.peek->0.location.key() == location.key() {
            t
        } else {
            t.with(
                ViewState { anchored: true, pending_peek: Some((origin, location)), ..t.view },
            ).act(ViewActionView::StartPeekTimer { delay: t.view.behavior.open_delay as int })
        }
    } else {
        s
    }
}

/// Prepares the end of a peek once the pointer has been away long enough.
pub open spec fn schedule_close_peek(s: Scene) -> Scene {
    let t = stop_close_timer(stop_peek_timer(s));
    t.with(ViewState { pending_close: true, ..t.view }).act(
        ViewActionView::StartCloseTimer { delay: t.view.behavior.close_delay as int },
    )
}

/// The pointer has come to a row: a folder is to be looked into, another entry ends a peek.
pub open spec fn row_entered(s: Scene, depth: int, row: int) -> Scene {
    match entry_behind(s, depth, row) {
        Some((_, entry)) => if entry.is_directory() {
            schedule_peek(s, depth, entry.location)
        } else {
            end_peek(stop_peek_timer(s))
        },
        None => s,
    }
}

/// The pointer has rested long enough.
pub open spec fn peek_due(s: Scene) -> Scene {
    match s.view.pending_peek {
        Some((origin, location)) => {
            let t = s.with(ViewState { pending_peek: None, ..s.view });
            show(t, state::begin_peek(t.browser, origin, location))
        },
        None => s,
    }
}

/// The pointer has been away long enough.
pub open spec fn close_due(s: Scene) -> Scene {
    end_peek(s.with(ViewState { pending_close: false, ..s.view }))
}

/// Has peeks open, or keeps them from opening.
pub open spec fn set_peek_enabled(s: Scene, enabled: bool) -> Scene {
    let t = s.with(ViewState { peek_enabled: enabled, ..s.view });
    if enabled {
        t
    } else {
        end_peek(stop_peek_timer(t))
    }
}

// Names and folders.

/// The number of characters of a name that are selected when it is to be edited.
pub open spec fn stem_selected(name: Seq<char>) -> int {
    if stem_length(name) > i32::MAX {
        i32::MAX as int
    } else {
        stem_length(name)
    }
}

/// The row in which a name can be edited: the filter shows it, and it is among the rows that are
/// drawn.
pub open spec fn rename_row(s: Scene, drawn: Seq<Seq<int>>) -> Option<(int, int, FileEntryView)> {
    match state::rename_item(s.browser) {
        Some((depth, position, entry)) => if s.has_column(depth) && depth < drawn.len() {
            match s.view.columns[depth].shown(position) {
                Some(row) => if drawn[depth].contains(row) {
                    Some((depth, row, entry))
                } else {
                    None
                },
                None => None,
            }
        } else {
            None
        },
        None => None,
    }
}

/// Lets the name of the entry be edited that a rename is for.
pub open spec fn begin_rename(s: Scene, drawn: Seq<Seq<int>>) -> Scene {
    let t = cancel_new_folder(s);
    if state::rename_item(s.browser) is None {
        t
    } else {
        let u = cancel_rename(t);
        match rename_row(s, drawn) {
            Some((depth, row, entry)) => u.with(
                ViewState { renaming: Some(entry), ..u.view },
            ).act(
                ViewActionView::EditName {
                    depth,
                    row,
                    name: entry.display_name,
                    selected: stem_selected(entry.display_name),
                },
            ),
            None => u,
        }
    }
}

/// Takes over an edited name. A name that has not changed is left as it is.
pub open spec fn submit_rename(s: Scene, in_edited_field: bool, name: Seq<char>) -> Scene {
    match s.view.renaming {
        Some(entry) => if !in_edited_field {
            s
        } else if name == entry.display_name {
            focus_active(cancel_rename(s))
        } else {
            show(s.act(ViewActionView::LockName), state::rename(s.browser, entry, name))
        },
        None => s,
    }
}

/// Lets a folder be named that is to be made.
pub open spec fn begin_new_folder(s: Scene, depth: int, location: LocationView) -> Scene {
    let t = cancel_rename(cancel_new_folder(s));
    if t.has_column(depth) {
        t.with(ViewState { new_folder: Some((depth, location)), ..t.view }).act(
            ViewActionView::EditNewFolder { depth },
        )
    } else {
        t
    }
}

/// Makes a folder with the name that was typed. Without a name there is none.
pub open spec fn submit_new_folder(s: Scene, in_edited_field: bool, name: Seq<char>) -> Scene {
    match s.view.new_folder {
        Some((depth, location)) => {
            let t = s.with(ViewState { new_folder: None, ..s.view });
            if !in_edited_field {
                t
            } else {
                let u = t.act(ViewActionView::EndEditNewFolder { depth });
                if name.len() == 0 {
                    u
                } else {
                    show(u, state::create_directory(u.browser, location, name))
                }
            }
        },
        None => s,
    }
}

/// Lets a folder be named in the column that has the focus, or else in the last one.
pub open spec fn create_new_folder(s: Scene, focused: Option<int>) -> Scene {
    let depth = if focused is Some {
        focused
    } else {
        state::active_depth(s.browser)
    };
    match depth {
        Some(at) => match state::location_at(s.browser, at) {
            Some(location) => begin_new_folder(s, at, location),
            None => s,
        },
        None => s,
    }
}

// The location.

/// Lets a location be typed.
pub open spec fn begin_location_edit(s: Scene) -> Scene {
    s.act(ViewActionView::ClearLocationError).act(ViewActionView::EditLocation)
}

/// Goes back to the trail of the location.
pub open spec fn cancel_location_edit(s: Scene) -> Scene {
    let t = match state::active_location(s.browser) {
        Some(location) => s.act(ViewActionView::SetLocationText { text: path_text(location) }),
        None => s,
    };
    focus_active(t.act(ViewActionView::ClearLocationError).act(ViewActionView::ShowTrail))
}

/// Takes over a typed location. One that cannot be a location is told to be none.
pub open spec fn submit_location(s: Scene, typed: Seq<char>) -> Scene {
    match typed_location(typed) {
        Ok(_) => s,
        Err(error) => s.act(
            ViewActionView::ShowLocationError { message: location_error_text(error) },
        ),
    }
}

/// Goes to a typed location once it is known whether it can be opened.
pub open spec fn location_checked(
    s: Scene,
    location: LocationView,
    verdict: Result<(), LocationValidationError>,
) -> Scene {
    match verdict {
        Ok(_) => show(s, state::navigate_typed(s.browser, location, verdict)).act(
            ViewActionView::ClearLocationError,
        ),
        Err(error) => s.act(
            ViewActionView::ShowLocationError { message: location_error_text(error) },
        ),
    }
}

// Menus, dragging and dropping.

/// The entries that are dragged with a row: all that are selected, where its entry is among them,
/// else it alone.
pub open spec fn dragged(s: Scene, depth: int, row: int) -> Seq<FileEntryView> {
    match entry_behind(s, depth, row) {
        Some((_, entry)) => {
            let selected = state::selected_entries(s.browser);
            if exists|k: int|
                0 <= k < selected.len() && (#[trigger] selected[k]).location.key()
                    == entry.location.key() {
                selected
            } else {
                seq![entry]
            }
        },
        None => Seq::empty(),
    }
}

/// Where what is dropped on a row goes: into its entry, where that is a folder.
pub open spec fn drop_destination(s: Scene, depth: int, row: int) -> Option<LocationView> {
    match entry_behind(s, depth, row) {
        Some((_, entry)) => if entry.is_directory() {
            Some(entry.location)
        } else {
            None
        },
        None => None,
    }
}

/// Takes over what was dropped. Nothing is nothing.
pub open spec fn files_dropped(
    s: Scene,
    destination: LocationView,
    sources: Seq<LocationView>,
    move_sources: bool,
) -> Scene {
    if sources.len() == 0 {
        s
    } else {
        show(s, state::transfer(s.browser, destination, sources, move_sources))
    }
}

/// Opens the menu of a row: the rows that are selected are taken over, and the menu is for the
/// entry of the row.
pub open spec fn open_menu(s: Scene, depth: int, row: int, selected: Seq<int>) -> Scene {
    match entry_behind(s, depth, row) {
        Some((position, entry)) => {
            let column = s.view.columns[depth];
            Scene {
                browser: state::set_selection(
                    s.browser,
                    depth,
                    column.sources(selected),
                    Some(position),
                ),
                ..s.with_column(depth, ColumnScreen { target: Some((position, entry)), ..column })
            }
        },
        None => s,
    }
}

/// The entry that the menu of a column is for.
pub open spec fn menu_target(s: Scene, depth: int) -> Option<(int, FileEntryView)> {
    if s.has_column(depth) {
        s.view.columns[depth].target
    } else {
        None
    }
}

/// The entries that the menu of a column is for: all that are selected, or else its own.
pub open spec fn context_entries(s: Scene, depth: int) -> Seq<FileEntryView> {
    let selected = state::selected_entries(s.browser);
    if selected.len() > 0 {
        selected
    } else {
        match menu_target(s, depth) {
            Some((_, entry)) => seq![entry],
            None => Seq::empty(),
        }
    }
}

/// Opens the entry that the menu of a column is for.
pub open spec fn menu_open(s: Scene, depth: int) -> Scene {
    match menu_target(s, depth) {
        Some((position, _)) => show(s, state::activate(s.browser, depth, position)),
        None => s,
    }
}

/// Looks at the file that the menu of a column is for.
pub open spec fn menu_preview(s: Scene, depth: int) -> Scene {
    match menu_target(s, depth) {
        Some((position, entry)) => if entry.is_directory() {
            s
        } else {
            show(s, state::preview(s.browser, depth, position))
        },
        None => s,
    }
}

/// Lets the name of the entry be edited that the menu of a column is for.
pub open spec fn menu_rename(s: Scene, depth: int, drawn: Seq<Seq<int>>) -> Scene {
    match menu_target(s, depth) {
        Some((position, _)) => begin_rename(
            show(s, state::select(s.browser, depth, position)),
            drawn,
        ),
        None => s,
    }
}

/// Whether what is deleted in a column is deleted for good: it lies in the trash already.
pub open spec fn deletes_for_good(b: BrowserState, focused: Option<int>) -> bool {
    let place = match focused {
        Some(depth) => state::location_at(b, depth),
        None => None,
    };
    let location = if place is Some {
        place
    } else {
        state::active_location(b)
    };
    match location {
        Some(at) => crate::model::in_trash(at),
        None => false,
    }
}

} // verus!
