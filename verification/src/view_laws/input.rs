//! What the gestures of the user are for: what each asks of the browser, and what is done on the
//! screen.
use vstd::prelude::*;

use super::events::{
    does, lemma_focus_is_shown, lemma_peek_is_set_up, lemma_refused_name_is_shown,
    lemma_words_are_shown,
};
use super::{
    lemma_cancel_rename, lemma_end_peek, lemma_events_tell_everything, lemma_focus,
    lemma_handle_all, mirrors, sight_of,
};
use crate::choice_laws::{
    is_row_of, lemma_open_row, lemma_opening_a_row, lemma_previewing_a_row, lemma_rename_target,
    lemma_selecting_a_row, lemma_taking_over_a_selection, row_is_chosen,
};
use crate::command_laws::{
    lemma_deletion_is_asked_for, lemma_directory_is_asked_for, lemma_navigation, lemma_peeking,
    lemma_rename_is_asked_for, lemma_transfer_is_asked_for, names_a_file,
};
use crate::entry::{FileEntryView, MetadataValue};
use crate::event::{EventView, RequestView};
use crate::gestures::{
    activate_row, begin_location_edit, begin_rename, cancel_location_edit, choose_sort_key,
    close_due, context_entries, create_new_folder, deletes_for_good, dismiss_filter, dragged,
    drop_destination, entry_behind, files_dropped, filter_toggled, location_checked, mark_sort,
    menu_open, menu_preview, menu_rename, menu_target, open_menu, peek_due, row_entered,
    row_pressed, schedule_close_peek, select_all_in, selection_changed, set_anchor,
    set_peek_enabled, set_query, submit_location, submit_new_folder, submit_rename,
    toggle_folders_first,
};
use crate::labels::stem_length;
use crate::laws::Command;
use crate::model::{path_text, LocationView};
use crate::names::LocationValidationError;
use crate::order::SortKey;
use crate::order_laws::lemma_choosing_an_order;
use crate::pointing::{focus_choice, range_end};
use crate::rows::{
    filtered_position, icon_of, lemma_filter_positions, lemma_row_keeps_the_entry, row_of,
    source_position,
};
use crate::screen::{
    cancel_new_folder, cancel_rename, focus_active, focus_shown, handle, handle_all, handled,
    mark_first, refresh_active_path_rows, show, stop_close_timer, stop_peek_timer, ColumnScreen,
    Scene, ViewActionView, ViewState,
};
use crate::sort_menu::SortMenu;
use crate::state;
use crate::state::{BrowserState, Flow};
use crate::text::lowercase;
use crate::view::menus::display_of;
use crate::wording_laws::lemma_stems;

verus! {

/// What a command does on the screen that tells nothing: nothing.
pub proof fn lemma_silence_changes_nothing(s: Scene, f: Flow)
    requires
        f.events.len() == 0,
    ensures
        ({
            let t = show(s, f);
            &&& t.view == s.view
            &&& t.actions == s.actions
            &&& t.browser == f.browser
            &&& t.requests == s.requests + f.requests
        }),
{
}

proof fn lemma_one_event(s: Scene, f: Flow)
    requires
        f.events.len() == 1,
    ensures
        show(s, f) == handle(
            Scene { browser: f.browser, requests: s.requests + f.requests, ..s },
            f.events[0],
        ),
{
    assert(f.events.drop_first() =~= Seq::empty());
    reveal_with_fuel(handle_all, 2);
}

// Rows.

/// The entry behind a row is the one at the position that the filter shows there.
pub proof fn lemma_entry_behind_a_row(s: Scene, depth: int, row: int)
    ensures
        match entry_behind(s, depth, row) {
            Some((position, entry)) => {
                &&& 0 <= depth < s.view.columns.len()
                &&& s.view.columns[depth].source(row) == Some(position)
                &&& 0 <= depth < s.browser.columns.len()
                &&& 0 <= position < s.browser.columns[depth].entries.len()
                &&& entry == s.browser.columns[depth].entries[position]
            },
            None => 0 <= depth < s.view.columns.len() && 0 <= depth < s.browser.columns.len() ==> {
                match s.view.columns[depth].source(row) {
                    Some(position) => !(0 <= position < s.browser.columns[depth].entries.len()),
                    None => true,
                }
            },
        },
{
}

/// A row is drawn as its entry: with its picture, as a folder where it is one, with its size where
/// it is a file of a known size, and as active where the next column shows its place.
pub proof fn lemma_how_a_row_is_drawn(s: Scene, depth: int, row: int, entry: FileEntryView)
    requires
        entry_behind(s, depth, row) is Some,
    ensures
        ({
            let (position, behind) = entry_behind(s, depth, row)->0;
            let drawn = display_of(s, depth, row, row_of(entry));
            &&& drawn.name == entry.display_name
            &&& drawn.icon == icon_of(behind)
            &&& drawn.directory == (behind.kind is Directory || behind.kind is DirectoryLink)
            &&& drawn.directory ==> drawn.size is None
            &&& !drawn.directory ==> match behind.size {
                MetadataValue::Known(bytes) => drawn.size == Some(bytes),
                _ => drawn.size is None,
            }
            &&& drawn.active == (depth + 1 < s.browser.columns.len() && is_row_of(
                s.browser.columns[depth].entries,
                s.browser.columns[depth + 1].location,
                position,
            ))
        }),
{
    let (position, behind) = entry_behind(s, depth, row)->0;
    lemma_row_keeps_the_entry(entry);
    lemma_open_row(s.browser, depth);
    if depth + 1 < s.browser.columns.len() {
        let entries = s.browser.columns[depth].entries;
        let place = s.browser.columns[depth + 1].location;
        if is_row_of(entries, place, position) {
            match state::active_child_position(s.browser, depth) {
                Some(found) => {
                    if found < position {
                        assert(entries[found].location.key() != place.key());
                    }
                    if position < found {
                        assert(entries[position].location.key() != place.key());
                    }
                },
                None => {
                    assert(entries[position].location.key() != place.key());
                },
            }
        }
    }
}

/// What opening the entry behind a row does: the row is selected, a folder is to be checked, to be
/// opened out of the column, and anything else is opened.
pub open spec fn row_is_opened(s: Scene, t: Scene, depth: int, row: int) -> bool {
    let (position, entry) = entry_behind(s, depth, row)->0;
    &&& row_is_chosen(s.browser, depth, position, t.browser)
    &&& t.view == s.view
    &&& if entry.kind is Directory || entry.kind is DirectoryLink {
        &&& t.requests == s.requests.push(RequestView::Validate { depth, location: entry.location })
        &&& t.actions == s.actions
    } else {
        &&& t.requests == s.requests
        &&& does(
            s.actions,
            seq![ViewActionView::OpenFile { location: entry.location }],
            t.actions,
        )
    }
}

/// What looking at the entry behind a row does: the row is selected, and a folder is to be checked,
/// to be opened out of the column.
pub open spec fn row_is_looked_at(s: Scene, t: Scene, depth: int, row: int) -> bool {
    let (position, entry) = entry_behind(s, depth, row)->0;
    &&& row_is_chosen(s.browser, depth, position, t.browser)
    &&& t.view == s.view
    &&& does(s.actions, Seq::empty(), t.actions)
    &&& t.requests == if entry.kind is Directory || entry.kind is DirectoryLink {
        s.requests.push(RequestView::Validate { depth, location: entry.location })
    } else {
        s.requests
    }
}

proof fn lemma_row_is_opened(s: Scene, depth: int, row: int)
    requires
        entry_behind(s, depth, row) is Some,
    ensures
        row_is_opened(
            s,
            ({
                let (position, _) = entry_behind(s, depth, row)->0;
                show(s, state::activate(s.browser, depth, position))
            }),
            depth,
            row,
        ),
{
    let (position, entry) = entry_behind(s, depth, row)->0;
    lemma_opening_a_row(s.browser, depth, position);
    let f = state::activate(s.browser, depth, position);
    let u = Scene { browser: f.browser, requests: s.requests + f.requests, ..s };
    if entry.is_directory() {
        assert(s.requests + f.requests =~= s.requests.push(
            RequestView::Validate { depth, location: entry.location },
        ));
    } else {
        assert(s.requests + f.requests =~= s.requests);
        lemma_one_event(s, f);
        lemma_words_are_shown(u, entry.location, entry, Seq::empty());
        lemma_quiet_requests(u, f.events[0]);
    }
}

proof fn lemma_quiet_requests(s: Scene, event: EventView)
    requires
        event is OpenRequested || event is PreviewRequested,
    ensures
        handle(s, event).requests == s.requests,
        handle(s, event).browser == s.browser,
{
    lemma_refresh_requests(handled(s, event));
}

proof fn lemma_mark_requests(s: Scene, count: int)
    ensures
        mark_first(s, count).requests == s.requests,
        mark_first(s, count).browser == s.browser,
    decreases count,
{
    if count > 0 {
        lemma_mark_requests(s, count - 1);
    }
}

proof fn lemma_refresh_requests(s: Scene)
    ensures
        refresh_active_path_rows(s).requests == s.requests,
        refresh_active_path_rows(s).browser == s.browser,
{
    reveal(refresh_active_path_rows);
    lemma_mark_requests(s, s.view.columns.len() as int);
}

proof fn lemma_row_is_looked_at(s: Scene, depth: int, row: int)
    requires
        entry_behind(s, depth, row) is Some,
    ensures
        row_is_looked_at(
            s,
            ({
                let (position, _) = entry_behind(s, depth, row)->0;
                show(s, state::preview(s.browser, depth, position))
            }),
            depth,
            row,
        ),
{
    let (position, entry) = entry_behind(s, depth, row)->0;
    lemma_previewing_a_row(s.browser, depth, position);
    let f = state::preview(s.browser, depth, position);
    let u = Scene { browser: f.browser, requests: s.requests + f.requests, ..s };
    if entry.is_directory() {
        assert(s.requests + f.requests =~= s.requests.push(
            RequestView::Validate { depth, location: entry.location },
        ));
    } else {
        assert(s.requests + f.requests =~= s.requests);
        lemma_one_event(s, f);
        lemma_words_are_shown(u, entry.location, entry, Seq::empty());
        lemma_quiet_requests(u, f.events[0]);
    }
}

/// The second press on a row opens its entry, whatever keys are held. A first press without keys
/// looks at it. With the control or the shift key nothing is opened. Opening a row by itself does
/// what the second press does.
pub proof fn lemma_presses_on_a_row(
    s: Scene,
    depth: int,
    row: int,
    presses: int,
    control: bool,
    shift: bool,
)
    requires
        entry_behind(s, depth, row) is Some,
    ensures
        row_is_opened(s, row_pressed(s, depth, row, 2, control, shift), depth, row),
        row_is_opened(s, activate_row(s, depth, row), depth, row),
        presses != 2 && !control && !shift ==> row_is_looked_at(
            s,
            row_pressed(s, depth, row, presses, control, shift),
            depth,
            row,
        ),
        presses != 2 && (control || shift) ==> row_pressed(s, depth, row, presses, control, shift)
            == s,
{
    lemma_row_is_opened(s, depth, row);
    lemma_row_is_looked_at(s, depth, row);
}

/// Selecting all selects all rows of that column and gives it the focus.
pub proof fn lemma_selecting_all(s: Scene, depth: int)
    requires
        s.has_column(depth),
    ensures
        select_all_in(s, depth).actions == s.actions + seq![
            ViewActionView::SelectAllRows { depth },
            ViewActionView::FocusColumn { depth },
        ],
        select_all_in(s, depth).view == s.view,
        select_all_in(s, depth).browser == s.browser,
{
}

/// The anchor of a column is put where it is said to be, and nothing else changes.
pub proof fn lemma_putting_the_anchor(s: Scene, depth: int, anchor: Option<usize>, other: int)
    requires
        s.has_column(depth),
    ensures
        ({
            let t = set_anchor(s, depth, anchor);
            &&& t.view.columns[depth] == (ColumnScreen { anchor, ..s.view.columns[depth] })
            &&& t.view.columns.len() == s.view.columns.len()
            &&& other != depth && s.has_column(other) ==> t.view.columns[other]
                == s.view.columns[other]
            &&& t.browser == s.browser && t.actions == s.actions && t.requests == s.requests
        }),
{
}

proof fn lemma_sources(column: ColumnScreen, rows: Seq<int>)
    ensures
        forall|position: int| #[trigger]
            column.sources(rows).contains(position) <==> exists|k: int|
                0 <= k < rows.len() && column.source(#[trigger] rows[k]) == Some(position),
    decreases rows.len(),
{
    if rows.len() > 0 {
        let fewer = rows.drop_last();
        let before = column.sources(fewer);
        let all = column.sources(rows);
        lemma_sources(column, fewer);
        assert(rows[rows.len() - 1] == rows.last());
        assert forall|position: int| #[trigger] all.contains(position) <==> exists|k: int|
            0 <= k < rows.len() && column.source(#[trigger] rows[k]) == Some(position) by {
            if all.contains(position) {
                let j = choose|j: int| 0 <= j < all.len() && all[j] == position;
                if j < before.len() {
                    assert(before[j] == position);
                    assert(before.contains(position));
                    let k = choose|k: int|
                        0 <= k < fewer.len() && column.source(#[trigger] fewer[k]) == Some(position);
                    assert(rows[k] == fewer[k]);
                }
            }
            if exists|k: int|
                0 <= k < rows.len() && column.source(#[trigger] rows[k]) == Some(position) {
                let k = choose|k: int|
                    0 <= k < rows.len() && column.source(#[trigger] rows[k]) == Some(position);
                if k < fewer.len() {
                    assert(fewer[k] == rows[k]);
                    assert(before.contains(position));
                    let j = choose|j: int| 0 <= j < before.len() && before[j] == position;
                    assert(all[j] == position);
                } else {
                    assert(all[before.len() as int] == position);
                }
            }
        }
    }
}

/// Whether a place is that of an entry which one of the rows shows.
pub open spec fn is_place_of_a_row(s: Scene, depth: int, rows: Seq<int>, place: LocationView) -> bool {
    exists|k: int|
        0 <= k < rows.len() && match entry_behind(s, depth, #[trigger] rows[k]) {
            Some((_, entry)) => entry.location == place,
            None => false,
        }
}

proof fn lemma_selected_places(
    s: Scene,
    depth: int,
    rows: Seq<int>,
    focused: Option<int>,
    place: LocationView,
)
    requires
        s.has_column(depth),
        0 <= depth < s.browser.columns.len(),
    ensures
        state::set_selection(
            s.browser,
            depth,
            s.view.columns[depth].sources(rows),
            focused,
        ).columns[depth].selected.contains(place) <==> is_place_of_a_row(s, depth, rows, place),
{
    let column = s.view.columns[depth];
    let sources = column.sources(rows);
    let entries = s.browser.columns[depth].entries;
    lemma_sources(column, rows);
    lemma_taking_over_a_selection(s.browser, depth, sources, focused);
    let after = state::set_selection(s.browser, depth, sources, focused).columns[depth];
    if after.selected.contains(place) {
        let j = choose|j: int|
            0 <= j < sources.len() && 0 <= #[trigger] sources[j] < entries.len()
                && entries[sources[j]].location == place;
        assert(sources.contains(sources[j]));
        let k = choose|k: int|
            0 <= k < rows.len() && column.source(#[trigger] rows[k]) == Some(sources[j]);
        assert(entry_behind(s, depth, rows[k]) is Some);
    }
    if is_place_of_a_row(s, depth, rows, place) {
        let k = choose|k: int|
            0 <= k < rows.len() && match entry_behind(s, depth, #[trigger] rows[k]) {
                Some((_, entry)) => entry.location == place,
                None => false,
            };
        let (position, entry) = entry_behind(s, depth, rows[k])->0;
        assert(column.source(rows[k]) == Some(position));
        assert(sources.contains(position));
        let j = choose|j: int| 0 <= j < sources.len() && sources[j] == position;
        assert(entries[sources[j]].location == place);
    }
}

/// What is selected in a list is selected in the browser: exactly the places of the entries that
/// the rows show. The row that has the focus is kept, and its place has the focus in the browser.
pub proof fn lemma_selection_is_taken_over(
    s: Scene,
    depth: int,
    rows: Seq<int>,
    from: int,
    count: int,
    place: LocationView,
)
    requires
        s.has_column(depth),
        0 <= depth < s.browser.columns.len(),
    ensures
        ({
            let t = selection_changed(s, depth, rows, from, count);
            let before = s.browser.columns[depth];
            let after = t.browser.columns[depth];
            let focus = t.view.columns[depth].focused;
            &&& after.selected.contains(place) <==> is_place_of_a_row(s, depth, rows, place)
            &&& focus == focus_choice(
                rows,
                from,
                range_end(from, count),
                s.view.columns[depth].focused,
            )
            &&& focus matches Some(row) ==> match entry_behind(s, depth, row) {
                Some((_, entry)) => after.focused == Some(entry.location),
                None => after.focused is None,
            }
            &&& focus is None ==> after.focused is None
            &&& after.entries == before.entries && after.location == before.location
            &&& t.actions == s.actions && t.requests == s.requests
        }),
{
    let column = s.view.columns[depth];
    let focused = focus_choice(rows, from, range_end(from, count), column.focused);
    let source = match focused {
        Some(row) => column.source(row),
        None => None,
    };
    lemma_selected_places(s, depth, rows, source, place);
    lemma_taking_over_a_selection(s.browser, depth, column.sources(rows), source);
}

// Filters.

/// A filter goes by what was typed, in lower case, and changes neither the rows nor another column.
/// To take it away shows all rows again.
pub proof fn lemma_filtering(s: Scene, depth: int, typed: Seq<char>, active: bool, other: int)
    requires
        s.has_column(depth),
    ensures
        ({
            let before = s.view.columns[depth];
            let t = set_query(s, depth, typed);
            let u = filter_toggled(s, depth, active);
            let v = dismiss_filter(s, Some(depth));
            &&& t.view.columns[depth] == (ColumnScreen { query: lowercase(typed), ..before })
            &&& other != depth && s.has_column(other) ==> t.view.columns[other]
                == s.view.columns[other] && u.view.columns[other] == s.view.columns[other]
            &&& t.browser == s.browser && u.browser == s.browser && v.browser == s.browser
            &&& t.actions == s.actions
            &&& active ==> u.view == s.view && u.actions == s.actions.push(
                ViewActionView::ShowFilter { depth },
            )
            &&& !active ==> {
                &&& u.view.columns[depth] == (ColumnScreen { query: Seq::empty(), ..before })
                &&& u.actions == s.actions.push(ViewActionView::HideFilter { depth })
            }
            &&& v.view.columns[depth] == (ColumnScreen { query: Seq::empty(), ..before })
            &&& v.actions == s.actions + seq![
                ViewActionView::HideFilter { depth },
                ViewActionView::FocusColumn { depth },
            ]
            &&& dismiss_filter(s, None) == s
        }),
{
}

// Sorting.

/// A field that is chosen in the menu is marked there, and the column is sorted by it. Folders that
/// are turned over come first, or no longer, and are marked so.
pub proof fn lemma_choices_in_the_sort_menu(s: Scene, depth: int, key: SortKey)
    requires
        s.has_column(depth),
        mirrors(s.view.columns, sight_of(s.browser.columns)),
    ensures
        ({
            let before = s.browser.columns[depth];
            let keyed = choose_sort_key(s, depth, key);
            let turned = toggle_folders_first(s, depth);
            let folders_first = !s.view.columns[depth].sort_menu.folders_first;
            &&& keyed.browser.columns[depth].sort.key == key
            &&& keyed.browser.columns[depth].sort.direction == before.sort.direction
            &&& keyed.browser.columns[depth].sort.folders_first == before.sort.folders_first
            &&& keyed.browser.columns[depth].entries.to_multiset() == before.entries.to_multiset()
            &&& turned.browser.columns[depth].sort.folders_first == folders_first
            &&& turned.browser.columns[depth].sort.key == before.sort.key
            &&& turned.browser.columns[depth].sort.direction == before.sort.direction
            &&& turned.browser.columns[depth].entries.to_multiset()
                == before.entries.to_multiset()
        }),
        ({
            let menu = SortMenu { chosen: key, ..s.view.columns[depth].sort_menu };
            let marked = mark_sort(s, depth, menu);
            let marks = marked.actions.last()->MarkSort_marks;
            &&& marked.actions.len() == s.actions.len() + 1
            &&& marked.actions.last() is MarkSort
            &&& marked.actions.last()->MarkSort_depth == depth
            &&& marks.name == (key is Name) && marks.size == (key is Size) && marks.modified == (
            key is Modified) && marks.kind == (key is Type)
            &&& marks.folders_first == menu.folders_first
            &&& marked.view.columns[depth].sort_menu == menu
        }),
{
    assert(sight_of(s.browser.columns).len() == s.browser.columns.len());
    let menu = s.view.columns[depth].sort_menu;
    let folders_first = !menu.folders_first;
    let direction = s.browser.columns[depth].sort.direction;
    lemma_choosing_an_order(s.browser, depth, key, direction, folders_first);
    let t = mark_sort(s, depth, SortMenu { chosen: key, ..menu });
    let f = state::set_sort_key(t.browser, depth, key);
    lemma_handle_all(
        Scene { browser: f.browser, requests: t.requests + f.requests, ..t },
        f.events,
        sight_of(s.browser.columns),
    );
    let u = mark_sort(s, depth, SortMenu { folders_first, ..menu });
    let g = state::set_folders_first(u.browser, depth, folders_first);
    lemma_handle_all(
        Scene { browser: g.browser, requests: u.requests + g.requests, ..u },
        g.events,
        sight_of(s.browser.columns),
    );
}

// Peeks.

/// While the pointer comes to a folder, a peek into it is prepared that opens after the delay; what
/// was prepared before is given up. Where the peek is open already, or peeks are switched off, none
/// is prepared. Any other entry ends the peek.
pub proof fn lemma_pointer_comes_to_a_row(s: Scene, depth: int, row: int)
    requires
        entry_behind(s, depth, row) is Some,
    ensures
        ({
            let (_, entry) = entry_behind(s, depth, row)->0;
            let folder = entry.kind is Directory || entry.kind is DirectoryLink;
            let open = s.view.peek matches Some(peek) && peek.location.key()
                == entry.location.key();
            let t = row_entered(s, depth, row);
            &&& folder && !s.view.peek_enabled ==> t == s
            &&& folder && s.view.peek_enabled ==> {
                &&& !t.view.pending_close
                &&& t.view.peek == s.view.peek
                &&& t.browser == s.browser && t.requests == s.requests
                &&& open ==> t.view.pending_peek is None
                &&& !open ==> {
                    &&& t.view.pending_peek == Some((depth, entry.location))
                    &&& t.view.anchored
                    &&& t.actions.last() == (ViewActionView::StartPeekTimer {
                        delay: s.view.behavior.open_delay as int,
                    })
                }
                &&& s.view.pending_peek is Some ==> t.actions.contains(ViewActionView::StopPeekTimer)
                &&& s.view.pending_close ==> t.actions.contains(ViewActionView::StopCloseTimer)
            }
            &&& !folder ==> {
                &&& t.browser == (BrowserState { peek: None, ..s.browser })
                &&& t.view.pending_peek is None
                &&& s.browser.peek is Some ==> t.view.peek is None
            }
        }),
{
    let (_, entry) = entry_behind(s, depth, row)->0;
    let t = row_entered(s, depth, row);
    let n = s.actions.len() as int;
    if entry.is_directory() {
        if s.view.peek_enabled {
            if s.view.pending_peek is Some {
                assert(t.actions[n] == ViewActionView::StopPeekTimer);
                if s.view.pending_close {
                    assert(t.actions[n + 1] == ViewActionView::StopCloseTimer);
                }
            } else if s.view.pending_close {
                assert(t.actions[n] == ViewActionView::StopCloseTimer);
            }
        }
    } else {
        lemma_end_peek(stop_peek_timer(s));
    }
}

/// Once the pointer leaves, the end of the peek is prepared and comes after the delay. To come into
/// the peek lets it stay.
pub proof fn lemma_pointer_leaves(s: Scene)
    ensures
        ({
            let t = schedule_close_peek(s);
            let u = stop_close_timer(s);
            &&& t.view == (ViewState { pending_close: true, pending_peek: None, ..s.view })
            &&& t.actions.last() == (ViewActionView::StartCloseTimer {
                delay: s.view.behavior.close_delay as int,
            })
            &&& t.browser == s.browser && t.requests == s.requests
            &&& u.view == (ViewState { pending_close: false, ..s.view })
            &&& u.actions == if s.view.pending_close {
                s.actions.push(ViewActionView::StopCloseTimer)
            } else {
                s.actions
            }
        }),
{
}

/// A peek that is due looks into the place that it was prepared for, from the column that it was
/// prepared in. Without a prepared one nothing happens.
pub proof fn lemma_peek_is_due(s: Scene)
    requires
        s.view.anchored,
    ensures
        ({
            let t = peek_due(s);
            &&& s.view.pending_peek is None ==> t == s
            &&& s.view.pending_peek matches Some((origin, location)) ==> {
                &&& t.view.pending_peek is None
                &&& 0 <= origin < s.browser.columns.len() ==> {
                    &&& t.browser.peek is Some
                    &&& t.browser.peek->0.origin == origin
                    &&& t.browser.peek->0.location == location
                    &&& t.browser.columns == s.browser.columns
                    &&& t.view.peek is Some
                    &&& t.view.peek->0.location == location
                    &&& t.requests.last() == (RequestView::Enumerate {
                        id: s.browser.next_id,
                        location,
                        include_hidden: s.browser.include_hidden,
                    })
                }
                &&& !(0 <= origin < s.browser.columns.len()) ==> t.browser == s.browser
                    && t.requests == s.requests
            }
        }),
{
    if let Some((origin, location)) = s.view.pending_peek {
        let t = s.with(ViewState { pending_peek: None, ..s.view });
        let f = state::begin_peek(t.browser, origin, location);
        lemma_peeking(t.browser, origin, location);
        if 0 <= origin < s.browser.columns.len() {
            lemma_one_event(t, f);
            let u = Scene { browser: f.browser, requests: t.requests + f.requests, ..t };
            lemma_peek_is_set_up(u, location);
            assert((t.requests + f.requests).last() == f.requests.last());
        } else {
            assert(t.requests + f.requests =~= t.requests);
        }
    }
}

/// The end of a peek that is due ends it in the browser and takes it off the screen. To switch
/// peeks off does so too and keeps others from opening.
pub proof fn lemma_peeks_are_ended(s: Scene, enabled: bool)
    ensures
        ({
            let t = close_due(s);
            let u = set_peek_enabled(s, enabled);
            &&& t.browser == (BrowserState { peek: None, ..s.browser })
            &&& !t.view.pending_close
            &&& s.browser.peek is Some ==> t.view.peek is None
            &&& t.view.columns == s.view.columns
            &&& u.view.peek_enabled == enabled
            &&& enabled ==> u == s.with(ViewState { peek_enabled: true, ..s.view })
            &&& !enabled ==> {
                &&& u.browser == (BrowserState { peek: None, ..s.browser })
                &&& u.view.pending_peek is None
                &&& s.browser.peek is Some ==> u.view.peek is None
            }
        }),
{
    lemma_end_peek(s.with(ViewState { pending_close: false, ..s.view }));
    let t = s.with(ViewState { peek_enabled: enabled, ..s.view });
    lemma_end_peek(stop_peek_timer(t));
}

// Names and folders.

/// A name is edited in the row that shows the entry which a rename is for, with the name of that
/// entry, of which all but the ending is selected. A new folder that was being named is given up.
/// Where the filter hides the row, or it is not drawn, no name is edited.
pub proof fn lemma_name_is_edited(s: Scene, drawn: Seq<Seq<int>>, depth: int, row: int)
    requires
        state::rename_item(s.browser) is Some,
        s.has_column(depth),
    ensures
        ({
            let (at, position, entry) = state::rename_item(s.browser)->0;
            let t = begin_rename(s, drawn);
            &&& t.browser == s.browser && t.requests == s.requests
            &&& t.view.new_folder is None
            &&& at == depth && s.view.columns[depth].shown(position) == Some(row) && depth
                < drawn.len() && drawn[depth].contains(row) ==> {
                &&& t.view.renaming == Some(entry)
                &&& t.actions.last() is EditName
                &&& t.actions.last()->EditName_depth == depth
                &&& t.actions.last()->EditName_row == row
                &&& t.actions.last()->EditName_name == entry.display_name
                &&& entry.display_name.len() <= i32::MAX ==> t.actions.last()->EditName_selected
                    == stem_length(entry.display_name)
            }
            &&& s.has_column(at) && s.view.columns[at].shown(position) is None
                ==> t.view.renaming is None
        }),
{
    lemma_cancel_rename(cancel_new_folder(s));
    reveal(cancel_rename);
    let (_, _, entry) = state::rename_item(s.browser)->0;
    lemma_stems(entry.display_name);
}

/// A name that was edited and has changed is asked for, for the entry that is edited, and the field
/// is locked meanwhile. One that no file can have is refused. One that has not changed ends the
/// editing, and nothing is asked for.
pub proof fn lemma_edited_name_is_asked_for(s: Scene, name: Seq<char>)
    requires
        s.view.renaming is Some,
    ensures
        ({
            let entry = s.view.renaming->0;
            let t = submit_rename(s, true, name);
            &&& submit_rename(s, false, name) == s
            &&& name == entry.display_name ==> {
                &&& t.view.renaming is None
                &&& t.browser == s.browser
                &&& t.view.columns == s.view.columns
            }
            &&& name != entry.display_name && names_a_file(name) ==> {
                &&& t.requests == s.requests.push(
                    RequestView::Rename { id: s.browser.next_id, entry, new_name: name },
                )
                &&& t.browser.renaming == Some(s.browser.next_id)
                &&& t.actions == s.actions.push(ViewActionView::LockName)
                &&& t.view == s.view
            }
            &&& name != entry.display_name && !names_a_file(name) ==> {
                &&& t.browser == s.browser
                &&& t.view == s.view
                &&& t.actions[s.actions.len() as int] == ViewActionView::LockName
                &&& t.actions[s.actions.len() + 1int] is RejectName
            }
        }),
{
    let entry = s.view.renaming->0;
    lemma_cancel_rename(s);
    lemma_focus(cancel_rename(s), 0, None);
    lemma_rename_is_asked_for(s.browser, entry, name);
    let f = state::rename(s.browser, entry, name);
    let u = s.act(ViewActionView::LockName);
    if names_a_file(name) {
        assert(u.requests + f.requests =~= s.requests.push(f.requests[0]));
    } else {
        lemma_one_event(u, f);
        assert(u.requests + f.requests =~= s.requests);
        let message = f.events[0]->RenameFailed_message;
        lemma_refused_name_is_shown(
            Scene { browser: f.browser, requests: u.requests + f.requests, ..u },
            message,
        );
        lemma_refresh_requests(
            handled(
                Scene { browser: f.browser, requests: u.requests + f.requests, ..u },
                f.events[0],
            ),
        );
        let t = submit_rename(s, true, name);
        let done = seq![ViewActionView::RejectName { message }];
        if name != entry.display_name {
            assert(t.actions[u.actions.len() + 0int] == done[0]);
            assert(t.actions[s.actions.len() as int] == u.actions[s.actions.len() as int]);
        }
    }
}

/// A folder is named in the column that it is to be made in, and what was edited before is given
/// up. Without a column that has the focus it is the last one; the folder is to be made in the
/// place that the column shows.
pub proof fn lemma_folder_is_named(s: Scene, depth: int, focused: Option<int>)
    requires
        0 <= depth < s.browser.columns.len(),
        s.has_column(depth),
        focused == Some(depth) || (focused is None && depth == s.browser.columns.len() - 1),
    ensures
        ({
            let t = create_new_folder(s, focused);
            &&& t.view.new_folder == Some((depth, s.browser.columns[depth].location))
            &&& t.view.renaming is None
            &&& t.actions.last() == (ViewActionView::EditNewFolder { depth })
            &&& t.browser == s.browser && t.requests == s.requests
            &&& t.view.columns == s.view.columns
        }),
{
    lemma_cancel_rename(cancel_new_folder(s));
    reveal(cancel_rename);
}

/// A folder that was named is asked for, under that name and in that place. Without a name none is
/// asked for. Either way nothing is named any longer.
pub proof fn lemma_named_folder_is_asked_for(s: Scene, name: Seq<char>)
    requires
        s.view.new_folder is Some,
    ensures
        ({
            let (depth, location) = s.view.new_folder->0;
            let t = submit_new_folder(s, true, name);
            let u = submit_new_folder(s, false, name);
            &&& u.view.new_folder is None && u.requests == s.requests && u.actions == s.actions
            &&& t.view == (ViewState { new_folder: None, ..s.view })
            &&& t.actions[s.actions.len() as int] == (ViewActionView::EndEditNewFolder { depth })
            &&& names_a_file(name) ==> {
                &&& t.requests == s.requests.push(
                    RequestView::CreateDirectory {
                        id: s.browser.next_id,
                        parent: location,
                        name,
                    },
                )
                &&& t.actions.len() == s.actions.len() + 1
            }
            &&& name.len() == 0 ==> t.requests == s.requests && t.browser == s.browser
                && t.actions.len() == s.actions.len() + 1
            &&& name.len() > 0 && !names_a_file(name) ==> {
                &&& t.requests == s.requests
                &&& t.browser == s.browser
                &&& t.actions[s.actions.len() + 1int] is ShowError
            }
        }),
{
    let (depth, location) = s.view.new_folder->0;
    let u = s.with(ViewState { new_folder: None, ..s.view }).act(
        ViewActionView::EndEditNewFolder { depth },
    );
    lemma_directory_is_asked_for(s.browser, location, name);
    let f = state::create_directory(s.browser, location, name);
    if names_a_file(name) {
        assert(u.requests + f.requests =~= s.requests.push(f.requests[0]));
    } else if name.len() > 0 {
        lemma_one_event(u, f);
        assert(u.requests + f.requests =~= s.requests);
        let message = f.events[0]->OperationFailed_message;
        let v = Scene { browser: f.browser, requests: u.requests + f.requests, ..u };
        lemma_words_are_shown(v, location, arbitrary(), message);
        lemma_refresh_requests(handled(v, f.events[0]));
        let t = submit_new_folder(s, true, name);
        let done = seq![
            ViewActionView::ShowError {
                message: "Unable to complete operation"@,
                detail: message,
            },
        ];
        assert(t.actions[u.actions.len() + 0int] == done[0]);
        assert(t.actions[s.actions.len() as int] == u.actions[s.actions.len() as int]);
    }
}

// The location.

/// A location is typed in the place of the trail. To give that up shows the location of the last
/// column again. A location that cannot be one is told to be none, and so is one that cannot be
/// opened; one that can be opened is gone to.
pub proof fn lemma_typing_a_location(
    s: Scene,
    typed: Seq<char>,
    location: LocationView,
    verdict: Result<(), LocationValidationError>,
)
    requires
        mirrors(s.view.columns, sight_of(s.browser.columns)),
    ensures
        ({
            let begun = begin_location_edit(s);
            let ended = cancel_location_edit(s);
            let sent = submit_location(s, typed);
            let checked = location_checked(s, location, verdict);
            let n = s.actions.len() as int;
            &&& begun.actions == s.actions + seq![
                ViewActionView::ClearLocationError,
                ViewActionView::EditLocation,
            ]
            &&& begun.view == s.view && begun.browser == s.browser
            &&& ended.view == s.view && ended.browser == s.browser
            &&& s.browser.columns.len() > 0 ==> ended.actions[n] == (
            ViewActionView::SetLocationText { text: path_text(s.browser.columns.last().location) })
            &&& typed.len() > 0 && typed[0] == '/' ==> sent == s
            &&& typed.len() == 0 || typed[0] != '/' ==> {
                &&& sent.actions.len() == n + 1
                &&& sent.actions[n] is ShowLocationError
                &&& sent.view == s.view && sent.browser == s.browser
            }
            &&& verdict is Err ==> {
                &&& checked.actions.len() == n + 1
                &&& checked.actions[n] is ShowLocationError
                &&& checked.view == s.view && checked.browser == s.browser
            }
            &&& verdict is Ok ==> {
                &&& checked.browser.columns.len() == 1
                &&& checked.browser.columns[0].location == location
                &&& checked.view.columns.len() == 1
                &&& checked.view.columns[0].location == location
                &&& checked.actions.last() == ViewActionView::ClearLocationError
            }
        }),
{
    let t = match state::active_location(s.browser) {
        Some(location) => s.act(ViewActionView::SetLocationText { text: path_text(location) }),
        None => s,
    };
    let u = t.act(ViewActionView::ClearLocationError).act(ViewActionView::ShowTrail);
    lemma_focus(u, 0, None);
    lemma_focus_keeps_actions(u);
    if s.browser.columns.len() > 0 {
        assert(u.actions[s.actions.len() as int] is SetLocationText);
    }
    if verdict is Ok {
        let f = state::navigate(s.browser, location);
        lemma_navigation(s.browser, location);
        let v = Scene { browser: f.browser, requests: s.requests + f.requests, ..s };
        lemma_handle_all(v, f.events, sight_of(s.browser.columns));
        lemma_events_tell_everything(
            s.browser,
            Command::Navigate { location },
        );
        let seen = sight_of(f.browser.columns);
        assert(seen.len() == 1);
        assert(seen[0].location == location);
    }
}

proof fn lemma_focus_keeps_actions(s: Scene)
    ensures
        focus_active(s).actions.len() >= s.actions.len(),
        forall|k: int|
            0 <= k < s.actions.len() ==> #[trigger] focus_active(s).actions[k] == s.actions[k],
{
    reveal(focus_active);
    reveal(focus_shown);
    if let Some(depth) = state::active_depth(s.browser) {
        let f = if s.has_column(depth) {
            focus_shown(s, depth, s.browser.columns[depth].focused_position())
        } else {
            s
        };
        reveal(refresh_active_path_rows);
        lemma_marks_keep_actions(f, f.view.columns.len() as int);
    }
}

proof fn lemma_marks_keep_actions(s: Scene, count: int)
    ensures
        mark_first(s, count).actions.len() >= s.actions.len(),
        forall|k: int|
            0 <= k < s.actions.len() ==> #[trigger] mark_first(s, count).actions[k]
                == s.actions[k],
    decreases count,
{
    if count > 0 {
        lemma_marks_keep_actions(s, count - 1);
    }
}

// Menus, dragging and dropping.

/// Whether an entry for the same place is among the selected ones.
pub open spec fn is_selected_too(b: BrowserState, entry: FileEntryView) -> bool {
    let selected = state::selected_entries(b);
    exists|k: int|
        0 <= k < selected.len() && (#[trigger] selected[k]).location.key() == entry.location.key()
}

/// What is dragged with a row is all that is selected, where its entry is among it, and else its
/// entry alone. Things are dropped into the folder behind a row, and not into a file.
pub proof fn lemma_dragging_and_dropping(s: Scene, depth: int, row: int)
    requires
        entry_behind(s, depth, row) is Some,
    ensures
        ({
            let (_, entry) = entry_behind(s, depth, row)->0;
            &&& is_selected_too(s.browser, entry) ==> dragged(s, depth, row)
                == state::selected_entries(s.browser)
            &&& !is_selected_too(s.browser, entry) ==> dragged(s, depth, row) == seq![entry]
            &&& drop_destination(s, depth, row) == if entry.kind is Directory
                || entry.kind is DirectoryLink {
                Some(entry.location)
            } else {
                None
            }
        }),
{
}

/// What is dropped is one transfer of all that was dropped, to that place, as a copy or a move as
/// it was dropped. Where nothing was dropped, nothing is asked for.
pub proof fn lemma_dropping_files(
    s: Scene,
    destination: LocationView,
    sources: Seq<LocationView>,
    move_sources: bool,
)
    ensures
        ({
            let t = files_dropped(s, destination, sources, move_sources);
            &&& sources.len() == 0 ==> t == s
            &&& sources.len() > 0 ==> {
                &&& t.requests == s.requests.push(
                    RequestView::Paste {
                        id: s.browser.next_id,
                        destination,
                        sources,
                        move_sources,
                    },
                )
                &&& t.view == s.view && t.actions == s.actions
                &&& t.browser.columns == s.browser.columns
            }
        }),
{
    lemma_transfer_is_asked_for(s.browser, destination, sources, move_sources);
    let f = state::transfer(s.browser, destination, sources, move_sources);
    assert(s.requests + f.requests =~= s.requests.push(f.requests[0]));
}

/// A deletion that is shown asks for just those entries, for good exactly where it was asked for
/// so, and changes nothing on the screen.
pub proof fn lemma_showing_a_deletion(s: Scene, entries: Seq<FileEntryView>, permanent: bool)
    ensures
        ({
            let t = show(s, state::delete(s.browser, entries, permanent));
            &&& t.requests == s.requests.push(
                RequestView::Delete { id: s.browser.next_id, entries, permanent },
            )
            &&& t.view == s.view && t.actions == s.actions
            &&& t.browser.columns == s.browser.columns
        }),
{
    lemma_deletion_is_asked_for(s.browser, entries, permanent);
    let f = state::delete(s.browser, entries, permanent);
    assert(s.requests + f.requests =~= s.requests.push(f.requests[0]));
}

/// The menu of a row is for the entry behind it. The rows that it is opened on are selected,
/// exactly, and the entry of the row has the focus. What the menu is for stays until it is opened
/// anew.
pub proof fn lemma_opening_a_menu(
    s: Scene,
    depth: int,
    row: int,
    rows: Seq<int>,
    place: LocationView,
)
    requires
        entry_behind(s, depth, row) is Some,
    ensures
        ({
            let (position, entry) = entry_behind(s, depth, row)->0;
            let t = open_menu(s, depth, row, rows);
            let after = t.browser.columns[depth];
            &&& menu_target(t, depth) == Some((position, entry))
            &&& after.selected.contains(place) <==> is_place_of_a_row(s, depth, rows, place)
            &&& after.focused == Some(entry.location)
            &&& after.entries == s.browser.columns[depth].entries
            &&& t.actions == s.actions && t.requests == s.requests
            &&& t.view.columns[depth].rows == s.view.columns[depth].rows
        }),
{
    let (position, entry) = entry_behind(s, depth, row)->0;
    let column = s.view.columns[depth];
    lemma_selected_places(s, depth, rows, Some(position), place);
    lemma_taking_over_a_selection(s.browser, depth, column.sources(rows), Some(position));
}

/// The entries that a menu is for are all that are selected, or else the one that it was opened on.
pub proof fn lemma_entries_of_a_menu(s: Scene, depth: int)
    ensures
        state::selected_entries(s.browser).len() > 0 ==> context_entries(s, depth)
            == state::selected_entries(s.browser),
        state::selected_entries(s.browser).len() == 0 && s.has_column(depth) ==> match
        s.view.columns[depth].target {
            Some((_, entry)) => context_entries(s, depth) == seq![entry],
            None => context_entries(s, depth).len() == 0,
        },
{
}

/// What a menu offers is done to the entry that it was opened on: it is opened, or looked at where
/// it is a file.
pub proof fn lemma_choices_in_a_menu(s: Scene, depth: int, row: int)
    requires
        entry_behind(s, depth, row) is Some,
        menu_target(s, depth) == entry_behind(s, depth, row),
    ensures
        ({
            let (_, entry) = entry_behind(s, depth, row)->0;
            &&& row_is_opened(s, menu_open(s, depth), depth, row)
            &&& entry.kind is Directory || entry.kind is DirectoryLink ==> menu_preview(s, depth)
                == s
            &&& !(entry.kind is Directory || entry.kind is DirectoryLink) ==> row_is_looked_at(
                s,
                menu_preview(s, depth),
                depth,
                row,
            )
        }),
{
    lemma_row_is_opened(s, depth, row);
    lemma_row_is_looked_at(s, depth, row);
}

/// To rename out of a menu selects the entry that it was opened on, and lets its name be edited
/// where its column is the last one and its row is drawn.
pub proof fn lemma_renaming_out_of_a_menu(s: Scene, depth: int, row: int, drawn: Seq<Seq<int>>)
    requires
        entry_behind(s, depth, row) is Some,
        menu_target(s, depth) == entry_behind(s, depth, row),
    ensures
        ({
            let (position, entry) = entry_behind(s, depth, row)->0;
            let t = menu_rename(s, depth, drawn);
            &&& row_is_chosen(s.browser, depth, position, t.browser)
            &&& t.requests == s.requests
            &&& depth == s.browser.columns.len() - 1 && depth < drawn.len() && drawn[depth].contains(
                row,
            ) && is_row_of(s.browser.columns[depth].entries, entry.location, position) ==> {
                &&& t.view.renaming == Some(entry)
                &&& t.actions.last() is EditName
                &&& t.actions.last()->EditName_name == entry.display_name
                &&& t.actions.last()->EditName_row == row
            }
        }),
{
    let (position, entry) = entry_behind(s, depth, row)->0;
    lemma_selecting_a_row(s.browser, depth, position);
    let f = state::select(s.browser, depth, position);
    assert(s.requests + f.requests =~= s.requests);
    lemma_one_event(s, f);
    let v = Scene { browser: f.browser, requests: s.requests + f.requests, ..s };
    lemma_focus_is_shown(v, depth, Some(position));
    let u = show(s, f);
    lemma_cancel_rename(cancel_new_folder(u));
    reveal(cancel_rename);
    if depth == s.browser.columns.len() - 1 && is_row_of(
        s.browser.columns[depth].entries,
        entry.location,
        position,
    ) {
        lemma_rename_target(u.browser, position);
        let column = s.view.columns[depth];
        lemma_filter_positions(column.rows, column.query);
        assert(filtered_position(column.rows, column.query, position) == Some(row)) by {
            assert(source_position(column.rows, column.query, row) == Some(position));
        }
        lemma_name_is_edited(u, drawn, depth, row);
    }
}

/// What is deleted in a place of the trash is deleted for good, and what is deleted elsewhere is
/// not. The place is that of the column which has the focus, and without such a column that of the
/// last.
pub proof fn lemma_deleting_for_good(b: BrowserState, focused: Option<int>, depth: int)
    requires
        0 <= depth < b.columns.len(),
        focused == Some(depth) || (depth == b.columns.len() - 1 && (focused matches Some(at) ==> !(0
            <= at < b.columns.len()))),
    ensures
        ({
            let location = b.columns[depth].location;
            &&& location is Local ==> !deletes_for_good(b, focused)
            &&& location matches LocationView::Uri(uri) ==> deletes_for_good(b, focused) == (
            uri.len() >= 6 && uri.take(6) == seq!['t', 'r', 'a', 's', 'h', ':'])
        }),
{
    reveal_strlit("trash:");
    assert("trash:"@ =~= seq!['t', 'r', 'a', 's', 'h', ':']);
    if let LocationView::Uri(uri) = b.columns[depth].location {
        if uri.len() >= 6 {
            assert(uri.subrange(0, 6) =~= uri.take(6));
        }
    }
}

/// A gesture that has no target does nothing: on a row without an entry, in a column that is not
/// there, in a menu that was not opened, and where nothing is edited.
pub proof fn lemma_gestures_without_a_target(
    s: Scene,
    depth: int,
    row: int,
    rows: Seq<int>,
    text: Seq<char>,
    drawn: Seq<Seq<int>>,
)
    ensures
        entry_behind(s, depth, row) is None ==> {
            &&& row_entered(s, depth, row) == s
            &&& dragged(s, depth, row).len() == 0
            &&& drop_destination(s, depth, row) is None
            &&& open_menu(s, depth, row, rows) == s
        },
        !s.has_column(depth) ==> {
            &&& select_all_in(s, depth) == s
            &&& selection_changed(s, depth, rows, 0, 0) == s
            &&& row_pressed(s, depth, row, 2, false, false) == s
            &&& activate_row(s, depth, row) == s
            &&& set_query(s, depth, text) == s
            &&& filter_toggled(s, depth, true) == s && filter_toggled(s, depth, false) == s
            &&& dismiss_filter(s, Some(depth)) == s
            &&& toggle_folders_first(s, depth) == s
            &&& menu_target(s, depth) is None
            &&& menu_open(s, depth) == s && menu_preview(s, depth) == s
            &&& menu_rename(s, depth, drawn) == s
        },
        s.view.renaming is None ==> submit_rename(s, true, text) == s,
        s.view.new_folder is None ==> submit_new_folder(s, true, text) == s,
        s.browser.columns.len() == 0 ==> create_new_folder(s, None) == s,
{
}

} // verus!
