//! What holds of the menu by which a column is sorted, however often it is used.
use vstd::prelude::*;

use super::{lemma_refresh, lemma_selection_shown};
use crate::event::EventView;
use crate::gestures::{choose_sort_key, mark_sort, toggle_folders_first};
use crate::order::SortKey;
use crate::screen::{entries_replaced, handle, handle_all, handled, show, Scene};
use crate::sort_menu::{fields, fresh_menu, lemma_one_field_is_marked, marks_of, SortMenu};
use crate::state;

verus! {

/// What can be clicked on in the menu.
pub enum SortClick {
    Field { key: SortKey },
    FoldersFirst,
}

/// What a click does.
pub open spec fn clicked(s: Scene, depth: int, click: SortClick) -> Scene {
    match click {
        SortClick::Field { key } => choose_sort_key(s, depth, key),
        SortClick::FoldersFirst => toggle_folders_first(s, depth),
    }
}

/// What clicks do, one after the other.
pub open spec fn clicked_all(s: Scene, depth: int, clicks: Seq<SortClick>) -> Scene
    decreases clicks.len(),
{
    if clicks.len() == 0 {
        s
    } else {
        clicked(clicked_all(s, depth, clicks.drop_last()), depth, clicks.last())
    }
}

/// The field that was clicked on last. Before that, it is the name.
pub open spec fn last_field(clicks: Seq<SortClick>) -> SortKey
    decreases clicks.len(),
{
    if clicks.len() == 0 {
        SortKey::Name
    } else {
        match clicks.last() {
            SortClick::Field { key } => key,
            SortClick::FoldersFirst => last_field(clicks.drop_last()),
        }
    }
}

/// How often folders were turned over.
pub open spec fn turns(clicks: Seq<SortClick>) -> nat
    decreases clicks.len(),
{
    if clicks.len() == 0 {
        0
    } else if clicks.last() is FoldersFirst {
        turns(clicks.drop_last()) + 1
    } else {
        turns(clicks.drop_last())
    }
}

/// Whether the columns are the same but for what they show.
spec fn keeps_menus(s: Scene, t: Scene) -> bool {
    &&& t.view.columns.len() == s.view.columns.len()
    &&& forall|d: int|
        0 <= d < s.view.columns.len() ==> (#[trigger] t.view.columns[d]).sort_menu
            == s.view.columns[d].sort_menu
}

proof fn lemma_event_keeps_menus(s: Scene, event: EventView)
    requires
        event is EntriesReplaced || event is SelectionSetChanged,
    ensures
        keeps_menus(s, handle(s, event)),
{
    match event {
        EventView::EntriesReplaced { depth, entries } => {
            if s.has_column(depth) {
                reveal(entries_replaced);
            }
        },
        EventView::SelectionSetChanged { depth, positions, focused } => {
            lemma_selection_shown(s, depth, positions, focused);
        },
        _ => {},
    }
    lemma_refresh(handled(s, event));
}

proof fn lemma_events_keep_menus(s: Scene, events: Seq<EventView>)
    requires
        forall|i: int|
            0 <= i < events.len() ==> (#[trigger] events[i]) is EntriesReplaced
                || events[i] is SelectionSetChanged,
    ensures
        keeps_menus(s, handle_all(s, events)),
    decreases events.len(),
{
    if events.len() > 0 {
        lemma_event_keeps_menus(s, events[0]);
        lemma_events_keep_menus(handle(s, events[0]), events.drop_first());
    }
}

proof fn lemma_sorting_keeps_menus(s: Scene, depth: int, key: SortKey, folders_first: bool)
    ensures
        keeps_menus(s, show(s, state::set_sort_key(s.browser, depth, key))),
        keeps_menus(s, show(s, state::set_folders_first(s.browser, depth, folders_first))),
{
    let f = state::set_sort_key(s.browser, depth, key);
    let g = state::set_folders_first(s.browser, depth, folders_first);
    lemma_events_keep_menus(
        Scene { browser: f.browser, requests: s.requests + f.requests, ..s },
        f.events,
    );
    lemma_events_keep_menus(
        Scene { browser: g.browser, requests: s.requests + g.requests, ..s },
        g.events,
    );
}

proof fn lemma_click(s: Scene, depth: int, click: SortClick)
    requires
        s.has_column(depth),
    ensures
        clicked(s, depth, click).has_column(depth),
        clicked(s, depth, click).view.columns[depth].sort_menu == match click {
            SortClick::Field { key } => SortMenu { chosen: key, ..s.view.columns[depth].sort_menu },
            SortClick::FoldersFirst => SortMenu {
                folders_first: !s.view.columns[depth].sort_menu.folders_first,
                ..s.view.columns[depth].sort_menu
            },
        },
{
    let menu = s.view.columns[depth].sort_menu;
    match click {
        SortClick::Field { key } => {
            let t = mark_sort(s, depth, SortMenu { chosen: key, ..menu });
            lemma_sorting_keeps_menus(t, depth, key, true);
        },
        SortClick::FoldersFirst => {
            let folders_first = !menu.folders_first;
            let t = mark_sort(s, depth, SortMenu { folders_first, ..menu });
            lemma_sorting_keeps_menus(t, depth, SortKey::Name, folders_first);
        },
    }
}

/// Whatever is clicked on, exactly one field is marked: the one that was clicked on last, or the
/// name before any was. Folders are marked to stand first after an even number of clicks on that.
pub proof fn lemma_marks_after_clicks(s: Scene, depth: int, clicks: Seq<SortClick>)
    requires
        s.has_column(depth),
        s.view.columns[depth].sort_menu == fresh_menu(),
    ensures
        ({
            let t = clicked_all(s, depth, clicks);
            let menu = t.view.columns[depth].sort_menu;
            let marks = marks_of(menu);
            &&& t.has_column(depth)
            &&& menu.chosen == last_field(clicks)
            &&& forall|k: int|
                0 <= k < fields().len() ==> #[trigger] marks.marks(fields()[k]) == (fields()[k]
                    == last_field(clicks))
            &&& exists|k: int| 0 <= k < fields().len() && #[trigger] marks.marks(fields()[k])
            &&& forall|k: int, l: int|
                0 <= k < fields().len() && 0 <= l < fields().len() && marks.marks(
                    #[trigger] fields()[k],
                ) && marks.marks(#[trigger] fields()[l]) ==> k == l
            &&& marks.folders_first == (turns(clicks) % 2 == 0)
        }),
    decreases clicks.len(),
{
    if clicks.len() > 0 {
        let before = clicks.drop_last();
        lemma_marks_after_clicks(s, depth, before);
        lemma_click(clicked_all(s, depth, before), depth, clicks.last());
    }
    lemma_one_field_is_marked(clicked_all(s, depth, clicks).view.columns[depth].sort_menu);
}

/// What a click asks of the browser: a click on a field has the column sorted by it, and the clicks
/// on folders first have folders stand among the files and first by turns.
pub proof fn lemma_clicks_ask_the_browser(s: Scene, depth: int, clicks: Seq<SortClick>, key: SortKey)
    requires
        s.has_column(depth),
        s.view.columns[depth].sort_menu == fresh_menu(),
    ensures
        ({
            let t = clicked_all(s, depth, clicks);
            let menu = t.view.columns[depth].sort_menu;
            let folders_first = (turns(clicks) + 1) % 2 == 0;
            &&& clicked(t, depth, SortClick::Field { key }) == show(
                mark_sort(t, depth, SortMenu { chosen: key, ..menu }),
                state::set_sort_key(t.browser, depth, key),
            )
            &&& clicked(t, depth, SortClick::FoldersFirst) == show(
                mark_sort(t, depth, SortMenu { folders_first, ..menu }),
                state::set_folders_first(t.browser, depth, folders_first),
            )
        }),
{
    lemma_marks_after_clicks(s, depth, clicks);
}

} // verus!
