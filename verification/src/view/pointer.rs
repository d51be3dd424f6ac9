//! The gestures of the pointer, and what is typed into a filter.
use vstd::prelude::*;
use vstd::string::*;

use super::{columns_of, scene, still, BrowserView, Effects};
use crate::entry::FileEntry;
use crate::event::{position_of, positions_of};
use crate::gestures;
use crate::gestures::entry_behind;
use crate::model::Location;
use crate::order::{SortDirection, SortKey};
use crate::pointing::{anchor_after, focused_row, press, press_row, RowSelection};
use crate::rows::filter_query;
use crate::screen;
use crate::screen::{ColumnScreen, ViewAction};
use crate::sort_menu::SortMenu;
use crate::state;

verus! {

impl BrowserView {
    /// Whether there is a column at `depth` on the screen.
    pub fn has_column(&self, depth: usize) -> (found: bool)
        ensures
            found == (depth < self@.columns.len()),
    {
        assert(columns_of(self.columns@).len() == self.columns@.len());
        depth < self.columns.len()
    }

    /// Selects all rows of a column.
    pub fn select_all_in(&self, depth: usize) -> (effects: Effects)
        ensures
            scene(*self, effects) == gestures::select_all_in(still(*self), depth as int),
    {
        let mut out = Effects::new();
        if self.has_column(depth) {
            out.act(ViewAction::SelectAllRows { depth });
            out.act(ViewAction::FocusColumn { depth });
        }
        out
    }

    /// Selects all rows of the last column.
    pub fn select_all(&self) -> (effects: Effects)
        ensures
            scene(*self, effects) == gestures::select_all_in(
                still(*self),
                self@.columns.len() - 1,
            ),
    {
        assert(columns_of(self.columns@).len() == self.columns@.len());
        if self.columns.len() > 0 {
            self.select_all_in(self.columns.len() - 1)
        } else {
            Effects::new()
        }
    }

    /// The row behind a row of the filtered list of a column.
    fn source_at(&self, depth: usize, row: usize) -> (position: Option<usize>)
        ensures
            position_of(position) == if depth < self@.columns.len() {
                self@.columns[depth as int].source(row as int)
            } else {
                None
            },
    {
        if self.has_column(depth) {
            self.columns[depth].source(row)
        } else {
            None
        }
    }

    /// The entry that a row of the filtered list of a column shows, with its position.
    pub(super) fn entry_behind(&self, depth: usize, row: usize) -> (found: Option<
        (usize, FileEntry),
    >)
        ensures
            match found {
                Some((position, entry)) => entry_behind(still(*self), depth as int, row as int)
                    == Some((position as int, entry@)),
                None => entry_behind(still(*self), depth as int, row as int) is None,
            },
    {
        match self.source_at(depth, row) {
            Some(position) => match self.browser.entry_at(depth, position) {
                Some(entry) => Some((position, entry)),
                None => None,
            },
            None => None,
        }
    }

    /// Takes over what is selected in the filtered list of a column, of which `count` rows from
    /// `from` on have changed.
    pub fn selection_changed(
        &mut self,
        depth: usize,
        positions: &Vec<usize>,
        from: usize,
        count: usize,
    )
        ensures
            still(*final(self)) == gestures::selection_changed(
                still(*old(self)),
                depth as int,
                positions_of(positions@),
                from as int,
                count as int,
            ),
    {
        if self.has_column(depth) {
            let ghost before = self.columns@;
            let sources = self.columns[depth].sources(positions);
            let focused = focused_row(positions, from, count, self.columns[depth].focused);
            let source = match focused {
                Some(row) => self.columns[depth].source(row),
                None => None,
            };
            self.columns[depth].focused = focused;
            proof {
                let column = ColumnScreen {
                    focused: position_of(focused),
                    ..before[depth as int]@
                };
                assert(self.columns@[depth as int]@ =~= column);
                assert(columns_of(self.columns@) =~= columns_of(before).update(
                    depth as int,
                    column,
                ));
            }
            self.browser.set_selection(depth, &sources, source);
        }
    }

    /// Puts the anchor of a column.
    fn set_anchor(&mut self, depth: usize, anchor: Option<usize>)
        ensures
            still(*final(self)) == gestures::set_anchor(still(*old(self)), depth as int, anchor),
    {
        if self.has_column(depth) {
            let ghost before = self.columns@;
            self.columns[depth].anchor = anchor;
            proof {
                let column = ColumnScreen { anchor, ..before[depth as int]@ };
                assert(self.columns@[depth as int]@ =~= column);
                assert(columns_of(self.columns@) =~= columns_of(before).update(
                    depth as int,
                    column,
                ));
            }
        }
    }

    /// What pressing on a row of the filtered list does to the selection. `selected` tells whether
    /// the row is selected.
    pub fn press(
        &mut self,
        depth: usize,
        row: usize,
        control: bool,
        shift: bool,
        selected: bool,
    ) -> (change: RowSelection)
        requires
            depth < old(self)@.columns.len(),
            row < usize::MAX,
            old(self)@.columns[depth as int].anchor matches Some(at) ==> at < usize::MAX,
        ensures
            change == press(
                old(self)@.columns[depth as int].anchor,
                row,
                control,
                shift,
                selected,
            ),
            still(*final(self)) == gestures::set_anchor(
                still(*old(self)),
                depth as int,
                anchor_after(old(self)@.columns[depth as int].anchor, row, shift),
            ),
    {
        assert(columns_of(self.columns@).len() == self.columns@.len());
        let anchor = self.columns[depth].anchor;
        let change = press_row(anchor, row, control, shift, selected);
        let next = if shift {
            anchor
        } else {
            Some(row)
        };
        self.set_anchor(depth, next);
        change
    }

    /// Forgets the row from which a range is selected.
    pub fn background_pressed(&mut self, depth: usize)
        ensures
            still(*final(self)) == gestures::set_anchor(still(*old(self)), depth as int, None),
    {
        self.set_anchor(depth, None);
    }

    /// Goes on after a row was pressed, once or twice.
    pub fn row_pressed(
        &mut self,
        depth: usize,
        row: usize,
        presses: u32,
        control: bool,
        shift: bool,
    ) -> (effects: Effects)
        ensures
            scene(*final(self), effects) == gestures::row_pressed(
                still(*old(self)),
                depth as int,
                row as int,
                presses as int,
                control,
                shift,
            ),
    {
        let mut out = Effects::new();
        if let Some(position) = self.source_at(depth, row) {
            if presses == 2 {
                let outcome = self.browser.activate(depth, position);
                self.take_outcome(outcome, &mut out);
            } else if !control && !shift {
                let outcome = self.browser.preview(depth, position);
                self.take_outcome(outcome, &mut out);
            }
        }
        out
    }

    /// Opens the entry of a row.
    pub fn activate_row(&mut self, depth: usize, row: usize) -> (effects: Effects)
        ensures
            scene(*final(self), effects) == gestures::activate_row(
                still(*old(self)),
                depth as int,
                row as int,
            ),
    {
        let mut out = Effects::new();
        if let Some(position) = self.source_at(depth, row) {
            let outcome = self.browser.activate(depth, position);
            self.take_outcome(outcome, &mut out);
        }
        out
    }

    /// Filters a column by another text.
    pub fn set_query(&mut self, depth: usize, typed: &str)
        ensures
            still(*final(self)) == gestures::set_query(still(*old(self)), depth as int, typed@),
    {
        if self.has_column(depth) {
            let ghost before = self.columns@;
            let query = filter_query(typed);
            self.columns[depth].query = query;
            proof {
                let column = ColumnScreen { query: query@, ..before[depth as int]@ };
                assert(self.columns@[depth as int]@ =~= column);
                assert(columns_of(self.columns@) =~= columns_of(before).update(
                    depth as int,
                    column,
                ));
            }
        }
    }

    /// Whether the filter of a column shows a row.
    pub fn shows_row(&self, depth: usize, row: &str) -> (shown: bool)
        requires
            depth < self@.columns.len(),
        ensures
            shown == crate::rows::row_shown(row@, self@.columns[depth as int].query),
    {
        assert(columns_of(self.columns@).len() == self.columns@.len());
        crate::rows::row_is_shown(row, self.columns[depth].query.as_str())
    }

    /// Reveals the filter of a column, or takes it away.
    pub fn filter_toggled(&mut self, depth: usize, active: bool) -> (effects: Effects)
        ensures
            scene(*final(self), effects) == gestures::filter_toggled(
                still(*old(self)),
                depth as int,
                active,
            ),
    {
        let mut out = Effects::new();
        self.toggle_filter(depth, active, &mut out);
        out
    }

    fn toggle_filter(&mut self, depth: usize, active: bool, out: &mut Effects)
        ensures
            scene(*final(self), *final(out)) == gestures::filter_toggled(
                scene(*old(self), *old(out)),
                depth as int,
                active,
            ),
    {
        if self.has_column(depth) {
            if active {
                out.act(ViewAction::ShowFilter { depth });
            } else {
                let ghost before = self.columns@;
                self.columns[depth].query = String::new();
                proof {
                    let column = ColumnScreen { query: Seq::empty(), ..before[depth as int]@ };
                    assert(self.columns@[depth as int]@ =~= column);
                    assert(columns_of(self.columns@) =~= columns_of(before).update(
                        depth as int,
                        column,
                    ));
                }
                out.act(ViewAction::HideFilter { depth });
            }
        }
    }

    /// Takes the filter away that has the focus. Tells whether there is one.
    pub fn dismiss_focused_filter(&mut self, focused: Option<usize>) -> (dismissed: (bool, Effects))
        ensures
            dismissed.0 == (focused matches Some(depth) && depth < old(self)@.columns.len()),
            scene(*final(self), dismissed.1) == gestures::dismiss_filter(
                still(*old(self)),
                position_of(focused),
            ),
    {
        let mut out = Effects::new();
        if let Some(depth) = focused {
            if self.has_column(depth) {
                self.toggle_filter(depth, false, &mut out);
                out.act(ViewAction::FocusColumn { depth });
                return (true, out);
            }
        }
        (false, out)
    }

    /// Sorts a column by another key.
    pub fn choose_sort_key(&mut self, depth: usize, key: SortKey) -> (effects: Effects)
        ensures
            scene(*final(self), effects) == gestures::choose_sort_key(
                still(*old(self)),
                depth as int,
                key,
            ),
    {
        let mut out = Effects::new();
        if self.has_column(depth) {
            let menu = self.sort_menu(depth);
            self.mark_sort(depth, SortMenu { chosen: key, ..menu }, &mut out);
        }
        let outcome = self.browser.set_sort_key(depth, key);
        self.take_outcome(outcome, &mut out);
        out
    }

    fn sort_menu(&self, depth: usize) -> (menu: SortMenu)
        requires
            depth < self@.columns.len(),
        ensures
            menu == self@.columns[depth as int].sort_menu,
    {
        assert(columns_of(self.columns@).len() == self.columns@.len());
        self.columns[depth].sort_menu
    }

    /// Marks in the menu of a column what has been chosen there.
    fn mark_sort(&mut self, depth: usize, menu: SortMenu, out: &mut Effects)
        requires
            depth < old(self)@.columns.len(),
        ensures
            scene(*final(self), *final(out)) == gestures::mark_sort(
                scene(*old(self), *old(out)),
                depth as int,
                menu,
            ),
    {
        let ghost before = self.columns@;
        assert(columns_of(before).len() == before.len());
        self.columns[depth].sort_menu = menu;
        proof {
            let column = ColumnScreen { sort_menu: menu, ..before[depth as int]@ };
            assert(self.columns@[depth as int]@ =~= column);
            assert(columns_of(self.columns@) =~= columns_of(before).update(depth as int, column));
        }
        out.act(ViewAction::MarkSort { depth, marks: menu.marks() });
    }

    /// Sorts a column in the one direction or in the other.
    pub fn choose_sort_direction(&mut self, depth: usize, descending: bool) -> (effects: Effects)
        ensures
            scene(*final(self), effects) == screen::show(
                still(*old(self)),
                state::set_sort_direction(
                    old(self).browser_state(),
                    depth as int,
                    if descending {
                        SortDirection::Descending
                    } else {
                        SortDirection::Ascending
                    },
                ),
            ),
    {
        let mut out = Effects::new();
        let direction = if descending {
            SortDirection::Descending
        } else {
            SortDirection::Ascending
        };
        let outcome = self.browser.set_sort_direction(depth, direction);
        self.take_outcome(outcome, &mut out);
        out
    }

    /// Turns over whether folders stand first in a column.
    pub fn toggle_folders_first(&mut self, depth: usize) -> (effects: Effects)
        ensures
            scene(*final(self), effects) == gestures::toggle_folders_first(
                still(*old(self)),
                depth as int,
            ),
    {
        let mut out = Effects::new();
        if self.has_column(depth) {
            let menu = self.sort_menu(depth);
            let folders_first = !menu.folders_first;
            self.mark_sort(depth, SortMenu { folders_first, ..menu }, &mut out);
            let outcome = self.browser.set_folders_first(depth, folders_first);
            self.take_outcome(outcome, &mut out);
        }
        out
    }

    /// Prepares a peek.
    fn schedule_peek(&mut self, origin: usize, location: Location, out: &mut Effects)
        ensures
            scene(*final(self), *final(out)) == gestures::schedule_peek(
                scene(*old(self), *old(out)),
                origin as int,
                location@,
            ),
    {
        if !self.peek_enabled {
            return;
        }
        self.stop_peek_timer(out);
        self.stop_close_timer(out);
        let open = match &self.peek {
            Some(peek) => peek.location.same(&location),
            None => false,
        };
        if open {
            return;
        }
        self.anchored = true;
        self.pending_peek = Some((origin, location));
        out.act(ViewAction::StartPeekTimer { delay: self.behavior.open_delay });
    }

    /// The pointer has come to a row.
    pub fn row_entered(&mut self, depth: usize, row: usize) -> (effects: Effects)
        ensures
            scene(*final(self), effects) == gestures::row_entered(
                still(*old(self)),
                depth as int,
                row as int,
            ),
    {
        let mut out = Effects::new();
        if let Some((_, entry)) = self.entry_behind(depth, row) {
            if entry.is_directory() {
                self.schedule_peek(depth, entry.location, &mut out);
            } else {
                self.stop_peek_timer(&mut out);
                self.end_peek(&mut out);
            }
        }
        out
    }

    /// The pointer has left a row, or the peek: the peek closes once it has been away long enough.
    pub fn pointer_left(&mut self) -> (effects: Effects)
        ensures
            scene(*final(self), effects) == gestures::schedule_close_peek(still(*old(self))),
    {
        let mut out = Effects::new();
        self.stop_peek_timer(&mut out);
        self.stop_close_timer(&mut out);
        self.pending_close = true;
        out.act(ViewAction::StartCloseTimer { delay: self.behavior.close_delay });
        out
    }

    /// The pointer has come to the peek, which stays.
    pub fn peek_entered(&mut self) -> (effects: Effects)
        ensures
            scene(*final(self), effects) == screen::stop_close_timer(still(*old(self))),
    {
        let mut out = Effects::new();
        self.stop_close_timer(&mut out);
        out
    }

    /// The pointer has rested long enough.
    pub fn peek_due(&mut self) -> (effects: Effects)
        requires
            old(self).browser_state().next_id < u64::MAX,
        ensures
            scene(*final(self), effects) == gestures::peek_due(still(*old(self))),
    {
        let mut out = Effects::new();
        if let Some((origin, location)) = self.pending_peek.take() {
            let outcome = self.browser.begin_peek(origin, location);
            self.take_outcome(outcome, &mut out);
        }
        out
    }

    /// The pointer has been away long enough.
    pub fn close_due(&mut self) -> (effects: Effects)
        ensures
            scene(*final(self), effects) == gestures::close_due(still(*old(self))),
    {
        let mut out = Effects::new();
        self.pending_close = false;
        self.end_peek(&mut out);
        out
    }

    /// Has peeks open, or keeps them from opening.
    pub fn set_peek_enabled(&mut self, enabled: bool) -> (effects: Effects)
        ensures
            scene(*final(self), effects) == gestures::set_peek_enabled(still(*old(self)), enabled),
    {
        let mut out = Effects::new();
        self.peek_enabled = enabled;
        if !enabled {
            self.stop_peek_timer(&mut out);
            self.end_peek(&mut out);
        }
        out
    }
}

} // verus!
