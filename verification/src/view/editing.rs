//! Names, folders and locations that are typed.
use vstd::prelude::*;
use vstd::string::*;

use super::{columns_of, scene, still, BrowserView, Effects};
use crate::event::{lemma_positions_contain, position_of, positions_of};
use crate::gestures;
use crate::labels::rename_stem_end;
use crate::model::{Location, LocationView};
use crate::names::{typed_location, LocationValidationError};
use crate::pointing::holds_position;
use crate::screen;
use crate::screen::ViewAction;
use crate::state;
use crate::text::same_text;

verus! {

/// The rows of the filtered lists that are drawn, column by column.
pub open spec fn drawn_of(drawn: Seq<Vec<usize>>) -> Seq<Seq<int>> {
    drawn.map_values(|rows: Vec<usize>| positions_of(rows@))
}

impl BrowserView {
    /// Opens a native path in place of all columns.
    pub fn navigate(&mut self, path: Vec<u8>) -> (effects: Effects)
        requires
            old(self).browser_state().next_id < u64::MAX,
        ensures
            scene(*final(self), effects) == screen::show(
                still(*old(self)),
                state::navigate(old(self).browser_state(), LocationView::Local(path@)),
            ),
    {
        let mut out = Effects::new();
        let outcome = self.browser.navigate(Location::local(path));
        self.take_outcome(outcome, &mut out);
        out
    }

    fn start_rename(&mut self, drawn: &Vec<Vec<usize>>, out: &mut Effects) -> (started: bool)
        ensures
            started == (gestures::rename_row(
                scene(*old(self), *old(out)),
                drawn_of(drawn@),
            ) is Some),
            scene(*final(self), *final(out)) == gestures::begin_rename(
                scene(*old(self), *old(out)),
                drawn_of(drawn@),
            ),
    {
        let ghost rows = drawn_of(drawn@);
        proof {
            reveal(screen::cancel_rename);
            assert(rows.len() == drawn@.len());
        }
        self.end_new_folder(out);
        match self.browser.rename_item() {
            None => false,
            Some((depth, position, entry)) => {
                self.end_rename(out);
                assert(columns_of(self.columns@).len() == self.columns@.len());
                if depth >= self.columns.len() || depth >= drawn.len() {
                    return false;
                }
                match self.columns[depth].shown(position) {
                    None => false,
                    Some(row) => {
                        let found = holds_position(&drawn[depth], row);
                        proof {
                            lemma_positions_contain(drawn@[depth as int]@, row);
                            assert(rows[depth as int] == positions_of(drawn@[depth as int]@));
                        }
                        if !found {
                            return false;
                        }
                        let name = entry.display_name.clone();
                        let selected: i32 = rename_stem_end(name.as_str());
                        self.renaming = Some(entry);
                        out.act(ViewAction::EditName { depth, row, name, selected });
                        true
                    },
                }
            },
        }
    }

    /// Lets the name of the entry be edited that a rename is for. `drawn` are the rows of the
    /// filtered lists that are drawn. Tells whether the name can be edited.
    pub fn begin_rename(&mut self, drawn: &Vec<Vec<usize>>) -> (begun: (bool, Effects))
        ensures
            begun.0 == (gestures::rename_row(still(*old(self)), drawn_of(drawn@)) is Some),
            scene(*final(self), begun.1) == gestures::begin_rename(
                still(*old(self)),
                drawn_of(drawn@),
            ),
    {
        let mut out = Effects::new();
        let started = self.start_rename(drawn, &mut out);
        (started, out)
    }

    /// Lets the name of an entry of a column be edited. Tells whether it can be edited.
    pub fn rename_at(&mut self, depth: usize, position: usize, drawn: &Vec<Vec<usize>>) -> (begun: (
        bool,
        Effects,
    ))
        ensures
            scene(*final(self), begun.1) == gestures::begin_rename(
                screen::show(
                    still(*old(self)),
                    state::select(old(self).browser_state(), depth as int, position as int),
                ),
                drawn_of(drawn@),
            ),
            begun.0 == (gestures::rename_row(
                screen::show(
                    still(*old(self)),
                    state::select(old(self).browser_state(), depth as int, position as int),
                ),
                drawn_of(drawn@),
            ) is Some),
    {
        let mut out = Effects::new();
        let outcome = self.browser.select(depth, position);
        self.take_outcome(outcome, &mut out);
        let started = self.start_rename(drawn, &mut out);
        (started, out)
    }

    /// Stops editing a name. Tells whether one was edited.
    pub fn cancel_rename(&mut self) -> (cancelled: (bool, Effects))
        ensures
            cancelled.0 == old(self)@.renaming is Some,
            scene(*final(self), cancelled.1) == screen::cancel_rename(still(*old(self))),
    {
        let mut out = Effects::new();
        let active = self.renaming.is_some();
        self.end_rename(&mut out);
        (active, out)
    }

    /// Takes over an edited name. `in_edited_field` tells whether it comes from the field in which
    /// the name is edited.
    pub fn submit_rename(&mut self, in_edited_field: bool, name: String) -> (effects: Effects)
        requires
            old(self).browser_state().next_id < u64::MAX,
        ensures
            scene(*final(self), effects) == gestures::submit_rename(
                still(*old(self)),
                in_edited_field,
                name@,
            ),
    {
        let mut out = Effects::new();
        let entry = match &self.renaming {
            Some(entry) => entry.clone(),
            None => {
                return out;
            },
        };
        if !in_edited_field {
            return out;
        }
        if same_text(name.as_str(), entry.display_name.as_str()) {
            self.end_rename(&mut out);
            self.focus_active(&mut out);
            return out;
        }
        out.act(ViewAction::LockName);
        let outcome = self.browser.rename(entry, name);
        self.take_outcome(outcome, &mut out);
        out
    }

    /// Lets a folder be named that is to be made in a place that a column shows.
    pub fn begin_new_folder(&mut self, depth: usize, location: Location) -> (effects: Effects)
        ensures
            scene(*final(self), effects) == gestures::begin_new_folder(
                still(*old(self)),
                depth as int,
                location@,
            ),
    {
        let mut out = Effects::new();
        self.end_new_folder(&mut out);
        self.end_rename(&mut out);
        if self.has_column(depth) {
            self.new_folder = Some((depth, location));
            out.act(ViewAction::EditNewFolder { depth });
        }
        out
    }

    /// Lets a folder be named in the column that has the focus, or else in the last one.
    pub fn create_new_folder(&mut self, focused: Option<usize>) -> (effects: Effects)
        ensures
            scene(*final(self), effects) == gestures::create_new_folder(
                still(*old(self)),
                position_of(focused),
            ),
    {
        let depth = match focused {
            Some(at) => Some(at),
            None => self.browser.active_depth(),
        };
        match depth {
            Some(at) => match self.browser.location_at(at) {
                Some(location) => self.begin_new_folder(at, location),
                None => Effects::new(),
            },
            None => Effects::new(),
        }
    }

    /// Gives up a folder that was to be made. Tells whether there was one.
    pub fn cancel_new_folder(&mut self) -> (cancelled: (bool, Effects))
        ensures
            cancelled.0 == old(self)@.new_folder is Some,
            scene(*final(self), cancelled.1) == screen::cancel_new_folder(still(*old(self))),
    {
        let mut out = Effects::new();
        let active = self.new_folder.is_some();
        self.end_new_folder(&mut out);
        (active, out)
    }

    /// Makes a folder with the name that was typed. `in_edited_field` tells whether the name comes
    /// from the field in which it is edited.
    pub fn submit_new_folder(&mut self, in_edited_field: bool, name: String) -> (effects: Effects)
        requires
            old(self).browser_state().next_id < u64::MAX,
        ensures
            scene(*final(self), effects) == gestures::submit_new_folder(
                still(*old(self)),
                in_edited_field,
                name@,
            ),
    {
        let mut out = Effects::new();
        if let Some((depth, location)) = self.new_folder.take() {
            if in_edited_field {
                out.act(ViewAction::EndEditNewFolder { depth });
                if name.as_str().unicode_len() > 0 {
                    let outcome = self.browser.create_directory(location, name);
                    self.take_outcome(outcome, &mut out);
                }
            }
        }
        out
    }

    /// Lets a location be typed.
    pub fn begin_location_edit(&self) -> (effects: Effects)
        ensures
            scene(*self, effects) == gestures::begin_location_edit(still(*self)),
    {
        let mut out = Effects::new();
        out.act(ViewAction::ClearLocationError);
        out.act(ViewAction::EditLocation);
        out
    }

    /// Goes back to the trail of the location.
    pub fn cancel_location_edit(&self) -> (effects: Effects)
        ensures
            scene(*self, effects) == gestures::cancel_location_edit(still(*self)),
    {
        let mut out = Effects::new();
        if let Some(location) = self.browser.active_location() {
            out.act(ViewAction::SetLocationText { text: location.display_path() });
        }
        out.act(ViewAction::ClearLocationError);
        out.act(ViewAction::ShowTrail);
        self.focus_active(&mut out);
        out
    }

    /// Takes over a typed location. Where it is one, it remains to be found out whether it can be
    /// opened.
    pub fn submit_location(&self, typed: &str) -> (submitted: (Option<Location>, Effects))
        ensures
            match submitted.0 {
                Some(location) => typed_location(typed@) == Ok::<
                    LocationView,
                    LocationValidationError,
                >(location@),
                None => typed_location(typed@) is Err,
            },
            scene(*self, submitted.1) == gestures::submit_location(still(*self), typed@),
    {
        let mut out = Effects::new();
        match self.browser.navigate_input(typed) {
            Ok(location) => (Some(location), out),
            Err(error) => {
                out.act(ViewAction::ShowLocationError { message: error.message() });
                (None, out)
            },
        }
    }

    /// Goes to a typed location once it is known whether it can be opened.
    pub fn location_checked(
        &mut self,
        location: Location,
        verdict: Result<(), LocationValidationError>,
    ) -> (effects: Effects)
        requires
            old(self).browser_state().next_id < u64::MAX,
        ensures
            scene(*final(self), effects) == gestures::location_checked(
                still(*old(self)),
                location@,
                verdict,
            ),
    {
        let mut out = Effects::new();
        match self.browser.navigate_typed(location, verdict) {
            Ok(outcome) => {
                self.take_outcome(outcome, &mut out);
                out.act(ViewAction::ClearLocationError);
            },
            Err(error) => {
                out.act(ViewAction::ShowLocationError { message: error.message() });
            },
        }
        out
    }
}

} // verus!
