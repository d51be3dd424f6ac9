//! The browser: columns, history, peeks and operations.
use vstd::prelude::*;

use crate::entry::{copy_entries, entries_of, FileEntry, FileEntryView};
use crate::event::{
    events_of, position_of, positions_of, requests_of, splices_of, BrowserEvent,
    CreateDirectoryRequest, DeleteRequest, DirectoryChange, DirectoryEvent, DirectoryRequest,
    EmptyTrashRequest, OperationEvent, PasteRequest, RenameRequest, ServiceRequest, Splice,
    SpliceView,
};
use crate::model::{locations_of, Location, LocationView};
use crate::names::{parse_location, typed_location, validate_rename, LocationValidationError};
use crate::order::{SortDirection, SortKey, SortPreference};
use crate::sorting::{merge_batch, order_of_entries, sort_entries};
use crate::state;
use crate::state::{BrowserState, Change, ChangeView, ColumnState, Flow, PeekState};

verus! {

/// A directory that is shown in a column.
#[derive(Debug)]
struct Column {
    location: Location,
    entries: Vec<FileEntry>,
    sort: SortPreference,
    selected: Vec<Location>,
    focused: Option<Location>,
    id: u64,
    loading: bool,
}

/// A directory that is looked into without being opened.
#[derive(Debug)]
struct Peek {
    origin: usize,
    location: Location,
    id: u64,
    loading: bool,
}

/// The state of the browser. Commands change it and yield an [`Outcome`].
#[derive(Debug)]
pub struct Browser {
    columns: Vec<Column>,
    history: Vec<Vec<Location>>,
    peek: Option<Peek>,
    include_hidden: bool,
    next_id: u64,
    renaming: Option<u64>,
}

/// What a command leads to: the events to tell, and the requests to make, each in order.
#[derive(Debug)]
pub struct Outcome {
    pub events: Vec<BrowserEvent>,
    pub requests: Vec<ServiceRequest>,
}

spec fn place_of(place: Option<Location>) -> Option<LocationView> {
    match place {
        Some(location) => Some(location@),
        None => None,
    }
}

spec fn id_of(id: Option<u64>) -> Option<int> {
    match id {
        Some(number) => Some(number as int),
        None => None,
    }
}

impl View for Column {
    type V = ColumnState;

    closed spec fn view(&self) -> ColumnState {
        ColumnState {
            location: self.location@,
            entries: entries_of(self.entries@),
            sort: self.sort,
            selected: locations_of(self.selected@),
            focused: place_of(self.focused),
            id: self.id as int,
            loading: self.loading,
        }
    }
}

spec fn columns_of(columns: Seq<Column>) -> Seq<ColumnState> {
    columns.map_values(|column: Column| column@)
}

spec fn history_of(history: Seq<Vec<Location>>) -> Seq<Seq<LocationView>> {
    history.map_values(|places: Vec<Location>| locations_of(places@))
}

spec fn peek_of(peek: Option<Peek>) -> Option<PeekState> {
    match peek {
        Some(p) => Some(
            PeekState {
                origin: p.origin as int,
                location: p.location@,
                id: p.id as int,
                loading: p.loading,
            },
        ),
        None => None,
    }
}

impl View for Browser {
    type V = BrowserState;

    closed spec fn view(&self) -> BrowserState {
        BrowserState {
            columns: columns_of(self.columns@),
            history: history_of(self.history@),
            peek: peek_of(self.peek),
            include_hidden: self.include_hidden,
            next_id: self.next_id as int,
            renaming: id_of(self.renaming),
        }
    }
}

/// The state and the outcome in one.
pub open spec fn flow(browser: BrowserState, outcome: Outcome) -> Flow {
    Flow {
        browser,
        events: events_of(outcome.events@),
        requests: requests_of(outcome.requests@),
    }
}

impl Outcome {
    /// Nothing to tell, nothing to ask.
    pub fn new() -> (outcome: Self)
        ensures
            outcome.events@.len() == 0,
            outcome.requests@.len() == 0,
    {
        Outcome { events: Vec::new(), requests: Vec::new() }
    }

    fn tell(&mut self, event: BrowserEvent)
        ensures
            forall|b: BrowserState| #[trigger]
                flow(b, *final(self)) == flow(b, *old(self)).tell(event@),
    {
        self.events.push(event);
        assert(events_of(self.events@) =~= events_of(old(self).events@).push(event@));
    }

    fn ask(&mut self, request: ServiceRequest)
        ensures
            forall|b: BrowserState| #[trigger]
                flow(b, *final(self)) == flow(b, *old(self)).ask(request@),
    {
        self.requests.push(request);
        assert(requests_of(self.requests@) =~= requests_of(old(self).requests@).push(request@));
    }
}

/// The position of the entry that stands for a place.
fn find_place(entries: &Vec<FileEntry>, place: &Location) -> (position: Option<usize>)
    ensures
        position_of(position) == state::entry_position(entries_of(entries@), place@),
        position matches Some(at) ==> at < entries@.len(),
{
    let ghost views = entries_of(entries@);
    let mut i: usize = 0;
    while i < entries.len()
        invariant
            views == entries_of(entries@),
            i <= entries@.len(),
            state::entry_position(views, place@) == state::position_from(
                views,
                place@.key(),
                i as int,
            ),
        decreases entries@.len() - i,
    {
        if entries[i].location.same(place) {
            return Some(i);
        }
        i += 1;
    }
    None
}

/// Whether a place is among the places.
fn is_among(places: &Vec<Location>, place: &Location) -> (found: bool)
    ensures
        found == state::among(locations_of(places@), place@.key()),
{
    let ghost views = locations_of(places@);
    let mut i: usize = 0;
    while i < places.len()
        invariant
            views == locations_of(places@),
            i <= places@.len(),
            forall|k: int| 0 <= k < i ==> (#[trigger] views[k]).key() != place@.key(),
        decreases places@.len() - i,
    {
        if places[i].same(place) {
            assert(views[i as int].key() == place@.key());
            return true;
        }
        i += 1;
    }
    false
}

impl Column {
    /// The positions that are selected, in order.
    fn selected_positions(&self) -> (positions: Vec<usize>)
        ensures
            positions_of(positions@) == self@.selected_positions(),
            forall|k: int| 0 <= k < positions@.len() ==> #[trigger] positions@[k] < self.entries@.len(),
    {
        let mut positions: Vec<usize> = Vec::new();
        let mut i: usize = 0;
        proof {
            assert(positions_of(positions@) =~= Seq::empty());
        }
        while i < self.entries.len()
            invariant
                i <= self.entries@.len(),
                positions_of(positions@) == state::selected_below(
                    self@.entries,
                    self@.selected,
                    i as int,
                ),
                forall|k: int| 0 <= k < positions@.len() ==> #[trigger] positions@[k] < i,
            decreases self.entries@.len() - i,
        {
            let ghost before = positions@;
            let chosen = is_among(&self.selected, &self.entries[i].location);
            proof {
                assert(self@.entries[i as int].location == self.entries@[i as int].location@);
            }
            if chosen {
                positions.push(i);
                assert(positions_of(positions@) =~= positions_of(before).push(i as int));
            }
            i += 1;
        }
        positions
    }

    /// The position that has the focus.
    fn focused_position(&self) -> (position: Option<usize>)
        ensures
            position_of(position) == self@.focused_position(),
            position matches Some(at) ==> at < self.entries@.len(),
    {
        match &self.focused {
            Some(place) => find_place(&self.entries, place),
            None => None,
        }
    }
}

/// A column on the way through a change, with the splices told so far.
spec fn change_of(column: Column, splices: Vec<Splice>) -> Change {
    Change { column: column@, splices: splices_of(splices@) }
}

/// What a watched directory went through.
pub open spec fn change_view(change: DirectoryChange) -> ChangeView {
    match change {
        DirectoryChange::Upsert(entry) => ChangeView::Upsert(entry@),
        DirectoryChange::Removed(from) => ChangeView::Removed(from@),
        DirectoryChange::Moved { from, entry } => ChangeView::Moved { from: from@, entry: entry@ },
        DirectoryChange::Rescan => ChangeView::Rescan,
    }
}

proof fn lemma_splices_push(splices: Seq<Splice>, splice: Splice)
    ensures
        splices_of(splices.push(splice)) == splices_of(splices).push(splice@),
{
    assert(splices_of(splices.push(splice)) =~= splices_of(splices).push(splice@));
}

proof fn lemma_place(sort: SortPreference, entries: Seq<FileEntryView>, entry: FileEntryView)
    ensures
        0 <= state::place(sort, entries, entry) <= entries.len(),
    decreases entries.len(),
{
    if entries.len() > 0 {
        lemma_place(sort, entries.drop_first(), entry);
    }
}

/// Where an entry comes into a sorted column.
fn place_for(sort: SortPreference, entries: &Vec<FileEntry>, entry: &FileEntry) -> (position: usize)
    ensures
        position == state::place(sort, entries_of(entries@), entry@),
        position <= entries@.len(),
{
    let ghost views = entries_of(entries@);
    let mut i: usize = 0;
    proof {
        assert(views.skip(0) =~= views);
    }
    while i < entries.len()
        invariant
            views == entries_of(entries@),
            i <= entries@.len(),
            state::place(sort, views, entry@) == i + state::place(
                sort,
                views.skip(i as int),
                entry@,
            ),
        decreases entries@.len() - i,
    {
        proof {
            assert(views.skip(i as int)[0] == entries@[i as int]@);
            assert(views.skip(i as int).drop_first() =~= views.skip(i + 1));
        }
        if order_of_entries(sort, entry, &entries[i]) < 0 {
            return i;
        }
        i += 1;
    }
    i
}

/// The places without one of them.
fn places_without(places: &Vec<Location>, gone: &Location) -> (kept: Vec<Location>)
    ensures
        locations_of(kept@) == state::without(locations_of(places@), gone@.key()),
{
    let ghost views = locations_of(places@);
    let mut kept: Vec<Location> = Vec::new();
    let mut i: usize = 0;
    proof {
        assert(locations_of(kept@) =~= Seq::empty());
    }
    while i < places.len()
        invariant
            views == locations_of(places@),
            i <= places@.len(),
            locations_of(kept@) == state::without(views.take(i as int), gone@.key()),
        decreases places@.len() - i,
    {
        let ghost before = kept@;
        if !places[i].same(gone) {
            kept.push(places[i].clone());
            assert(locations_of(kept@) =~= locations_of(before).push(places@[i as int]@));
        }
        i += 1;
        proof {
            assert(views.take(i as int).drop_last() =~= views.take(i - 1));
            assert(views.take(i as int).last() == places@[i - 1]@);
        }
    }
    proof {
        assert(views.take(i as int) =~= views);
    }
    kept
}

/// The places with `to` wherever `from` was.
fn places_followed(places: &Vec<Location>, from: &Location, to: &Location) -> (result: Vec<Location>)
    ensures
        locations_of(result@) == state::followed(locations_of(places@), from@.key(), to@),
{
    let mut result: Vec<Location> = Vec::new();
    let mut i: usize = 0;
    while i < places.len()
        invariant
            i <= places@.len(),
            result@.len() == i,
            forall|k: int|
                0 <= k < i ==> (#[trigger] result@[k])@ == (if places@[k]@.key() == from@.key() {
                    to@
                } else {
                    places@[k]@
                }),
        decreases places@.len() - i,
    {
        if places[i].same(from) {
            result.push(to.clone());
        } else {
            result.push(places[i].clone());
        }
        i += 1;
    }
    proof {
        assert(locations_of(result@) =~= state::followed(
            locations_of(places@),
            from@.key(),
            to@,
        ));
    }
    result
}

impl Column {
    /// Takes the entry at `position` out.
    fn take_out(&mut self, position: usize, splices: &mut Vec<Splice>)
        requires
            position < old(self)@.entries.len(),
        ensures
            change_of(*final(self), *final(splices)) == state::take_out(
                change_of(*old(self), *old(splices)),
                position as int,
            ),
    {
        let ghost before = self@;
        let ghost told = splices@;
        let _gone = self.entries.remove(position);
        proof {
            assert(entries_of(self.entries@) =~= before.entries.remove(position as int));
            assert(self@ =~= ColumnState { entries: before.entries.remove(position as int), ..before });
        }
        splices.push(Splice { position, removed: 1, entries: Vec::new() });
        proof {
            lemma_splices_push(told, splices@.last());
            assert(splices@.last()@ =~= SpliceView {
                position: position as int,
                removed: 1,
                entries: Seq::empty(),
            });
        }
    }

    /// Puts an entry where it belongs.
    fn put_in(&mut self, entry: FileEntry, splices: &mut Vec<Splice>)
        ensures
            change_of(*final(self), *final(splices)) == state::put_in(
                change_of(*old(self), *old(splices)),
                entry@,
            ),
    {
        let ghost before = self@;
        let ghost told = splices@;
        let position: usize = place_for(self.sort, &self.entries, &entry);
        let mut run: Vec<FileEntry> = Vec::new();
        run.push(entry.clone());
        self.entries.insert(position, entry);
        proof {
            assert(entries_of(self.entries@) =~= before.entries.insert(position as int, entry@));
            assert(self@ =~= ColumnState {
                entries: before.entries.insert(position as int, entry@),
                ..before
            });
        }
        splices.push(Splice { position, removed: 0, entries: run });
        proof {
            lemma_splices_push(told, splices@.last());
            assert(splices@.last()@ =~= SpliceView {
                position: position as int,
                removed: 0,
                entries: seq![entry@],
            });
        }
    }

    /// Puts an entry in the stead of the one at `position`.
    fn put_instead(&mut self, position: usize, entry: FileEntry, splices: &mut Vec<Splice>)
        requires
            position < old(self)@.entries.len(),
        ensures
            change_of(*final(self), *final(splices)) == state::put_instead(
                change_of(*old(self), *old(splices)),
                position as int,
                entry@,
            ),
    {
        let ghost before = self@;
        let ghost told = splices@;
        let _gone = self.entries.remove(position);
        proof {
            assert(entries_of(self.entries@) =~= before.entries.remove(position as int));
        }
        let at: usize = place_for(self.sort, &self.entries, &entry);
        let mut run: Vec<FileEntry> = Vec::new();
        run.push(entry.clone());
        self.entries.insert(at, entry);
        proof {
            assert(entries_of(run@) =~= seq![entry@]);
            assert(entries_of(self.entries@) =~= before.entries.remove(position as int).insert(
                at as int,
                entry@,
            ));
        }
        if at == position {
            splices.push(Splice { position, removed: 1, entries: run });
            proof {
                lemma_splices_push(told, splices@.last());
                assert(self@.entries =~= before.entries.update(position as int, entry@));
                assert(self@ =~= ColumnState {
                    entries: before.entries.update(position as int, entry@),
                    ..before
                });
            }
        } else {
            splices.push(Splice { position, removed: 1, entries: Vec::new() });
            let ghost one = splices@;
            proof {
                lemma_splices_push(told, splices@.last());
                assert(entries_of(splices@.last().entries@) =~= Seq::empty());
            }
            splices.push(Splice { position: at, removed: 0, entries: run });
            proof {
                lemma_splices_push(one, splices@.last());
                assert(change_of(*self, *splices) =~= state::put_in(
                    state::take_out(
                        Change { column: before, splices: splices_of(told) },
                        position as int,
                    ),
                    entry@,
                ));
            }
        }
    }

    /// Adds an entry, or replaces the one that stands for the same place.
    fn upsert(&mut self, entry: FileEntry, splices: &mut Vec<Splice>)
        ensures
            change_of(*final(self), *final(splices)) == state::upsert(
                change_of(*old(self), *old(splices)),
                entry@,
            ),
    {
        match find_place(&self.entries, &entry.location) {
            Some(position) => self.put_instead(position, entry, splices),
            None => self.put_in(entry, splices),
        }
    }

    /// Removes the entry that stands for a place, and the place from the selection.
    fn remove_entry(&mut self, from: &Location, splices: &mut Vec<Splice>)
        ensures
            change_of(*final(self), *final(splices)) == state::remove_entry(
                change_of(*old(self), *old(splices)),
                from@,
            ),
    {
        if let Some(position) = find_place(&self.entries, from) {
            self.take_out(position, splices);
            let ghost out = self@;
            self.selected = places_without(&self.selected, from);
            let lost = match &self.focused {
                Some(place) => place.same(from),
                None => false,
            };
            if lost {
                self.focused = None;
            }
            proof {
                assert(self@ =~= ColumnState {
                    selected: state::without(out.selected, from@.key()),
                    focused: state::focus_without(out.focused, from@.key()),
                    ..out
                });
            }
        }
    }

    /// Replaces the entry that stands for `from` by `entry`. The selection follows.
    fn move_entry(&mut self, from: &Location, entry: FileEntry, splices: &mut Vec<Splice>)
        ensures
            change_of(*final(self), *final(splices)) == state::move_entry(
                change_of(*old(self), *old(splices)),
                from@,
                entry@,
            ),
    {
        if let Some(position) = find_place(&self.entries, from) {
            self.take_out(position, splices);
            let ghost out = self@;
            self.selected = places_followed(&self.selected, from, &entry.location);
            let follows = match &self.focused {
                Some(place) => place.same(from),
                None => false,
            };
            if follows {
                self.focused = Some(entry.location.clone());
            }
            proof {
                assert(self@ =~= ColumnState {
                    selected: state::followed(out.selected, from@.key(), entry.location@),
                    focused: state::focus_followed(out.focused, from@.key(), entry.location@),
                    ..out
                });
            }
        }
        self.upsert(entry, splices);
    }
}

impl Browser {
    /// Whether this many requests can still be numbered.
    pub open spec fn can_number(&self, count: int) -> bool {
        self@.next_id + count <= u64::MAX
    }

    /// How many requests can still be numbered.
    pub fn numbers_left(&self) -> (left: u64)
        ensures
            left == u64::MAX - self@.next_id,
    {
        u64::MAX - self.next_id
    }

    /// How many columns there are to go back to.
    pub fn remembered_columns(&self) -> (count: usize)
        ensures
            count == if self@.history.len() > 0 {
                self@.history.last().len()
            } else {
                0
            },
    {
        proof {
            assert(self@.history.len() == self.history@.len());
        }
        if self.history.len() > 0 {
            let last: usize = self.history.len() - 1;
            proof {
                assert(self@.history.last() == locations_of(self.history@[last as int]@));
            }
            self.history[last].len()
        } else {
            0
        }
    }

    /// A browser that has opened nothing yet.
    pub fn new() -> (browser: Self)
        ensures
            browser@ == state::initial(),
    {
        let browser = Browser {
            columns: Vec::new(),
            history: Vec::new(),
            peek: None,
            include_hidden: false,
            next_id: 1,
            renaming: None,
        };
        assert(browser@ =~= state::initial());
        browser
    }

    /// Ends a peek without a word.
    fn drop_peek(&mut self, out: &mut Outcome)
        ensures
            flow(final(self)@, *final(out)) == state::drop_peek(flow(old(self)@, *old(out))),
    {
        if let Some(peek) = self.peek.take() {
            if peek.loading {
                out.ask(ServiceRequest::CancelLoad { id: peek.id });
            }
        }
    }

    /// Ends a peek, if there is one, and tells so.
    fn end_peek(&mut self, out: &mut Outcome)
        ensures
            flow(final(self)@, *final(out)) == state::end_peek(flow(old(self)@, *old(out))),
    {
        if self.peek.is_some() {
            self.drop_peek(out);
            out.tell(BrowserEvent::PeekClosed);
        }
    }

    /// Remembers the open columns, if any.
    fn remember(&mut self)
        ensures
            final(self)@ == state::remember(old(self)@),
    {
        if self.columns.len() > 0 {
            let mut places: Vec<Location> = Vec::new();
            let mut i: usize = 0;
            while i < self.columns.len()
                invariant
                    i <= self.columns@.len(),
                    places@.len() == i,
                    *self == *old(self),
                    forall|k: int| 0 <= k < i ==> (#[trigger] places@[k])@ == self.columns@[k].location@,
                decreases self.columns@.len() - i,
            {
                places.push(self.columns[i].location.clone());
                i += 1;
            }
            proof {
                assert(locations_of(places@) =~= state::path(self@.columns));
            }
            self.history.push(places);
            proof {
                assert(history_of(self.history@) =~= history_of(old(self).history@).push(
                    locations_of(places@),
                ));
                assert(self@ =~= state::remember(old(self)@));
            }
        }
    }

    /// Closes the columns behind the first `len`.
    fn close_from(&mut self, len: usize, out: &mut Outcome)
        requires
            len <= old(self)@.columns.len(),
        ensures
            flow(final(self)@, *final(out)) == state::close_from(
                flow(old(self)@, *old(out)),
                len as int,
            ),
    {
        let ghost all = self@.columns;
        let ghost before = flow(self@, *out);
        let mut i: usize = len;
        proof {
            assert(columns_of(self.columns@).len() == self.columns@.len());
            assert(all.subrange(len as int, len as int) =~= Seq::empty());
            assert(before.requests =~= before.requests + state::closing_all(
                all.subrange(len as int, len as int),
            ));
        }
        while i < self.columns.len()
            invariant
                len <= i <= self.columns@.len(),
                *self == *old(self),
                all == columns_of(self.columns@),
                before == flow(old(self)@, *old(out)),
                events_of(out.events@) == before.events,
                requests_of(out.requests@) == before.requests + state::closing_all(
                    all.subrange(len as int, i as int),
                ),
            decreases self.columns@.len() - i,
        {
            let ghost done = all.subrange(len as int, i as int);
            let id: u64 = self.columns[i].id;
            if self.columns[i].loading {
                out.ask(ServiceRequest::CancelLoad { id });
            }
            out.ask(ServiceRequest::StopWatch { id });
            i += 1;
            proof {
                let next = all.subrange(len as int, i as int);
                assert(next.drop_last() =~= done);
                assert(next.last() == self.columns@[i - 1]@);
                let f = flow(self@, *out);
                assert(f.requests =~= before.requests + (state::closing_all(done) + state::closing(
                    next.last(),
                )));
                assert(f.events =~= before.events);
            }
        }
        proof {
            assert(all.subrange(len as int, i as int) =~= all.skip(len as int));
        }
        self.columns.truncate(len);
        proof {
            assert(columns_of(self.columns@) =~= all.take(len as int));
            assert(flow(self@, *out) =~= state::close_from(before, len as int));
        }
    }

    /// Opens one more column behind the last one.
    fn open_column(&mut self, location: &Location, out: &mut Outcome)
        requires
            old(self).can_number(1),
        ensures
            flow(final(self)@, *final(out)) == state::open_column(
                flow(old(self)@, *old(out)),
                location@,
            ),
    {
        let ghost before = flow(self@, *out);
        let id: u64 = self.next_id;
        let depth: usize = self.columns.len();
        let include_hidden = self.include_hidden;
        self.next_id = id + 1;
        let column = Column {
            location: location.clone(),
            entries: Vec::new(),
            sort: SortPreference::default(),
            selected: Vec::new(),
            focused: None,
            id,
            loading: true,
        };
        proof {
            assert(column@ =~= state::fresh_column(location@, id as int));
        }
        self.columns.push(column);
        proof {
            assert(columns_of(self.columns@) =~= before.browser.columns.push(column@));
        }
        out.tell(BrowserEvent::ColumnAdded { depth, location: location.clone() });
        out.ask(
            ServiceRequest::Enumerate(
                DirectoryRequest { id, location: location.clone(), include_hidden },
            ),
        );
        out.ask(
            ServiceRequest::Watch(
                DirectoryRequest { id, location: location.clone(), include_hidden },
            ),
        );
        proof {
            assert(flow(self@, *out) =~= state::open_column(before, location@));
        }
    }

    /// Opens `location` in place of all columns.
    pub fn navigate(&mut self, location: Location) -> (outcome: Outcome)
        requires
            old(self).can_number(1),
        ensures
            flow(final(self)@, outcome) == state::navigate(old(self)@, location@),
    {
        let mut out = Outcome::new();
        self.remember();
        proof {
            assert(flow(self@, out) =~= state::start(self@));
        }
        self.drop_peek(&mut out);
        self.close_from(0, &mut out);
        out.tell(BrowserEvent::Reset);
        self.open_column(&location, &mut out);
        out
    }

    /// Opens the columns that were open before the last navigation.
    pub fn back(&mut self) -> (outcome: Outcome)
        requires
            old(self)@.history.len() > 0 ==> old(self).can_number(old(self)@.history.last().len() as int),
        ensures
            flow(final(self)@, outcome) == state::back(old(self)@),
    {
        let mut out = Outcome::new();
        let ghost entry = self@;
        if let Some(places) = self.history.pop() {
            proof {
                assert(history_of(self.history@) =~= entry.history.drop_last());
                assert(entry.history.last() == locations_of(places@));
                assert(flow(self@, out) =~= state::start(
                    BrowserState { history: entry.history.drop_last(), ..entry },
                ));
            }
            self.drop_peek(&mut out);
            self.close_from(0, &mut out);
            out.tell(BrowserEvent::Reset);
            let ghost opened = flow(self@, out);
            let ghost views = locations_of(places@);
            let mut i: usize = 0;
            proof {
                assert(views.take(0) =~= Seq::empty());
            }
            while i < places.len()
                invariant
                    i <= places@.len(),
                    views == locations_of(places@),
                    flow(self@, out) == state::open_columns(opened, views.take(i as int)),
                    self@.next_id == opened.browser.next_id + i,
                    opened.browser.next_id + places@.len() <= u64::MAX,
                decreases places@.len() - i,
            {
                self.open_column(&places[i], &mut out);
                i += 1;
                proof {
                    assert(views.take(i as int).drop_last() =~= views.take(i - 1));
                }
            }
            proof {
                assert(views.take(i as int) =~= views);
            }
        } else {
            proof {
                assert(flow(self@, out) =~= state::start(entry));
            }
        }
        out
    }

    /// Closes the columns behind the first `len` and tells so, where there are any.
    fn truncate(&mut self, len: usize, out: &mut Outcome)
        ensures
            flow(final(self)@, *final(out)) == state::truncated(
                flow(old(self)@, *old(out)),
                len as int,
            ),
    {
        proof {
            assert(self@.columns.len() == self.columns@.len());
        }
        if len < self.columns.len() {
            self.close_from(len, out);
            out.tell(BrowserEvent::ColumnsTruncated { len });
        }
    }

    /// Opens `location` behind the column at `depth`, given whether it can be opened.
    pub fn descend(
        &mut self,
        depth: usize,
        location: Location,
        verdict: Result<(), LocationValidationError>,
    ) -> (outcome: Outcome)
        requires
            old(self).can_number(1),
        ensures
            flow(final(self)@, outcome) == state::descend(
                old(self)@,
                depth as int,
                location@,
                verdict,
            ),
    {
        let mut out = Outcome::new();
        proof {
            assert(flow(self@, out) =~= state::start(self@));
            assert(self@.columns.len() == self.columns@.len());
        }
        if depth >= self.columns.len() {
            return out;
        }
        match verdict {
            Err(error) => {
                out.tell(BrowserEvent::NavigationRejected { message: error.message() });
            },
            Ok(_) => {
                self.remember();
                proof {
                    assert(flow(self@, out) =~= state::start(self@));
                }
                self.end_peek(&mut out);
                self.truncate(depth + 1, &mut out);
                self.open_column(&location, &mut out);
            },
        }
        out
    }

    /// Reads a typed location. Where its form is right, it remains to be found out whether the
    /// place can be opened; then comes [`Browser::navigate_typed`].
    pub fn navigate_input(&self, input: &str) -> (typed: Result<Location, LocationValidationError>)
        ensures
            match typed {
                Ok(location) => typed_location(input@) == Ok::<LocationView, LocationValidationError>(
                    location@,
                ),
                Err(error) => typed_location(input@) == Err::<LocationView, LocationValidationError>(
                    error,
                ),
            },
    {
        parse_location(input)
    }

    /// Opens a typed location, given whether it can be opened. Where it cannot, nothing changes.
    pub fn navigate_typed(
        &mut self,
        location: Location,
        verdict: Result<(), LocationValidationError>,
    ) -> (result: Result<Outcome, LocationValidationError>)
        requires
            old(self).can_number(1),
        ensures
            match result {
                Ok(outcome) => verdict is Ok && flow(final(self)@, outcome) == state::navigate_typed(
                    old(self)@,
                    location@,
                    verdict,
                ),
                Err(error) => verdict == Err::<(), LocationValidationError>(error) && final(self)@
                    == state::navigate_typed(old(self)@, location@, verdict).browser,
            },
    {
        match verdict {
            Ok(_) => Ok(self.navigate(location)),
            Err(error) => Err(error),
        }
    }

    /// Closes the column at `depth` and those behind it. The first column stays.
    pub fn close_column(&mut self, depth: usize) -> (outcome: Outcome)
        ensures
            flow(final(self)@, outcome) == state::close_column(old(self)@, depth as int),
    {
        let mut out = Outcome::new();
        proof {
            assert(flow(self@, out) =~= state::start(self@));
            assert(self@.columns.len() == self.columns@.len());
        }
        if 0 < depth && depth < self.columns.len() {
            self.end_peek(&mut out);
            self.truncate(depth, &mut out);
        }
        out
    }

    /// Ends a peek; where there is none, closes the last column.
    pub fn escape(&mut self) -> (outcome: Outcome)
        ensures
            flow(final(self)@, outcome) == state::escape(old(self)@),
    {
        let mut out = Outcome::new();
        proof {
            assert(flow(self@, out) =~= state::start(self@));
            assert(self@.columns.len() == self.columns@.len());
        }
        if self.peek.is_some() {
            self.end_peek(&mut out);
            return out;
        }
        if self.columns.len() > 0 {
            return self.close_column(self.columns.len() - 1);
        }
        out
    }

    /// Looks into `location`, an entry of the column at `origin`.
    pub fn begin_peek(&mut self, origin: usize, location: Location) -> (outcome: Outcome)
        requires
            old(self).can_number(1),
        ensures
            flow(final(self)@, outcome) == state::begin_peek(old(self)@, origin as int, location@),
    {
        let mut out = Outcome::new();
        let ghost entry = self@;
        proof {
            assert(flow(self@, out) =~= state::start(self@));
            assert(self@.columns.len() == self.columns@.len());
        }
        if origin < self.columns.len() {
            self.drop_peek(&mut out);
            let ghost dropped = flow(self@, out);
            let id: u64 = self.next_id;
            self.next_id = id + 1;
            let include_hidden = self.include_hidden;
            self.peek = Some(Peek { origin, location: location.clone(), id, loading: true });
            proof {
                assert(self@ =~= BrowserState {
                    peek: Some(
                        PeekState {
                            origin: origin as int,
                            location: location@,
                            id: entry.next_id,
                            loading: true,
                        },
                    ),
                    next_id: entry.next_id + 1,
                    ..dropped.browser
                });
            }
            out.tell(BrowserEvent::PeekStarted { location: location.clone() });
            out.ask(ServiceRequest::Enumerate(DirectoryRequest { id, location, include_hidden }));
        }
        out
    }

    /// Ends a peek, if there is one.
    pub fn close_peek(&mut self) -> (outcome: Outcome)
        ensures
            flow(final(self)@, outcome) == state::end_peek(state::start(old(self)@)),
    {
        let mut out = Outcome::new();
        proof {
            assert(flow(self@, out) =~= state::start(self@));
        }
        self.end_peek(&mut out);
        out
    }

    /// Ends the peek and goes on to open what was looked into.
    pub fn commit_peek(&mut self) -> (outcome: Outcome)
        ensures
            flow(final(self)@, outcome) == state::commit_peek(old(self)@),
    {
        let mut out = Outcome::new();
        proof {
            assert(flow(self@, out) =~= state::start(self@));
        }
        if let Some(peek) = &self.peek {
            let depth: usize = peek.origin;
            let location = peek.location.clone();
            self.end_peek(&mut out);
            out.ask(ServiceRequest::Validate { depth, location });
        }
        out
    }

    /// Lists the column at `depth` anew. The selection stays.
    fn reload(&mut self, depth: usize, out: &mut Outcome)
        requires
            old(self).can_number(1),
            depth < old(self)@.columns.len(),
        ensures
            flow(final(self)@, *final(out)) == state::reload(
                flow(old(self)@, *old(out)),
                depth as int,
            ),
    {
        let ghost before = flow(self@, *out);
        proof {
            assert(self@.columns.len() == self.columns@.len());
            assert(self@.columns[depth as int] == self.columns@[depth as int]@);
        }
        let id: u64 = self.next_id;
        let old_id: u64 = self.columns[depth].id;
        let include_hidden = self.include_hidden;
        let location = self.columns[depth].location.clone();
        if self.columns[depth].loading {
            out.ask(ServiceRequest::CancelLoad { id: old_id });
        }
        out.ask(ServiceRequest::StopWatch { id: old_id });
        let ghost asked = flow(self@, *out);
        proof {
            assert(asked.requests =~= before.requests + state::closing(
                before.browser.columns[depth as int],
            ));
        }
        self.next_id = id + 1;
        self.columns[depth].entries = Vec::new();
        self.columns[depth].id = id;
        self.columns[depth].loading = true;
        proof {
            let column = before.browser.columns[depth as int];
            assert(self.columns@[depth as int]@ =~= ColumnState {
                entries: Seq::empty(),
                id: id as int,
                loading: true,
                ..column
            });
            assert(columns_of(self.columns@) =~= before.browser.columns.update(
                depth as int,
                self.columns@[depth as int]@,
            ));
        }
        out.tell(BrowserEvent::ColumnReloaded { depth });
        out.ask(
            ServiceRequest::Enumerate(
                DirectoryRequest { id, location: location.clone(), include_hidden },
            ),
        );
        out.ask(ServiceRequest::Watch(DirectoryRequest { id, location, include_hidden }));
        proof {
            assert(flow(self@, *out) =~= state::reload(before, depth as int));
        }
    }

    /// Lists the column at `depth` anew, where there is one.
    pub fn retry_column(&mut self, depth: usize) -> (outcome: Outcome)
        requires
            old(self).can_number(1),
        ensures
            flow(final(self)@, outcome) == state::retry_column(old(self)@, depth as int),
    {
        let mut out = Outcome::new();
        proof {
            assert(flow(self@, out) =~= state::start(self@));
            assert(self@.columns.len() == self.columns@.len());
        }
        if depth < self.columns.len() {
            self.reload(depth, &mut out);
        }
        out
    }

    /// Shows hidden entries, or stops showing them, and lists every column anew.
    pub fn toggle_hidden(&mut self) -> (outcome: Outcome)
        requires
            old(self).can_number(old(self)@.columns.len() as int),
        ensures
            flow(final(self)@, outcome) == state::toggle_hidden(old(self)@),
    {
        let mut out = Outcome::new();
        let ghost entry = self@;
        self.include_hidden = !self.include_hidden;
        let ghost begun = flow(self@, out);
        proof {
            assert(begun =~= state::start(
                BrowserState { include_hidden: !entry.include_hidden, ..entry },
            ));
            assert(self@.columns.len() == self.columns@.len());
        }
        let mut i: usize = 0;
        while i < self.columns.len()
            invariant
                self.columns@.len() == entry.columns.len(),
                i <= entry.columns.len(),
                flow(self@, out) == state::reload_first(begun, i as int),
                self@.next_id == begun.browser.next_id + i,
                begun.browser.next_id + entry.columns.len() <= u64::MAX,
            decreases entry.columns.len() - i,
        {
            proof {
                assert(self@.columns.len() == self.columns@.len());
            }
            let ghost count = self@.columns.len();
            self.reload(i, &mut out);
            i += 1;
            proof {
                assert(self@.columns.len() == count);
                assert(self@.columns.len() == self.columns@.len());
            }
        }
        out
    }

    /// Tells the selection of the column at `depth` again, where anything is selected.
    fn restore_selection(&self, depth: usize, out: &mut Outcome)
        requires
            depth < self@.columns.len(),
        ensures
            flow(self@, *final(out)) == state::restore_selection(
                flow(self@, *old(out)),
                depth as int,
            ),
    {
        proof {
            assert(self@.columns.len() == self.columns@.len());
            assert(self@.columns[depth as int] == self.columns@[depth as int]@);
        }
        let positions = self.columns[depth].selected_positions();
        proof {
            assert(positions_of(positions@).len() == positions@.len());
        }
        if positions.len() > 0 {
            proof {
                assert(positions_of(positions@).last() == positions@.last() as int);
            }
            let focused: usize = match self.columns[depth].focused_position() {
                Some(position) => position,
                None => positions[positions.len() - 1],
            };
            out.tell(BrowserEvent::SelectionSetChanged { depth, positions, focused });
        }
    }

    /// The column that the listing with this number fills.
    fn column_of(&self, id: u64) -> (depth: Option<usize>)
        ensures
            position_of(depth) == state::column_of(self@.columns, id as int),
            depth matches Some(at) ==> at < self.columns@.len(),
    {
        let ghost views = self@.columns;
        let mut i: usize = 0;
        while i < self.columns.len()
            invariant
                views == columns_of(self.columns@),
                i <= self.columns@.len(),
                state::column_of(views, id as int) == state::column_from(views, id as int, i as int),
            decreases self.columns@.len() - i,
        {
            if self.columns[i].id == id {
                return Some(i);
            }
            i += 1;
        }
        None
    }

    /// The column that the listing with this number is still filling.
    fn loading_column(&self, id: u64) -> (depth: Option<usize>)
        ensures
            position_of(depth) == state::loading_column(self@, id as int),
            depth matches Some(at) ==> at < self.columns@.len(),
    {
        match self.column_of(id) {
            Some(depth) => {
                proof {
                    assert(self@.columns[depth as int] == self.columns@[depth as int]@);
                }
                if self.columns[depth].loading {
                    Some(depth)
                } else {
                    None
                }
            },
            None => None,
        }
    }

    /// Whether the peek is still filled by the listing with this number.
    fn peek_loads(&self, id: u64) -> (loads: bool)
        ensures
            loads == state::peek_loads(self@, id as int),
    {
        match &self.peek {
            Some(peek) => peek.id == id && peek.loading,
            None => false,
        }
    }

    /// Takes in a batch of a listing.
    fn batch_arrived(&mut self, id: u64, entries: Vec<FileEntry>) -> (outcome: Outcome)
        ensures
            flow(final(self)@, outcome) == state::batch_arrived(
                old(self)@,
                id as int,
                entries_of(entries@),
            ),
    {
        let mut out = Outcome::new();
        let ghost before = self@;
        proof {
            assert(flow(self@, out) =~= state::start(self@));
        }
        if let Some(depth) = self.loading_column(id) {
            proof {
                assert(self@.columns[depth as int] == self.columns@[depth as int]@);
            }
            let sort = self.columns[depth].sort;
            let arrived = sort_entries(sort, entries);
            let mut shown: Vec<FileEntry> = Vec::new();
            std::mem::swap(&mut shown, &mut self.columns[depth].entries);
            let (whole, insertions) = merge_batch(sort, shown, arrived);
            self.columns[depth].entries = whole;
            proof {
                let column = before.columns[depth as int];
                assert(self.columns@[depth as int]@ =~= ColumnState {
                    entries: entries_of(whole@),
                    ..column
                });
                assert(columns_of(self.columns@) =~= before.columns.update(
                    depth as int,
                    self.columns@[depth as int]@,
                ));
                assert(flow(self@, out) =~= state::start(
                    state::with_column(before, depth as int, self.columns@[depth as int]@),
                ));
            }
            out.tell(BrowserEvent::EntriesInserted { depth, insertions });
        } else if self.peek_loads(id) {
            out.tell(BrowserEvent::PeekEntriesAdded { entries });
        }
        out
    }

    /// Ends the listing of the column at `depth`.
    fn end_load(&mut self, depth: usize)
        requires
            depth < old(self)@.columns.len(),
        ensures
            final(self)@ == state::with_column(
                old(self)@,
                depth as int,
                ColumnState { loading: false, ..old(self)@.columns[depth as int] },
            ),
    {
        proof {
            assert(self@.columns.len() == self.columns@.len());
        }
        self.columns[depth].loading = false;
        proof {
            assert(self.columns@[depth as int]@ =~= ColumnState {
                loading: false,
                ..old(self)@.columns[depth as int]
            });
            assert(columns_of(self.columns@) =~= old(self)@.columns.update(
                depth as int,
                self.columns@[depth as int]@,
            ));
        }
    }

    /// Ends the listing of the peek.
    fn end_peek_load(&mut self)
        ensures
            final(self)@ == state::with_peek_ended(old(self)@),
    {
        if let Some(peek) = self.peek.take() {
            self.peek = Some(
                Peek { origin: peek.origin, location: peek.location, id: peek.id, loading: false },
            );
        }
    }

    /// Takes in what a listing delivers. What a listing that is no longer wanted delivers
    /// changes nothing.
    pub fn directory_event(&mut self, event: DirectoryEvent) -> (outcome: Outcome)
        ensures
            flow(final(self)@, outcome) == (match event {
                DirectoryEvent::Batch { request_id, entries } => state::batch_arrived(
                    old(self)@,
                    request_id as int,
                    entries_of(entries@),
                ),
                DirectoryEvent::Finished { request_id } => state::load_finished(
                    old(self)@,
                    request_id as int,
                ),
                DirectoryEvent::Failed { request_id, message } => state::load_failed(
                    old(self)@,
                    request_id as int,
                    message@,
                ),
            }),
    {
        let mut out = Outcome::new();
        proof {
            assert(flow(self@, out) =~= state::start(self@));
            assert(self@.columns.len() == self.columns@.len());
        }
        match event {
            DirectoryEvent::Batch { request_id, entries } => {
                return self.batch_arrived(request_id, entries);
            },
            DirectoryEvent::Finished { request_id } => {
                if let Some(depth) = self.loading_column(request_id) {
                    self.end_load(depth);
                    proof {
                        assert(flow(self@, out) =~= state::start(self@));
                    }
                    out.tell(BrowserEvent::LoadFinished { depth });
                    self.restore_selection(depth, &mut out);
                } else if self.peek_loads(request_id) {
                    self.end_peek_load();
                    proof {
                        assert(flow(self@, out) =~= state::start(self@));
                    }
                    out.tell(BrowserEvent::PeekFinished);
                }
            },
            DirectoryEvent::Failed { request_id, message } => {
                if let Some(depth) = self.loading_column(request_id) {
                    self.end_load(depth);
                    proof {
                        assert(flow(self@, out) =~= state::start(self@));
                    }
                    out.tell(BrowserEvent::LoadFailed { depth, message });
                } else if self.peek_loads(request_id) {
                    self.end_peek_load();
                    proof {
                        assert(flow(self@, out) =~= state::start(self@));
                    }
                    out.tell(BrowserEvent::PeekFailed { message });
                }
            },
        }
        out
    }

    /// Sorts the column at `depth` another way.
    fn resort(&mut self, depth: usize, sort: SortPreference) -> (outcome: Outcome)
        requires
            depth < old(self)@.columns.len(),
        ensures
            flow(final(self)@, outcome) == state::resort(old(self)@, depth as int, sort),
    {
        let mut out = Outcome::new();
        let ghost before = self@;
        proof {
            assert(self@.columns.len() == self.columns@.len());
            assert(self@.columns[depth as int] == self.columns@[depth as int]@);
        }
        let mut shown: Vec<FileEntry> = Vec::new();
        std::mem::swap(&mut shown, &mut self.columns[depth].entries);
        let entries = sort_entries(sort, shown);
        let told = copy_entries(&entries);
        self.columns[depth].entries = entries;
        self.columns[depth].sort = sort;
        proof {
            let column = before.columns[depth as int];
            assert(self.columns@[depth as int]@ =~= ColumnState {
                sort,
                entries: entries_of(entries@),
                ..column
            });
            assert(columns_of(self.columns@) =~= before.columns.update(
                depth as int,
                self.columns@[depth as int]@,
            ));
            assert(flow(self@, out) =~= state::start(
                state::with_column(before, depth as int, self.columns@[depth as int]@),
            ));
        }
        out.tell(BrowserEvent::EntriesReplaced { depth, entries: told });
        self.restore_selection(depth, &mut out);
        out
    }

    /// Sorts the column at `depth` by another key.
    pub fn set_sort_key(&mut self, depth: usize, key: SortKey) -> (outcome: Outcome)
        ensures
            flow(final(self)@, outcome) == state::set_sort_key(old(self)@, depth as int, key),
    {
        proof {
            assert(self@.columns.len() == self.columns@.len());
        }
        if depth < self.columns.len() {
            let sort = self.columns[depth].sort;
            return self.resort(depth, SortPreference { key, ..sort });
        }
        let out = Outcome::new();
        proof {
            assert(flow(self@, out) =~= state::start(self@));
        }
        out
    }

    /// Sorts the column at `depth` in another direction.
    pub fn set_sort_direction(&mut self, depth: usize, direction: SortDirection) -> (outcome: Outcome)
        ensures
            flow(final(self)@, outcome) == state::set_sort_direction(
                old(self)@,
                depth as int,
                direction,
            ),
    {
        proof {
            assert(self@.columns.len() == self.columns@.len());
        }
        if depth < self.columns.len() {
            let sort = self.columns[depth].sort;
            return self.resort(depth, SortPreference { direction, ..sort });
        }
        let out = Outcome::new();
        proof {
            assert(flow(self@, out) =~= state::start(self@));
        }
        out
    }

    /// Puts the folders of the column at `depth` first, or among the other entries.
    pub fn set_folders_first(&mut self, depth: usize, folders_first: bool) -> (outcome: Outcome)
        ensures
            flow(final(self)@, outcome) == state::set_folders_first(
                old(self)@,
                depth as int,
                folders_first,
            ),
    {
        proof {
            assert(self@.columns.len() == self.columns@.len());
        }
        if depth < self.columns.len() {
            let sort = self.columns[depth].sort;
            return self.resort(depth, SortPreference { folders_first, ..sort });
        }
        let out = Outcome::new();
        proof {
            assert(flow(self@, out) =~= state::start(self@));
        }
        out
    }

    /// Takes in what a watched directory went through.
    pub fn directory_changed(&mut self, id: u64, change: DirectoryChange) -> (outcome: Outcome)
        requires
            old(self).can_number(1),
        ensures
            flow(final(self)@, outcome) == state::directory_changed(
                old(self)@,
                id as int,
                change_view(change),
            ),
    {
        let mut out = Outcome::new();
        let ghost before = self@;
        proof {
            assert(flow(self@, out) =~= state::start(self@));
            assert(self@.columns.len() == self.columns@.len());
        }
        if let Some(depth) = self.column_of(id) {
            proof {
                assert(self@.columns[depth as int] == self.columns@[depth as int]@);
            }
            if matches!(change, DirectoryChange::Rescan) || self.columns[depth].loading {
                self.reload(depth, &mut out);
                return out;
            }
            let mut splices: Vec<Splice> = Vec::new();
            let ghost begun = Change {
                column: before.columns[depth as int],
                splices: Seq::empty(),
            };
            proof {
                assert(change_of(self.columns@[depth as int], splices) =~= begun);
            }
            match change {
                DirectoryChange::Upsert(entry) => {
                    self.columns[depth].upsert(entry, &mut splices);
                },
                DirectoryChange::Removed(from) => {
                    self.columns[depth].remove_entry(&from, &mut splices);
                },
                DirectoryChange::Moved { from, entry } => {
                    self.columns[depth].move_entry(&from, entry, &mut splices);
                },
                DirectoryChange::Rescan => {},
            }
            let ghost done = state::changed(before.columns[depth as int], change_view(change));
            proof {
                assert(change_of(self.columns@[depth as int], splices) == done);
                assert(columns_of(self.columns@) =~= before.columns.update(
                    depth as int,
                    done.column,
                ));
                assert(flow(self@, out) =~= state::start(
                    state::with_column(before, depth as int, done.column),
                ));
                assert(splices_of(splices@).len() == splices@.len());
            }
            if splices.len() > 0 {
                let selected = self.columns[depth].focused_position();
                out.tell(BrowserEvent::EntriesSpliced { depth, splices, selected });
            }
        }
        out
    }

    /// Takes over the selection of the column at `depth`.
    pub fn set_selection(&mut self, depth: usize, positions: &Vec<usize>, focused: Option<usize>)
        ensures
            final(self)@ == state::set_selection(
                old(self)@,
                depth as int,
                positions_of(positions@),
                position_of(focused),
            ),
    {
        let ghost before = self@;
        proof {
            assert(self@.columns.len() == self.columns@.len());
        }
        if depth < self.columns.len() {
            proof {
                assert(self@.columns[depth as int] == self.columns@[depth as int]@);
            }
            let ghost wanted = positions_of(positions@);
            let ghost entries = before.columns[depth as int].entries;
            let mut selected: Vec<Location> = Vec::new();
            let mut i: usize = 0;
            proof {
                assert(locations_of(selected@) =~= Seq::empty());
            }
            while i < positions.len()
                invariant
                    *self == *old(self),
                    depth < self.columns@.len(),
                    entries == entries_of(self.columns@[depth as int].entries@),
                    wanted == positions_of(positions@),
                    i <= positions@.len(),
                    locations_of(selected@) == state::places_at(entries, wanted.take(i as int)),
                decreases positions@.len() - i,
            {
                let ghost so_far = selected@;
                let position: usize = positions[i];
                if position < self.columns[depth].entries.len() {
                    let place = self.columns[depth].entries[position].location.clone();
                    selected.push(place);
                    assert(locations_of(selected@) =~= locations_of(so_far).push(place@));
                }
                i += 1;
                proof {
                    assert(wanted.take(i as int).drop_last() =~= wanted.take(i - 1));
                    assert(wanted.take(i as int).last() == positions@[i - 1] as int);
                }
            }
            proof {
                assert(wanted.take(i as int) =~= wanted);
            }
            let place = match focused {
                Some(position) => if position < self.columns[depth].entries.len() {
                    Some(self.columns[depth].entries[position].location.clone())
                } else {
                    None
                },
                None => None,
            };
            self.columns[depth].selected = selected;
            self.columns[depth].focused = place;
            proof {
                let column = before.columns[depth as int];
                assert(self.columns@[depth as int]@ =~= ColumnState {
                    selected: state::places_at(entries, wanted),
                    focused: state::place_at(entries, position_of(focused)),
                    ..column
                });
                assert(columns_of(self.columns@) =~= before.columns.update(
                    depth as int,
                    self.columns@[depth as int]@,
                ));
            }
        }
    }

    /// Whether there is an entry at `position` of the column at `depth`.
    fn has_entry(&self, depth: usize, position: usize) -> (found: bool)
        ensures
            found == state::has_entry(self@, depth as int, position as int),
            found ==> depth < self.columns@.len() && position < self.columns@[depth as int].entries@.len()
                && self@.columns[depth as int] == self.columns@[depth as int]@
                && self@.columns[depth as int].entries[position as int]
                == self.columns@[depth as int].entries@[position as int]@,
    {
        proof {
            assert(self@.columns.len() == self.columns@.len());
        }
        depth < self.columns.len() && position < self.columns[depth].entries.len()
    }

    /// Selects and focuses one entry.
    fn choose_entry(&mut self, depth: usize, position: usize)
        requires
            state::has_entry(old(self)@, depth as int, position as int),
        ensures
            final(self)@ == state::chosen(old(self)@, depth as int, position as int),
    {
        let ghost before = self@;
        proof {
            assert(self@.columns.len() == self.columns@.len());
            assert(self@.columns[depth as int] == self.columns@[depth as int]@);
        }
        let place = self.columns[depth].entries[position].location.clone();
        let mut selected: Vec<Location> = Vec::new();
        selected.push(place.clone());
        proof {
            assert(locations_of(selected@) =~= seq![place@]);
        }
        self.columns[depth].selected = selected;
        self.columns[depth].focused = Some(place);
        proof {
            assert(self.columns@[depth as int]@ =~= before.columns[depth as int].choosing(
                position as int,
            ));
            assert(columns_of(self.columns@) =~= before.columns.update(
                depth as int,
                self.columns@[depth as int]@,
            ));
        }
    }

    /// Selects one entry.
    pub fn select(&mut self, depth: usize, position: usize) -> (outcome: Outcome)
        ensures
            flow(final(self)@, outcome) == state::select(old(self)@, depth as int, position as int),
    {
        let mut out = Outcome::new();
        if self.has_entry(depth, position) {
            self.choose_entry(depth, position);
            proof {
                assert(flow(self@, out) =~= state::start(self@));
            }
            out.tell(BrowserEvent::FocusChanged { depth, position: Some(position) });
        } else {
            proof {
                assert(flow(self@, out) =~= state::start(self@));
            }
        }
        out
    }

    /// Selects one entry and looks at it: a directory is to be opened, a file is to be previewed.
    pub fn preview(&mut self, depth: usize, position: usize) -> (outcome: Outcome)
        ensures
            flow(final(self)@, outcome) == state::preview(
                old(self)@,
                depth as int,
                position as int,
            ),
    {
        let mut out = Outcome::new();
        if self.has_entry(depth, position) {
            let entry = self.columns[depth].entries[position].clone();
            self.choose_entry(depth, position);
            proof {
                assert(flow(self@, out) =~= state::start(self@));
            }
            if entry.is_directory() {
                out.ask(ServiceRequest::Validate { depth, location: entry.location });
            } else {
                out.tell(BrowserEvent::PreviewRequested { entry });
            }
        } else {
            proof {
                assert(flow(self@, out) =~= state::start(self@));
            }
        }
        out
    }

    /// Selects one entry and opens it: a directory in a column, a file in its application.
    pub fn activate(&mut self, depth: usize, position: usize) -> (outcome: Outcome)
        ensures
            flow(final(self)@, outcome) == state::activate(
                old(self)@,
                depth as int,
                position as int,
            ),
    {
        let mut out = Outcome::new();
        if self.has_entry(depth, position) {
            let entry = self.columns[depth].entries[position].clone();
            self.choose_entry(depth, position);
            proof {
                assert(flow(self@, out) =~= state::start(self@));
            }
            if entry.is_directory() {
                out.ask(ServiceRequest::Validate { depth, location: entry.location });
            } else {
                out.tell(BrowserEvent::OpenRequested { location: entry.location });
            }
        } else {
            proof {
                assert(flow(self@, out) =~= state::start(self@));
            }
        }
        out
    }

    /// Opens the entry that has the focus in the last column.
    pub fn activate_focused(&mut self) -> (outcome: Outcome)
        ensures
            flow(final(self)@, outcome) == state::activate_focused(old(self)@),
    {
        proof {
            assert(self@.columns.len() == self.columns@.len());
        }
        if self.columns.len() > 0 {
            let depth: usize = self.columns.len() - 1;
            proof {
                assert(self@.columns[depth as int] == self.columns@[depth as int]@);
            }
            if let Some(position) = self.columns[depth].focused_position() {
                return self.activate(depth, position);
            }
        }
        let out = Outcome::new();
        proof {
            assert(flow(self@, out) =~= state::start(self@));
        }
        out
    }

    /// Moves the selection of the last column by `delta` rows.
    pub fn move_selection(&mut self, delta: i32) -> (outcome: Outcome)
        ensures
            flow(final(self)@, outcome) == state::move_selection(old(self)@, delta as int),
    {
        proof {
            assert(self@.columns.len() == self.columns@.len());
        }
        if self.columns.len() > 0 {
            let depth: usize = self.columns.len() - 1;
            proof {
                assert(self@.columns[depth as int] == self.columns@[depth as int]@);
                assert(self@.columns[depth as int].entries.len()
                    == self.columns@[depth as int].entries@.len());
            }
            if self.columns[depth].entries.len() > 0 {
                let last: usize = self.columns[depth].entries.len() - 1;
                let wanted: usize = match self.columns[depth].focused_position() {
                    None => if delta < 0 {
                        last
                    } else {
                        0
                    },
                    Some(position) => {
                        let target: i128 = position as i128 + delta as i128;
                        if target < 0 {
                            0
                        } else if target > last as i128 {
                            last
                        } else {
                            target as usize
                        }
                    },
                };
                return self.select(depth, wanted);
            }
        }
        let out = Outcome::new();
        proof {
            assert(flow(self@, out) =~= state::start(self@));
        }
        out
    }

    /// Gives the last column the focus.
    pub fn focus_active(&self) -> (outcome: Outcome)
        ensures
            flow(self@, outcome) == state::focus_active(self@),
    {
        let mut out = Outcome::new();
        proof {
            assert(flow(self@, out) =~= state::start(self@));
            assert(self@.columns.len() == self.columns@.len());
        }
        if self.columns.len() > 0 {
            let depth: usize = self.columns.len() - 1;
            proof {
                assert(self@.columns[depth as int] == self.columns@[depth as int]@);
            }
            let position = self.columns[depth].focused_position();
            out.tell(BrowserEvent::FocusChanged { depth, position });
        }
        out
    }

    /// How many columns are open.
    pub fn column_count(&self) -> (count: usize)
        ensures
            count == self@.columns.len(),
    {
        proof {
            assert(self@.columns.len() == self.columns@.len());
        }
        self.columns.len()
    }

    /// The depth of the last column.
    pub fn active_depth(&self) -> (depth: Option<usize>)
        ensures
            position_of(depth) == state::active_depth(self@),
    {
        proof {
            assert(self@.columns.len() == self.columns@.len());
        }
        if self.columns.len() > 0 {
            Some(self.columns.len() - 1)
        } else {
            None
        }
    }

    /// The place that the column at `depth` shows.
    pub fn location_at(&self, depth: usize) -> (location: Option<Location>)
        ensures
            match location {
                Some(place) => state::location_at(self@, depth as int) == Some(place@),
                None => state::location_at(self@, depth as int) is None,
            },
    {
        proof {
            assert(self@.columns.len() == self.columns@.len());
        }
        if depth < self.columns.len() {
            Some(self.columns[depth].location.clone())
        } else {
            None
        }
    }

    /// The place that the last column shows.
    pub fn active_location(&self) -> (location: Option<Location>)
        ensures
            match location {
                Some(place) => state::active_location(self@) == Some(place@),
                None => state::active_location(self@) is None,
            },
    {
        proof {
            assert(self@.columns.len() == self.columns@.len());
        }
        if self.columns.len() > 0 {
            self.location_at(self.columns.len() - 1)
        } else {
            None
        }
    }

    /// The row of the column at `depth` that has the focus.
    pub fn focused_position(&self, depth: usize) -> (position: Option<usize>)
        requires
            depth < self@.columns.len(),
        ensures
            position_of(position) == self@.columns[depth as int].focused_position(),
    {
        proof {
            assert(self@.columns.len() == self.columns@.len());
        }
        self.columns[depth].focused_position()
    }

    /// The entry at `position` of the column at `depth`.
    pub fn entry_at(&self, depth: usize, position: usize) -> (entry: Option<FileEntry>)
        ensures
            match entry {
                Some(found) => state::has_entry(self@, depth as int, position as int) && found@
                    == self@.columns[depth as int].entries[position as int],
                None => !state::has_entry(self@, depth as int, position as int),
            },
    {
        if self.has_entry(depth, position) {
            Some(self.columns[depth].entries[position].clone())
        } else {
            None
        }
    }

    /// The row of the column at `depth` behind which the next column opens.
    pub fn active_child_position(&self, depth: usize) -> (position: Option<usize>)
        ensures
            position_of(position) == state::active_child_position(self@, depth as int),
            position matches Some(at) ==> state::has_entry(self@, depth as int, at as int),
    {
        proof {
            assert(self@.columns.len() == self.columns@.len());
        }
        if self.columns.len() > 0 && depth < self.columns.len() - 1 {
            proof {
                assert(self@.columns[depth as int] == self.columns@[depth as int]@);
                assert(self@.columns[depth + 1] == self.columns@[depth + 1]@);
            }
            find_place(&self.columns[depth].entries, &self.columns[depth + 1].location)
        } else {
            None
        }
    }

    /// The entries that are selected in the deepest column with a selection.
    pub fn selected_entries(&self) -> (entries: Vec<FileEntry>)
        ensures
            entries_of(entries@) == state::selected_entries(self@),
    {
        let mut entries: Vec<FileEntry> = Vec::new();
        let mut n: usize = self.columns.len();
        proof {
            assert(self@.columns.len() == self.columns@.len());
            assert(entries_of(entries@) =~= Seq::empty());
        }
        while n > 0
            invariant
                n <= self.columns@.len(),
                self@.columns.len() == self.columns@.len(),
                entries@.len() == 0,
                entries_of(entries@) == Seq::<FileEntryView>::empty(),
                state::selection_depth(self@, self@.columns.len() as int) == state::selection_depth(
                    self@,
                    n as int,
                ),
            decreases n,
        {
            let depth: usize = n - 1;
            let positions = self.columns[depth].selected_positions();
            proof {
                assert(self@.columns[depth as int] == self.columns@[depth as int]@);
                assert(positions_of(positions@).len() == positions@.len());
            }
            if positions.len() > 0 {
                let mut i: usize = 0;
                while i < positions.len()
                    invariant
                        depth < self.columns@.len(),
                        self@.columns[depth as int] == self.columns@[depth as int]@,
                        positions_of(positions@) == self@.columns[depth as int].selected_positions(),
                        forall|k: int|
                            0 <= k < positions@.len() ==> #[trigger] positions@[k]
                                < self.columns@[depth as int].entries@.len(),
                        i <= positions@.len(),
                        entries@.len() == i,
                        forall|k: int|
                            0 <= k < i ==> (#[trigger] entries@[k])@
                                == self@.columns[depth as int].entries[positions@[k] as int],
                    decreases positions@.len() - i,
                {
                    entries.push(self.columns[depth].entries[positions[i]].clone());
                    i += 1;
                }
                proof {
                    let wanted = self@.columns[depth as int].selected_positions();
                    assert(entries_of(entries@) =~= wanted.map_values(
                        |position: int| self@.columns[depth as int].entries[position],
                    ));
                }
                return entries;
            }
            n -= 1;
        }
        entries
    }

    /// What a rename is for: the focused entry of the last column, or else the open folder that
    /// the last column shows.
    pub fn rename_item(&self) -> (item: Option<(usize, usize, FileEntry)>)
        ensures
            match item {
                Some((depth, position, entry)) => state::rename_item(self@) == Some(
                    (depth as int, position as int, entry@),
                ),
                None => state::rename_item(self@) is None,
            },
    {
        proof {
            assert(self@.columns.len() == self.columns@.len());
        }
        if self.columns.len() == 0 {
            return None;
        }
        let last: usize = self.columns.len() - 1;
        proof {
            assert(self@.columns[last as int] == self.columns@[last as int]@);
        }
        if let Some(position) = self.columns[last].focused_position() {
            return Some((last, position, self.columns[last].entries[position].clone()));
        }
        if last == 0 {
            return None;
        }
        match self.active_child_position(last - 1) {
            Some(position) => {
                proof {
                    assert(self@.columns[last - 1] == self.columns@[last - 1]@);
                }
                Some((last - 1, position, self.columns[last - 1].entries[position].clone()))
            },
            None => None,
        }
    }

    /// The number of the next request.
    fn take_number(&mut self) -> (id: u64)
        requires
            old(self).can_number(1),
        ensures
            final(self)@ == state::numbered(old(self)@),
            id == old(self)@.next_id,
    {
        let id: u64 = self.next_id;
        self.next_id = id + 1;
        id
    }

    /// Gives an entry another name.
    pub fn rename(&mut self, entry: FileEntry, new_name: String) -> (outcome: Outcome)
        requires
            old(self).can_number(1),
        ensures
            flow(final(self)@, outcome) == state::rename(old(self)@, entry@, new_name@),
    {
        let mut out = Outcome::new();
        match validate_rename(new_name.as_str()) {
            Err(error) => {
                proof {
                    assert(flow(self@, out) =~= state::start(self@));
                }
                out.tell(BrowserEvent::RenameFailed { message: error.message() });
            },
            Ok(_) => {
                let id: u64 = self.take_number();
                self.renaming = Some(id);
                proof {
                    assert(flow(self@, out) =~= state::start(self@));
                }
                out.ask(ServiceRequest::Rename(RenameRequest { id, entry, new_name }));
            },
        }
        out
    }

    /// Makes a directory.
    pub fn create_directory(&mut self, parent: Location, name: String) -> (outcome: Outcome)
        requires
            old(self).can_number(1),
        ensures
            flow(final(self)@, outcome) == state::create_directory(old(self)@, parent@, name@),
    {
        let mut out = Outcome::new();
        match validate_rename(name.as_str()) {
            Err(error) => {
                proof {
                    assert(flow(self@, out) =~= state::start(self@));
                }
                out.tell(BrowserEvent::OperationFailed { message: error.message() });
            },
            Ok(_) => {
                let id: u64 = self.take_number();
                proof {
                    assert(flow(self@, out) =~= state::start(self@));
                }
                out.ask(
                    ServiceRequest::CreateDirectory(CreateDirectoryRequest { id, parent, name }),
                );
            },
        }
        out
    }

    /// Copies files into a directory.
    pub fn paste(&mut self, destination: Location, sources: Vec<Location>) -> (outcome: Outcome)
        requires
            old(self).can_number(1),
        ensures
            flow(final(self)@, outcome) == state::transfer(
                old(self)@,
                destination@,
                locations_of(sources@),
                false,
            ),
    {
        self.transfer(destination, sources, false)
    }

    /// Copies or moves files into a directory.
    pub fn transfer(&mut self, destination: Location, sources: Vec<Location>, move_sources: bool) -> (outcome: Outcome)
        requires
            old(self).can_number(1),
        ensures
            flow(final(self)@, outcome) == state::transfer(
                old(self)@,
                destination@,
                locations_of(sources@),
                move_sources,
            ),
    {
        let mut out = Outcome::new();
        let id: u64 = self.take_number();
        proof {
            assert(flow(self@, out) =~= state::start(self@));
        }
        out.ask(ServiceRequest::Paste(PasteRequest { id, destination, sources, move_sources }));
        out
    }

    /// Puts entries in the trash, or deletes them for good.
    pub fn delete(&mut self, entries: Vec<FileEntry>, permanent: bool) -> (outcome: Outcome)
        requires
            old(self).can_number(1),
        ensures
            flow(final(self)@, outcome) == state::delete(
                old(self)@,
                entries_of(entries@),
                permanent,
            ),
    {
        let mut out = Outcome::new();
        let id: u64 = self.take_number();
        proof {
            assert(flow(self@, out) =~= state::start(self@));
        }
        out.ask(ServiceRequest::Delete(DeleteRequest { id, entries, permanent }));
        out
    }

    /// Empties the trash.
    pub fn empty_trash(&mut self) -> (outcome: Outcome)
        requires
            old(self).can_number(1),
        ensures
            flow(final(self)@, outcome) == state::empty_trash(old(self)@),
    {
        let mut out = Outcome::new();
        let id: u64 = self.take_number();
        proof {
            assert(flow(self@, out) =~= state::start(self@));
        }
        out.ask(ServiceRequest::EmptyTrash(EmptyTrashRequest { id }));
        out
    }

    /// Takes in how an operation ended.
    pub fn operation_event(&mut self, event: OperationEvent) -> (outcome: Outcome)
        ensures
            flow(final(self)@, outcome) == state::operation_ended(old(self)@, event@),
    {
        let mut out = Outcome::new();
        proof {
            assert(flow(self@, out) =~= state::start(self@));
        }
        match event {
            OperationEvent::Renamed { request_id } => {
                if self.is_renaming(request_id) {
                    self.renaming = None;
                    proof {
                        assert(flow(self@, out) =~= state::start(self@));
                    }
                    out.tell(BrowserEvent::RenameCompleted);
                }
            },
            OperationEvent::Failed { request_id, message } => {
                if self.is_renaming(request_id) {
                    self.renaming = None;
                    proof {
                        assert(flow(self@, out) =~= state::start(self@));
                    }
                    out.tell(BrowserEvent::RenameFailed { message });
                } else {
                    out.tell(BrowserEvent::OperationFailed { message });
                }
            },
            _ => {},
        }
        out
    }

    /// Whether this is the number of the rename that has not ended.
    fn is_renaming(&self, id: u64) -> (renaming: bool)
        ensures
            renaming == (self@.renaming == Some(id as int)),
    {
        match self.renaming {
            Some(number) => number == id,
            None => false,
        }
    }
}

} // verus!
