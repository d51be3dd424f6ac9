//! The view of a browser: it turns events and gestures into things to do on the screen.
use vstd::prelude::*;
use vstd::string::*;

use crate::browser::{flow, Browser, Outcome};
use crate::dialogs::COLUMN_WIDTH;
use crate::entry::{entries_of, FileEntry, FileEntryView};
use crate::event::{
    events_of, position_of, positions_of, requests_of, splices_of, BrowserEvent, RequestView,
    ServiceRequest, Splice,
};
use crate::labels::filter_placeholder;
use crate::location_bar::location_crumbs;
use crate::model::{Location, LocationView};
use crate::presentation::{unreadable_message, LoadPresentation, PeekBehavior};
use crate::rows::{
    append_entries, appended, copy_texts, entry_model_values, filtered_position_for_source,
    source_position_for_filtered, texts_of,
};
use crate::screen;
use crate::screen::{
    actions_of, ColumnScreen, PeekScreen, Scene, ViewAction, ViewActionView, ViewState,
};
use crate::sort_menu::SortMenu;
use crate::sorting::{insertions_of, spliced, Insertion};
use crate::state;
use crate::state::BrowserState;

pub mod editing;
pub mod menus;
pub mod pointer;

verus! {

/// A column on the screen.
#[derive(Debug)]
struct ColumnView {
    location: Location,
    rows: Vec<String>,
    count: usize,
    placeholder: String,
    query: String,
    presentation: LoadPresentation,
    busy: bool,
    focused: Option<usize>,
    anchor: Option<usize>,
    target: Option<(usize, FileEntry)>,
    sort_menu: SortMenu,
}

/// A peek on the screen.
#[derive(Debug)]
struct PeekView {
    location: Location,
    rows: Vec<String>,
    presentation: LoadPresentation,
    busy: bool,
}

/// A browser, with what is on the screen.
#[derive(Debug)]
pub struct BrowserView {
    browser: Browser,
    columns: Vec<ColumnView>,
    peek: Option<PeekView>,
    pending_peek: Option<(usize, Location)>,
    pending_close: bool,
    anchored: bool,
    peek_enabled: bool,
    renaming: Option<FileEntry>,
    new_folder: Option<(usize, Location)>,
    behavior: PeekBehavior,
    home: Location,
}

/// What an event or a gesture leads to: the things to do on the screen, and the requests to make,
/// each in order.
#[derive(Debug)]
pub struct Effects {
    pub actions: Vec<ViewAction>,
    pub requests: Vec<ServiceRequest>,
}

spec fn target_of(target: Option<(usize, FileEntry)>) -> Option<(int, FileEntryView)> {
    match target {
        Some((position, entry)) => Some((position as int, entry@)),
        None => None,
    }
}

spec fn place_of(place: Option<(usize, Location)>) -> Option<(int, LocationView)> {
    match place {
        Some((depth, location)) => Some((depth as int, location@)),
        None => None,
    }
}

spec fn entry_of(entry: Option<FileEntry>) -> Option<FileEntryView> {
    match entry {
        Some(known) => Some(known@),
        None => None,
    }
}

impl View for ColumnView {
    type V = ColumnScreen;

    closed spec fn view(&self) -> ColumnScreen {
        ColumnScreen {
            location: self.location@,
            rows: texts_of(self.rows@),
            count: self.count as int,
            placeholder: self.placeholder@,
            query: self.query@,
            presentation: self.presentation@,
            busy: self.busy,
            focused: position_of(self.focused),
            anchor: self.anchor,
            target: target_of(self.target),
            sort_menu: self.sort_menu,
        }
    }
}

spec fn columns_of(columns: Seq<ColumnView>) -> Seq<ColumnScreen> {
    columns.map_values(|column: ColumnView| column@)
}

impl View for PeekView {
    type V = PeekScreen;

    closed spec fn view(&self) -> PeekScreen {
        PeekScreen {
            location: self.location@,
            rows: texts_of(self.rows@),
            presentation: self.presentation@,
            busy: self.busy,
        }
    }
}

spec fn peek_of(peek: Option<PeekView>) -> Option<PeekScreen> {
    match peek {
        Some(shown) => Some(shown@),
        None => None,
    }
}

impl View for BrowserView {
    type V = ViewState;

    closed spec fn view(&self) -> ViewState {
        ViewState {
            columns: columns_of(self.columns@),
            peek: peek_of(self.peek),
            pending_peek: place_of(self.pending_peek),
            pending_close: self.pending_close,
            anchored: self.anchored,
            peek_enabled: self.peek_enabled,
            renaming: entry_of(self.renaming),
            new_folder: place_of(self.new_folder),
            behavior: self.behavior,
            home: self.home@,
        }
    }
}

/// The browser, the screen and the effects in one.
pub open spec fn scene(view: BrowserView, effects: Effects) -> Scene {
    Scene {
        browser: view.browser_state(),
        view: view@,
        actions: actions_of(effects.actions@),
        requests: requests_of(effects.requests@),
    }
}

/// The browser and the screen, with nothing to do yet.
pub open spec fn still(view: BrowserView) -> Scene {
    Scene {
        browser: view.browser_state(),
        view: view@,
        actions: Seq::empty(),
        requests: Seq::empty(),
    }
}

impl Effects {
    /// Nothing to do.
    pub fn new() -> (effects: Self)
        ensures
            actions_of(effects.actions@) == Seq::<ViewActionView>::empty(),
            requests_of(effects.requests@) == Seq::<RequestView>::empty(),
    {
        let effects = Effects { actions: Vec::new(), requests: Vec::new() };
        assert(actions_of(effects.actions@) =~= Seq::empty());
        assert(requests_of(effects.requests@) =~= Seq::empty());
        effects
    }

    fn act(&mut self, action: ViewAction)
        ensures
            actions_of(final(self).actions@) == actions_of(old(self).actions@).push(action@),
            final(self).requests == old(self).requests,
    {
        self.actions.push(action);
        assert(actions_of(self.actions@) =~= actions_of(old(self).actions@).push(action@));
    }

    fn ask_all(&mut self, requests: Vec<ServiceRequest>)
        ensures
            requests_of(final(self).requests@) == requests_of(old(self).requests@) + requests_of(
                requests@,
            ),
            final(self).actions == old(self).actions,
    {
        let mut more = requests;
        self.requests.append(&mut more);
        assert(requests_of(self.requests@) =~= requests_of(old(self).requests@) + requests_of(
            requests@,
        ));
    }
}

/// How many entries there are in all runs.
fn entry_total(insertions: &Vec<Insertion>) -> (total: usize)
    ensures
        total == screen::capped(screen::run_total(insertions_of(insertions@)) as int),
{
    let ghost views = insertions_of(insertions@);
    let mut total: usize = 0;
    let mut i: usize = 0;
    assert(views.take(0) =~= Seq::empty());
    while i < insertions.len()
        invariant
            views == insertions_of(insertions@),
            i <= insertions@.len(),
            total == screen::capped(screen::run_total(views.take(i as int)) as int),
        decreases insertions@.len() - i,
    {
        proof {
            let next = views.take(i + 1);
            assert(next.last() == insertions@[i as int]@);
            assert(next.drop_last() =~= views.take(i as int));
            assert(entries_of(insertions@[i as int].entries@).len()
                == insertions@[i as int].entries@.len());
        }
        total = capped_sum(total, insertions[i].entries.len());
        i += 1;
    }
    assert(views.take(i as int) =~= views);
    total
}

/// The sum, or the largest number where the sum is larger.
fn capped_sum(a: usize, b: usize) -> (sum: usize)
    ensures
        sum == screen::capped(a + b),
{
    if a <= usize::MAX - b {
        a + b
    } else {
        usize::MAX
    }
}

/// The texts with `removed` of them from `position` on replaced by others.
fn splice_texts(texts: Vec<String>, position: usize, removed: usize, added: &Vec<String>) -> (result:
    Vec<String>)
    ensures
        texts_of(result@) == spliced(
            texts_of(texts@),
            position as int,
            removed as int,
            texts_of(added@),
        ),
{
    assert(texts_of(texts@).len() == texts@.len());
    if position > texts.len() || removed > texts.len() - position {
        return texts;
    }
    let mut head = texts;
    let mut tail = head.split_off(position + removed);
    head.truncate(position);
    let ghost first = head@;
    let ghost last = tail@;
    let mut more = copy_texts(added);
    let ghost copied = more@;
    head.append(&mut more);
    let ghost both = head@;
    head.append(&mut tail);
    proof {
        let views = texts_of(texts@);
        assert(texts_of(first) =~= views.take(position as int));
        assert(texts_of(last) =~= views.skip(position + removed));
        assert(texts_of(both) =~= texts_of(first) + texts_of(copied));
        assert(texts_of(head@) =~= texts_of(both) + texts_of(last));
    }
    head
}

impl ColumnView {
    /// The row behind a row of the filtered list.
    fn source(&self, row: usize) -> (found: Option<usize>)
        ensures
            position_of(found) == self@.source(row as int),
    {
        source_position_for_filtered(&self.rows, self.query.as_str(), row)
    }

    /// The row of the filtered list that shows a row.
    fn shown(&self, row: usize) -> (found: Option<usize>)
        ensures
            position_of(found) == self@.shown(row as int),
    {
        filtered_position_for_source(&self.rows, self.query.as_str(), row)
    }

    /// The row of the filtered list that shows a row, where there is one.
    fn shown_of(&self, row: Option<usize>) -> (found: Option<usize>)
        ensures
            position_of(found) == self@.shown_of(position_of(row)),
    {
        match row {
            Some(at) => self.shown(at),
            None => None,
        }
    }

    /// The rows of the filtered list that show those rows that the filter shows.
    fn shown_all(&self, rows: &Vec<usize>) -> (found: Vec<usize>)
        ensures
            positions_of(found@) == self@.shown_all(positions_of(rows@)),
    {
        let ghost all = positions_of(rows@);
        let mut found: Vec<usize> = Vec::new();
        let mut i: usize = 0;
        proof {
            assert(all.take(0) =~= Seq::empty());
            assert(positions_of(found@) =~= Seq::empty());
        }
        while i < rows.len()
            invariant
                all == positions_of(rows@),
                i <= rows@.len(),
                positions_of(found@) == self@.shown_all(all.take(i as int)),
            decreases rows@.len() - i,
        {
            let ghost before = found@;
            proof {
                assert(all.take(i + 1).drop_last() =~= all.take(i as int));
                assert(all.take(i + 1).last() == rows@[i as int]);
            }
            if let Some(row) = self.shown(rows[i]) {
                found.push(row);
                assert(positions_of(found@) =~= positions_of(before).push(row as int));
            }
            i += 1;
        }
        assert(all.take(i as int) =~= all);
        found
    }

    /// The rows behind those rows of the filtered list that exist.
    fn sources(&self, rows: &Vec<usize>) -> (found: Vec<usize>)
        ensures
            positions_of(found@) == self@.sources(positions_of(rows@)),
    {
        let ghost all = positions_of(rows@);
        let mut found: Vec<usize> = Vec::new();
        let mut i: usize = 0;
        proof {
            assert(all.take(0) =~= Seq::empty());
            assert(positions_of(found@) =~= Seq::empty());
        }
        while i < rows.len()
            invariant
                all == positions_of(rows@),
                i <= rows@.len(),
                positions_of(found@) == self@.sources(all.take(i as int)),
            decreases rows@.len() - i,
        {
            let ghost before = found@;
            proof {
                assert(all.take(i + 1).drop_last() =~= all.take(i as int));
                assert(all.take(i + 1).last() == rows@[i as int]);
            }
            if let Some(row) = self.source(rows[i]) {
                found.push(row);
                assert(positions_of(found@) =~= positions_of(before).push(row as int));
            }
            i += 1;
        }
        assert(all.take(i as int) =~= all);
        found
    }
}

impl BrowserView {
    /// The state of the browser.
    pub closed spec fn browser_state(&self) -> BrowserState {
        self.browser@
    }

    /// A view of a browser that has opened nothing yet.
    pub fn new(home: Location, peek_behavior: PeekBehavior) -> (view: Self)
        ensures
            view@ == screen::blank(home@, peek_behavior),
            view.browser_state() == state::initial(),
    {
        let view = BrowserView {
            browser: Browser::new(),
            columns: Vec::new(),
            peek: None,
            pending_peek: None,
            pending_close: false,
            anchored: false,
            peek_enabled: true,
            renaming: None,
            new_folder: None,
            behavior: peek_behavior,
            home,
        };
        assert(view@ =~= screen::blank(home@, peek_behavior));
        view
    }

    /// The browser.
    pub fn browser(&self) -> (browser: &Browser)
        ensures
            browser@ == self.browser_state(),
    {
        &self.browser
    }

    /// Whether the name of an entry is edited.
    pub fn rename_is_active(&self) -> (active: bool)
        ensures
            active == self@.renaming is Some,
    {
        self.renaming.is_some()
    }

    /// Whether a folder is to be made.
    pub fn new_folder_is_active(&self) -> (active: bool)
        ensures
            active == self@.new_folder is Some,
    {
        self.new_folder.is_some()
    }

    /// Gives up a peek that has not opened yet.
    fn stop_peek_timer(&mut self, out: &mut Effects)
        ensures
            scene(*final(self), *final(out)) == screen::stop_peek_timer(
                scene(*old(self), *old(out)),
            ),
    {
        if self.pending_peek.is_some() {
            self.pending_peek = None;
            out.act(ViewAction::StopPeekTimer);
        }
    }

    /// Lets a peek stay that would have closed.
    fn stop_close_timer(&mut self, out: &mut Effects)
        ensures
            scene(*final(self), *final(out)) == screen::stop_close_timer(
                scene(*old(self), *old(out)),
            ),
    {
        if self.pending_close {
            self.pending_close = false;
            out.act(ViewAction::StopCloseTimer);
        }
    }

    /// Takes a peek off the screen.
    fn close_peek_visual(&mut self, out: &mut Effects)
        ensures
            scene(*final(self), *final(out)) == screen::close_peek_visual(
                scene(*old(self), *old(out)),
            ),
    {
        proof {
            reveal(screen::close_peek_visual);
        }
        self.stop_peek_timer(out);
        self.stop_close_timer(out);
        if self.peek.is_some() {
            self.peek = None;
            out.act(ViewAction::ClosePeek);
        }
    }

    /// Stops editing a name.
    fn end_rename(&mut self, out: &mut Effects)
        ensures
            scene(*final(self), *final(out)) == screen::cancel_rename(scene(*old(self), *old(out))),
    {
        proof {
            reveal(screen::cancel_rename);
        }
        if self.renaming.is_some() {
            self.renaming = None;
            out.act(ViewAction::EndEditName);
        }
    }

    /// Gives up a folder that was to be made.
    fn end_new_folder(&mut self, out: &mut Effects)
        ensures
            scene(*final(self), *final(out)) == screen::cancel_new_folder(
                scene(*old(self), *old(out)),
            ),
    {
        if let Some((depth, _)) = self.new_folder.take() {
            out.act(ViewAction::EndEditNewFolder { depth });
        }
    }

    /// Takes the columns behind the first `len` off the screen.
    fn truncate(&mut self, len: usize, out: &mut Effects)
        ensures
            scene(*final(self), *final(out)) == screen::truncate(
                scene(*old(self), *old(out)),
                len as int,
            ),
    {
        proof {
            reveal(screen::truncate);
        }
        self.close_peek_visual(out);
        self.end_rename(out);
        self.end_new_folder(out);
        let ghost before = self.columns@;
        assert(columns_of(before).len() == before.len());
        if len < self.columns.len() {
            self.columns.truncate(len);
            assert(columns_of(self.columns@) =~= columns_of(before).take(len as int));
            out.act(ViewAction::RemoveColumns { len });
        }
        assert(columns_of(self.columns@).len() == self.columns@.len());
        if self.columns.len() > 0 {
            out.act(ViewAction::RevealColumn { depth: self.columns.len() - 1 });
        }
    }

    /// Shows a location as a trail.
    fn set_location(&self, location: &Location, out: &mut Effects)
        ensures
            scene(*self, *final(out)) == screen::set_location(scene(*self, *old(out)), location@),
    {
        proof {
            reveal(screen::set_location);
        }
        out.act(
            ViewAction::ShowLocation {
                text: location.display_path(),
                crumbs: location_crumbs(location, &self.home),
            },
        );
    }

    /// Shows the location of the last column as a trail.
    fn sync_active_location(&self, out: &mut Effects)
        ensures
            scene(*self, *final(out)) == screen::sync_active_location(scene(*self, *old(out))),
    {
        proof {
            reveal(screen::sync_active_location);
        }
        if let Some(location) = self.browser.active_location() {
            self.set_location(&location, out);
        }
    }

    /// Marks in each column the row behind which the next column opens.
    fn refresh_active_path_rows(&self, out: &mut Effects)
        ensures
            scene(*self, *final(out)) == screen::refresh_active_path_rows(scene(*self, *old(out))),
    {
        proof {
            reveal(screen::refresh_active_path_rows);
        }
        let ghost before = scene(*self, *out);
        let mut depth: usize = 0;
        assert(columns_of(self.columns@).len() == self.columns@.len());
        while depth < self.columns.len()
            invariant
                before == scene(*self, *old(out)),
                depth <= self.columns@.len(),
                columns_of(self.columns@).len() == self.columns@.len(),
                scene(*self, *out) == screen::mark_first(before, depth as int),
            decreases self.columns@.len() - depth,
        {
            let position = self.browser.active_child_position(depth);
            let row = self.columns[depth].shown_of(position);
            assert(before.view.columns[depth as int] == self.columns@[depth as int]@);
            out.act(ViewAction::MarkActiveRow { depth, active: row });
            depth += 1;
        }
    }

    /// Sets up one more column.
    fn append_column(&mut self, depth: usize, location: Location, out: &mut Effects)
        ensures
            scene(*final(self), *final(out)) == screen::append_column(
                scene(*old(self), *old(out)),
                depth as int,
                location@,
            ),
    {
        proof {
            reveal(screen::append_column);
        }
        let ghost before = self.columns@;
        let index: usize = self.columns.len();
        let heading = location.display_name();
        self.columns.push(
            ColumnView {
                location: location.clone(),
                rows: Vec::new(),
                count: 0,
                placeholder: filter_placeholder(0),
                query: String::new(),
                presentation: LoadPresentation::new(true),
                busy: true,
                focused: None,
                anchor: None,
                target: None,
                sort_menu: SortMenu::new(),
            },
        );
        proof {
            assert(columns_of(before).len() == before.len());
            assert(self.columns@.last()@ =~= screen::fresh_column(location@));
            assert(columns_of(self.columns@) =~= columns_of(before).push(
                screen::fresh_column(location@),
            ));
        }
        out.act(
            ViewAction::AddColumn {
                depth,
                location,
                heading,
                closable: depth > 0,
                width: COLUMN_WIDTH,
                placeholder: filter_placeholder(0),
            },
        );
        self.refresh_active_path_rows(out);
        out.act(ViewAction::RevealColumn { depth: index });
    }

    /// Shows a column in another way.
    fn present(&mut self, depth: usize, presentation: LoadPresentation, out: &mut Effects)
        requires
            depth < old(self)@.columns.len(),
        ensures
            scene(*final(self), *final(out)) == screen::present(
                scene(*old(self), *old(out)),
                depth as int,
                presentation@,
            ),
    {
        let ghost before = self.columns@;
        assert(columns_of(before).len() == before.len());
        self.columns[depth].presentation = presentation.clone();
        proof {
            let column = ColumnScreen { presentation: presentation@, ..before[depth as int]@ };
            assert(self.columns@[depth as int]@ =~= column);
            assert(columns_of(self.columns@) =~= columns_of(before).update(depth as int, column));
        }
        out.act(ViewAction::Present { depth, presentation });
    }

    /// Tells whether a column is being filled.
    fn set_busy(&mut self, depth: usize, busy: bool, out: &mut Effects)
        requires
            depth < old(self)@.columns.len(),
        ensures
            scene(*final(self), *final(out)) == screen::set_busy(
                scene(*old(self), *old(out)),
                depth as int,
                busy,
            ),
    {
        let ghost before = self.columns@;
        assert(columns_of(before).len() == before.len());
        self.columns[depth].busy = busy;
        proof {
            let column = ColumnScreen { busy, ..before[depth as int]@ };
            assert(self.columns@[depth as int]@ =~= column);
            assert(columns_of(self.columns@) =~= columns_of(before).update(depth as int, column));
        }
        out.act(ViewAction::SetBusy { depth, busy });
    }

    /// Replaces rows of a column.
    fn splice_rows(
        &mut self,
        depth: usize,
        position: usize,
        removed: usize,
        rows: Vec<String>,
        out: &mut Effects,
    )
        requires
            depth < old(self)@.columns.len(),
        ensures
            scene(*final(self), *final(out)) == screen::splice_rows(
                scene(*old(self), *old(out)),
                depth as int,
                position as int,
                removed as int,
                texts_of(rows@),
            ),
    {
        let ghost before = self.columns@;
        assert(columns_of(before).len() == before.len());
        let mut all: Vec<String> = Vec::new();
        std::mem::swap(&mut all, &mut self.columns[depth].rows);
        let next = splice_texts(all, position, removed, &rows);
        self.columns[depth].rows = next;
        proof {
            let column = ColumnScreen {
                rows: spliced(
                    before[depth as int]@.rows,
                    position as int,
                    removed as int,
                    texts_of(rows@),
                ),
                ..before[depth as int]@
            };
            assert(self.columns@[depth as int]@ =~= column);
            assert(columns_of(self.columns@) =~= columns_of(before).update(depth as int, column));
        }
        out.act(ViewAction::SpliceRows { depth, position, removed, rows });
    }

    /// Takes down how many entries a column has, and says so where its filter is empty.
    fn set_count(&mut self, depth: usize, count: usize, out: &mut Effects)
        requires
            depth < old(self)@.columns.len(),
        ensures
            scene(*final(self), *final(out)) == screen::set_count(
                scene(*old(self), *old(out)),
                depth as int,
                count as int,
            ),
    {
        let ghost before = self.columns@;
        assert(columns_of(before).len() == before.len());
        let text = filter_placeholder(count);
        self.columns[depth].count = count;
        self.columns[depth].placeholder = text.clone();
        proof {
            let column = ColumnScreen {
                count: count as int,
                placeholder: text@,
                ..before[depth as int]@
            };
            assert(self.columns@[depth as int]@ =~= column);
            assert(columns_of(self.columns@) =~= columns_of(before).update(depth as int, column));
        }
        out.act(ViewAction::SetFilterPlaceholder { depth, text });
    }

    /// How a column is shown.
    fn presentation_at(&self, depth: usize) -> (presentation: LoadPresentation)
        requires
            depth < self@.columns.len(),
        ensures
            presentation@ == self@.columns[depth as int].presentation,
    {
        assert(columns_of(self.columns@).len() == self.columns@.len());
        self.columns[depth].presentation.clone()
    }

    /// How many rows a column has.
    fn row_count(&self, depth: usize) -> (count: usize)
        requires
            depth < self@.columns.len(),
        ensures
            count == self@.columns[depth as int].rows.len(),
    {
        assert(columns_of(self.columns@).len() == self.columns@.len());
        assert(texts_of(self.columns@[depth as int].rows@).len() == self.columns@[depth as int].rows@.len());
        self.columns[depth].rows.len()
    }

    /// How many entries a column has.
    fn entry_count(&self, depth: usize) -> (count: usize)
        requires
            depth < self@.columns.len(),
        ensures
            count == self@.columns[depth as int].count,
    {
        assert(columns_of(self.columns@).len() == self.columns@.len());
        self.columns[depth].count
    }

    /// Takes in runs of entries.
    fn entries_inserted(&mut self, depth: usize, insertions: Vec<Insertion>, out: &mut Effects)
        requires
            depth < old(self)@.columns.len(),
        ensures
            scene(*final(self), *final(out)) == screen::entries_inserted(
                scene(*old(self), *old(out)),
                depth as int,
                insertions_of(insertions@),
            ),
    {
        proof {
            reveal(screen::entries_inserted);
        }
        let ghost views = insertions_of(insertions@);
        let total: usize = entry_total(&insertions);
        let count: usize = capped_sum(self.entry_count(depth), total);
        if total > 0 {
            let mut presentation = self.presentation_at(depth);
            presentation.show_content();
            self.present(depth, presentation, out);
        }
        let ghost shown = scene(*self, *out);
        let mut i: usize = 0;
        assert(views.skip(0) =~= views);
        while i < insertions.len()
            invariant
                views == insertions_of(insertions@),
                i <= insertions@.len(),
                depth < self@.columns.len(),
                screen::insert_runs(shown, depth as int, views) == screen::insert_runs(
                    scene(*self, *out),
                    depth as int,
                    views.skip(i as int),
                ),
            decreases insertions@.len() - i,
        {
            let rows = entry_model_values(&insertions[i].entries);
            proof {
                let rest = views.skip(i as int);
                assert(rest[0] == insertions@[i as int]@);
                assert(rest.drop_first() =~= views.skip(i + 1));
            }
            self.splice_rows(depth, insertions[i].position, 0, rows, out);
            i += 1;
        }
        assert(views.skip(i as int) =~= Seq::empty());
        self.set_count(depth, count, out);
    }

    /// Takes in other entries in the place of all.
    fn entries_replaced(&mut self, depth: usize, entries: Vec<FileEntry>, out: &mut Effects)
        requires
            depth < old(self)@.columns.len(),
        ensures
            scene(*final(self), *final(out)) == screen::entries_replaced(
                scene(*old(self), *old(out)),
                depth as int,
                entries_of(entries@),
            ),
    {
        proof {
            reveal(screen::entries_replaced);
        }
        assert(entries_of(entries@).len() == entries@.len());
        if entries.len() > 0 {
            let mut presentation = self.presentation_at(depth);
            presentation.show_content();
            self.present(depth, presentation, out);
        }
        let rows: usize = self.row_count(depth);
        self.splice_rows(depth, 0, rows, entry_model_values(&entries), out);
        self.set_count(depth, entries.len(), out);
    }

    /// Takes in ranges of entries.
    fn entries_spliced(
        &mut self,
        depth: usize,
        splices: Vec<Splice>,
        selected: Option<usize>,
        out: &mut Effects,
    )
        requires
            depth < old(self)@.columns.len(),
        ensures
            scene(*final(self), *final(out)) == screen::entries_spliced(
                scene(*old(self), *old(out)),
                depth as int,
                splices_of(splices@),
                position_of(selected),
            ),
    {
        proof {
            reveal(screen::entries_spliced);
        }
        let ghost views = splices_of(splices@);
        let ghost start = scene(*self, *out);
        let mut count: usize = self.entry_count(depth);
        let mut i: usize = 0;
        assert(views.take(0) =~= Seq::empty());
        while i < splices.len()
            invariant
                views == splices_of(splices@),
                i <= splices@.len(),
                depth < self@.columns.len(),
                scene(*self, *out) == screen::replace_ranges(
                    start,
                    depth as int,
                    views.take(i as int),
                ),
                count == screen::count_after(
                    start.view.columns[depth as int].count,
                    views.take(i as int),
                ),
            decreases splices@.len() - i,
        {
            let rows = entry_model_values(&splices[i].entries);
            proof {
                let next = views.take(i + 1);
                assert(next.last() == splices@[i as int]@);
                assert(next.drop_last() =~= views.take(i as int));
                assert(entries_of(splices@[i as int].entries@).len()
                    == splices@[i as int].entries@.len());
            }
            let left: usize = if splices[i].removed <= count {
                count - splices[i].removed
            } else {
                0
            };
            count = capped_sum(left, splices[i].entries.len());
            self.splice_rows(depth, splices[i].position, splices[i].removed, rows, out);
            i += 1;
        }
        assert(views.take(i as int) =~= views);
        self.set_count(depth, count, out);
        assert(columns_of(self.columns@).len() == self.columns@.len());
        let mut rows: Vec<usize> = Vec::new();
        if let Some(row) = self.columns[depth].shown_of(selected) {
            rows.push(row);
            assert(positions_of(rows@) =~= seq![row as int]);
        } else {
            assert(positions_of(rows@) =~= Seq::empty());
        }
        out.act(ViewAction::SelectRows { depth, positions: rows });
        let mut presentation = self.presentation_at(depth);
        presentation.show_finished(self.entry_count(depth));
        self.present(depth, presentation, out);
    }

    /// Empties a column that is listed anew.
    fn column_reloaded(&mut self, depth: usize, out: &mut Effects)
        requires
            depth < old(self)@.columns.len(),
        ensures
            scene(*final(self), *final(out)) == screen::column_reloaded(
                scene(*old(self), *old(out)),
                depth as int,
            ),
    {
        proof {
            reveal(screen::column_reloaded);
        }
        let count: usize = self.row_count(depth);
        let rows: Vec<String> = Vec::new();
        assert(texts_of(rows@) =~= Seq::empty());
        self.splice_rows(depth, 0, count, rows, out);
        self.set_count(depth, 0, out);
        self.set_busy(depth, true, out);
        let mut presentation = self.presentation_at(depth);
        presentation.show_loading();
        self.present(depth, presentation, out);
    }

    /// Takes in that a column is filled.
    fn load_finished(&mut self, depth: usize, out: &mut Effects)
        requires
            depth < old(self)@.columns.len(),
        ensures
            scene(*final(self), *final(out)) == screen::load_finished(
                scene(*old(self), *old(out)),
                depth as int,
            ),
    {
        proof {
            reveal(screen::load_finished);
        }
        self.set_busy(depth, false, out);
        let mut presentation = self.presentation_at(depth);
        presentation.show_finished(self.entry_count(depth));
        self.present(depth, presentation, out);
    }

    /// Takes in that a column cannot be filled.
    fn load_failed(&mut self, depth: usize, message: String, out: &mut Effects)
        requires
            depth < old(self)@.columns.len(),
        ensures
            scene(*final(self), *final(out)) == screen::load_failed(
                scene(*old(self), *old(out)),
                depth as int,
                message@,
            ),
    {
        proof {
            reveal(screen::load_failed);
        }
        self.set_busy(depth, false, out);
        let mut presentation = self.presentation_at(depth);
        presentation.show_error(unreadable_message(message.as_str()));
        self.present(depth, presentation, out);
    }

    /// Gives a column the focus, and one of its rows, where the filter shows it.
    fn focus_shown(&self, depth: usize, position: Option<usize>, out: &mut Effects)
        requires
            depth < self@.columns.len(),
        ensures
            scene(*self, *final(out)) == screen::focus_shown(
                scene(*self, *old(out)),
                depth as int,
                position_of(position),
            ),
    {
        proof {
            reveal(screen::focus_shown);
        }
        assert(columns_of(self.columns@).len() == self.columns@.len());
        if let Some(row) = self.columns[depth].shown_of(position) {
            let mut rows: Vec<usize> = Vec::new();
            rows.push(row);
            assert(positions_of(rows@) =~= seq![row as int]);
            out.act(ViewAction::SelectRows { depth, positions: rows });
            out.act(ViewAction::FocusRow { depth, row });
        }
        out.act(ViewAction::FocusColumn { depth });
    }

    /// Takes in what is selected in a column.
    fn selection_set_changed(
        &self,
        depth: usize,
        positions: &Vec<usize>,
        focused: usize,
        out: &mut Effects,
    )
        requires
            depth < self@.columns.len(),
        ensures
            scene(*self, *final(out)) == screen::selection_set_changed(
                scene(*self, *old(out)),
                depth as int,
                positions_of(positions@),
                focused as int,
            ),
    {
        proof {
            reveal(screen::selection_set_changed);
        }
        assert(columns_of(self.columns@).len() == self.columns@.len());
        let rows = self.columns[depth].shown_all(positions);
        out.act(ViewAction::SelectRows { depth, positions: rows });
        if let Some(row) = self.columns[depth].shown(focused) {
            out.act(ViewAction::FocusRow { depth, row });
        }
        out.act(ViewAction::FocusColumn { depth });
    }

    /// Gives the last column the focus.
    fn focus_active(&self, out: &mut Effects)
        ensures
            scene(*self, *final(out)) == screen::focus_active(scene(*self, *old(out))),
    {
        proof {
            reveal(screen::focus_active);
        }
        if let Some(depth) = self.browser.active_depth() {
            assert(columns_of(self.columns@).len() == self.columns@.len());
            if depth < self.columns.len() {
                let position = self.browser.focused_position(depth);
                self.focus_shown(depth, position, out);
            }
            self.refresh_active_path_rows(out);
        }
    }

    /// Ends the peek of the browser, and takes it off the screen.
    fn end_peek(&mut self, out: &mut Effects)
        ensures
            scene(*final(self), *final(out)) == screen::end_peek(scene(*old(self), *old(out))),
    {
        proof {
            reveal(screen::end_peek);
        }
        let outcome = self.browser.close_peek();
        assert(events_of(outcome.events@).len() == outcome.events@.len());
        let closed = outcome.events.len() > 0;
        out.ask_all(outcome.requests);
        if closed {
            self.close_peek_visual(out);
            self.refresh_active_path_rows(out);
        }
    }

    /// Sets up a peek beside the row that the pointer rests on.
    fn append_peek(&mut self, location: Location, out: &mut Effects)
        ensures
            scene(*final(self), *final(out)) == screen::append_peek(
                scene(*old(self), *old(out)),
                location@,
            ),
    {
        proof {
            reveal(screen::append_peek);
        }
        let anchored = self.anchored;
        self.anchored = false;
        self.close_peek_visual(out);
        if anchored {
            let heading = location.display_name();
            let peek = PeekView {
                location: location.clone(),
                rows: Vec::new(),
                presentation: LoadPresentation::new(false),
                busy: true,
            };
            assert(peek@.rows =~= Seq::empty());
            self.peek = Some(peek);
            out.act(ViewAction::ShowPeek { location, heading });
        } else {
            self.end_peek(out);
        }
    }

    /// Shows the peek in another way.
    fn present_peek(&mut self, presentation: LoadPresentation, out: &mut Effects)
        requires
            old(self)@.peek is Some,
        ensures
            scene(*final(self), *final(out)) == screen::present_peek(
                scene(*old(self), *old(out)),
                presentation@,
            ),
    {
        if let Some(peek) = &mut self.peek {
            peek.presentation = presentation.clone();
        }
        out.act(ViewAction::PresentPeek { presentation });
    }

    /// How the peek is shown, and how many rows it has.
    fn peek_shown(&self) -> (shown: (LoadPresentation, usize))
        requires
            self@.peek is Some,
        ensures
            shown.0@ == self@.peek->0.presentation,
            shown.1 == self@.peek->0.rows.len(),
    {
        match &self.peek {
            Some(peek) => {
                assert(texts_of(peek.rows@).len() == peek.rows@.len());
                (peek.presentation.clone(), peek.rows.len())
            },
            None => unreached(),
        }
    }

    /// Tells that the peek is filled no further.
    fn peek_idle(&mut self, out: &mut Effects)
        requires
            old(self)@.peek is Some,
        ensures
            scene(*final(self), *final(out)) == screen::peek_idle(scene(*old(self), *old(out))),
    {
        if let Some(peek) = &mut self.peek {
            peek.busy = false;
        }
        out.act(ViewAction::SetPeekBusy { busy: false });
    }

    /// Puts as many entries into the peek as fit.
    fn append_entries(&mut self, entries: Vec<FileEntry>, out: &mut Effects)
        requires
            old(self)@.peek is Some,
        ensures
            scene(*final(self), *final(out)) == screen::append_entries(
                scene(*old(self), *old(out)),
                entries_of(entries@),
            ),
    {
        let limit = Some(self.behavior.item_limit);
        let ghost before = self@.peek->0;
        let mut rows: Vec<String> = Vec::new();
        if let Some(peek) = &mut self.peek {
            assert(texts_of(peek.rows@).len() == peek.rows@.len());
            rows = append_entries(&mut peek.rows, entries, limit);
        }
        assert(self@.peek->0 =~= PeekScreen {
            rows: appended(before.rows, entries_of(entries@), position_of(limit)),
            ..before
        });
        out.act(ViewAction::AppendPeekRows { rows });
    }

    /// Takes in entries of a peek.
    fn peek_entries_added(&mut self, entries: Vec<FileEntry>, out: &mut Effects)
        requires
            old(self)@.peek is Some,
        ensures
            scene(*final(self), *final(out)) == screen::peek_entries_added(
                scene(*old(self), *old(out)),
                entries_of(entries@),
            ),
    {
        proof {
            reveal(screen::peek_entries_added);
        }
        assert(entries_of(entries@).len() == entries@.len());
        if entries.len() > 0 {
            let (mut presentation, _) = self.peek_shown();
            presentation.show_content();
            self.present_peek(presentation, out);
        }
        self.append_entries(entries, out);
    }

    /// Takes in that a peek is filled.
    fn peek_finished(&mut self, out: &mut Effects)
        requires
            old(self)@.peek is Some,
        ensures
            scene(*final(self), *final(out)) == screen::peek_finished(scene(*old(self), *old(out))),
    {
        proof {
            reveal(screen::peek_finished);
        }
        self.peek_idle(out);
        let (mut presentation, count) = self.peek_shown();
        presentation.show_finished(count);
        self.present_peek(presentation, out);
    }

    /// Takes in that a peek cannot be filled.
    fn peek_failed(&mut self, message: String, out: &mut Effects)
        requires
            old(self)@.peek is Some,
        ensures
            scene(*final(self), *final(out)) == screen::peek_failed(
                scene(*old(self), *old(out)),
                message@,
            ),
    {
        proof {
            reveal(screen::peek_failed);
        }
        self.peek_idle(out);
        let (mut presentation, _) = self.peek_shown();
        presentation.show_error(unreadable_message(message.as_str()));
        self.present_peek(presentation, out);
    }

    /// Takes in an event.
    fn take_event(&mut self, event: BrowserEvent, out: &mut Effects)
        ensures
            scene(*final(self), *final(out)) == screen::handle(scene(*old(self), *old(out)), event@),
    {
        assert(columns_of(self.columns@).len() == self.columns@.len());
        match event {
            BrowserEvent::Reset => {
                self.truncate(0, out);
                out.act(ViewAction::ClearLocationError);
            },
            BrowserEvent::ColumnsTruncated { len } => {
                self.truncate(len, out);
                self.sync_active_location(out);
            },
            BrowserEvent::ColumnAdded { depth, location } => {
                self.set_location(&location, out);
                out.act(ViewAction::ClearLocationError);
                self.append_column(depth, location, out);
            },
            BrowserEvent::EntriesInserted { depth, insertions } => {
                if depth < self.columns.len() {
                    self.entries_inserted(depth, insertions, out);
                }
            },
            BrowserEvent::EntriesReplaced { depth, entries } => {
                if depth < self.columns.len() {
                    self.entries_replaced(depth, entries, out);
                }
            },
            BrowserEvent::EntriesSpliced { depth, splices, selected } => {
                if depth < self.columns.len() {
                    self.entries_spliced(depth, splices, selected, out);
                }
            },
            BrowserEvent::ColumnReloaded { depth } => {
                if depth < self.columns.len() {
                    self.column_reloaded(depth, out);
                }
            },
            BrowserEvent::LoadFinished { depth } => {
                if depth < self.columns.len() {
                    self.load_finished(depth, out);
                }
            },
            BrowserEvent::LoadFailed { depth, message } => {
                if depth < self.columns.len() {
                    self.load_failed(depth, message, out);
                }
            },
            BrowserEvent::PeekStarted { location } => {
                self.append_peek(location, out);
            },
            BrowserEvent::PeekEntriesAdded { entries } => {
                if self.peek.is_some() {
                    self.peek_entries_added(entries, out);
                }
            },
            BrowserEvent::PeekFinished => {
                if self.peek.is_some() {
                    self.peek_finished(out);
                }
            },
            BrowserEvent::PeekFailed { message } => {
                if self.peek.is_some() {
                    self.peek_failed(message, out);
                }
            },
            BrowserEvent::PeekClosed => {
                self.close_peek_visual(out);
            },
            BrowserEvent::SelectionSetChanged { depth, positions, focused } => {
                if depth < self.columns.len() {
                    self.selection_set_changed(depth, &positions, focused, out);
                }
            },
            BrowserEvent::FocusChanged { depth, position } => {
                if depth < self.columns.len() {
                    self.focus_shown(depth, position, out);
                }
            },
            BrowserEvent::PreviewRequested { .. } => {},
            BrowserEvent::OpenRequested { location } => {
                out.act(ViewAction::OpenFile { location });
            },
            BrowserEvent::RenameCompleted => {
                self.end_rename(out);
                self.focus_active(out);
            },
            BrowserEvent::RenameFailed { message } => {
                if self.renaming.is_some() {
                    out.act(ViewAction::RejectName { message });
                }
            },
            BrowserEvent::OperationFailed { message } => {
                out.act(
                    ViewAction::ShowError {
                        message: "Unable to complete operation".to_owned(),
                        detail: message,
                    },
                );
            },
            BrowserEvent::NavigationRejected { message } => {
                out.act(
                    ViewAction::ShowError {
                        message: "Unable to open directory".to_owned(),
                        detail: message,
                    },
                );
            },
        }
        self.refresh_active_path_rows(out);
    }

    /// Takes in what a command of the browser led to.
    fn take_outcome(&mut self, outcome: Outcome, out: &mut Effects)
        ensures
            scene(*final(self), *final(out)) == screen::show(
                scene(*old(self), *old(out)),
                flow(old(self).browser_state(), outcome),
            ),
    {
        out.ask_all(outcome.requests);
        let ghost start = scene(*self, *out);
        let ghost all = events_of(outcome.events@);
        let mut events = outcome.events;
        while events.len() > 0
            invariant
                screen::handle_all(start, all) == screen::handle_all(
                    scene(*self, *out),
                    events_of(events@),
                ),
            decreases events@.len(),
        {
            let ghost rest = events_of(events@);
            let event = events.remove(0);
            proof {
                assert(rest[0] == event@);
                assert(rest.drop_first() =~= events_of(events@));
            }
            self.take_event(event, out);
        }
        assert(events_of(events@) =~= Seq::empty());
    }

    /// Takes in an event.
    pub fn handle(&mut self, event: BrowserEvent) -> (effects: Effects)
        ensures
            scene(*final(self), effects) == screen::handle(still(*old(self)), event@),
    {
        let mut out = Effects::new();
        self.take_event(event, &mut out);
        out
    }

    /// The browser, to give it a command. What the command leads to is to be shown.
    pub fn browser_mut(&mut self) -> (browser: &mut Browser)
        ensures
            browser@ == old(self).browser_state(),
            final(self).browser_state() == final(browser)@,
            final(self)@ == old(self)@,
    {
        &mut self.browser
    }

    /// Shows what a command of the browser led to.
    pub fn show(&mut self, outcome: Outcome) -> (effects: Effects)
        ensures
            scene(*final(self), effects) == screen::show(
                still(*old(self)),
                flow(old(self).browser_state(), outcome),
            ),
    {
        let mut out = Effects::new();
        self.take_outcome(outcome, &mut out);
        out
    }
}

} // verus!
