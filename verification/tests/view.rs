//! The view of a browser, on a screen in memory.
use strata::entry::{EntryKind, FileEntry, MetadataValue};
use strata::event::{
    BrowserEvent, DirectoryChange, DirectoryEvent, DirectoryRequest, OperationEvent,
    ServiceRequest, Splice,
};
use strata::model::Location;
use strata::names::LocationValidationError;
use strata::order::SortKey;
use strata::pointing::RowSelection;
use strata::presentation::{LoadPresentation, Page, PeekBehavior};
use strata::rows::{entry_model_value, Icon};
use strata::screen::ViewAction;
use strata::sort_menu::{sort_fields, SortMarks, SortMenu};
use strata::sorting::Insertion;
use strata::view::{BrowserView, Effects};

fn local(path: &str) -> Location {
    Location::local(path.as_bytes().to_vec())
}

fn entry(path: &str, kind: EntryKind, size: u64) -> FileEntry {
    let name = path.rsplit('/').next().unwrap_or(path);
    FileEntry {
        location: local(path),
        native_name: name.as_bytes().to_vec(),
        display_name: name.to_string(),
        kind,
        size: MetadataValue::Known(size),
        modified_unix_seconds: MetadataValue::Unknown,
    }
}

fn file(path: &str) -> FileEntry {
    entry(path, EntryKind::File, 10)
}

fn folder(path: &str) -> FileEntry {
    entry(path, EntryKind::Directory, 0)
}

#[derive(Default)]
struct Column {
    rows: Vec<String>,
    selected: Vec<usize>,
    busy: bool,
    page: Option<LoadPresentation>,
    placeholder: String,
    active: Option<usize>,
}

#[derive(Default)]
struct Screen {
    columns: Vec<Column>,
    peek: Option<Column>,
    trail: Vec<String>,
    location_error: Option<String>,
    dialogs: Vec<(String, String)>,
    opened: Vec<Location>,
    edited: Option<(usize, usize, String, i32)>,
    rejected: Option<String>,
    focus: Option<usize>,
    timers: Vec<&'static str>,
}

struct Desk {
    view: BrowserView,
    screen: Screen,
    /// Listings that were asked for and have not been answered.
    asked: Vec<DirectoryRequest>,
    requests: Vec<ServiceRequest>,
}

impl Desk {
    fn new() -> Self {
        Desk {
            view: BrowserView::new(local("/home/ada"), PeekBehavior::default()),
            screen: Screen::default(),
            asked: Vec::new(),
            requests: Vec::new(),
        }
    }

    fn take(&mut self, effects: Effects) {
        for action in effects.actions {
            self.act(action);
        }
        for request in effects.requests {
            match request {
                ServiceRequest::Enumerate(asked) => self.asked.push(asked),
                other => self.requests.push(other),
            }
        }
        self.compare();
    }

    fn act(&mut self, action: ViewAction) {
        let screen = &mut self.screen;
        match action {
            ViewAction::RemoveColumns { len } => screen.columns.truncate(len),
            ViewAction::AddColumn { depth, closable, width, placeholder, .. } => {
                assert_eq!(depth, screen.columns.len());
                assert_eq!(closable, depth > 0);
                assert_eq!(width, 300);
                assert_eq!(placeholder, "Filter 0 items…");
                screen.columns.push(Column { busy: true, placeholder, ..Column::default() });
            }
            ViewAction::RevealColumn { depth } => assert!(depth < screen.columns.len()),
            ViewAction::ShowLocation { crumbs, .. } => {
                screen.trail = crumbs.into_iter().map(|crumb| crumb.label).collect();
            }
            ViewAction::ShowLocationError { message } => screen.location_error = Some(message),
            ViewAction::ClearLocationError => screen.location_error = None,
            ViewAction::SpliceRows { depth, position, removed, rows } => {
                screen.columns[depth].rows.splice(position..position + removed, rows);
            }
            ViewAction::SetFilterPlaceholder { depth, text } => {
                screen.columns[depth].placeholder = text;
            }
            ViewAction::Present { depth, presentation } => {
                screen.columns[depth].page = Some(presentation);
            }
            ViewAction::SetBusy { depth, busy } => screen.columns[depth].busy = busy,
            ViewAction::SelectRows { depth, positions } => screen.columns[depth].selected = positions,
            ViewAction::FocusColumn { depth } => screen.focus = Some(depth),
            ViewAction::MarkActiveRow { depth, active } => screen.columns[depth].active = active,
            ViewAction::ShowPeek { .. } => {
                screen.peek = Some(Column { busy: true, ..Column::default() });
            }
            ViewAction::AppendPeekRows { rows } => {
                screen.peek.as_mut().unwrap().rows.extend(rows);
            }
            ViewAction::PresentPeek { presentation } => {
                screen.peek.as_mut().unwrap().page = Some(presentation);
            }
            ViewAction::SetPeekBusy { busy } => screen.peek.as_mut().unwrap().busy = busy,
            ViewAction::ClosePeek => screen.peek = None,
            ViewAction::StartPeekTimer { delay } => {
                assert_eq!(delay, 180);
                screen.timers.push("peek");
            }
            ViewAction::StopPeekTimer => screen.timers.retain(|timer| *timer != "peek"),
            ViewAction::StartCloseTimer { delay } => {
                assert_eq!(delay, 80);
                screen.timers.push("close");
            }
            ViewAction::StopCloseTimer => screen.timers.retain(|timer| *timer != "close"),
            ViewAction::OpenFile { location } => screen.opened.push(location),
            ViewAction::EditName { depth, row, name, selected } => {
                screen.edited = Some((depth, row, name, selected));
            }
            ViewAction::RejectName { message } => screen.rejected = Some(message),
            ViewAction::EndEditName => screen.edited = None,
            ViewAction::ShowError { message, detail } => screen.dialogs.push((message, detail)),
            _ => {}
        }
    }

    /// The screen shows what the browser holds.
    fn compare(&self) {
        let browser = self.view.browser();
        assert_eq!(browser.column_count(), self.screen.columns.len());
        for (depth, column) in self.screen.columns.iter().enumerate() {
            let mut held = Vec::new();
            while let Some(entry) = browser.entry_at(depth, held.len()) {
                held.push(entry_model_value(&entry));
            }
            assert_eq!(held, column.rows);
        }
    }

    fn navigate(&mut self, path: &str) {
        let effects = self.view.navigate(path.as_bytes().to_vec());
        self.take(effects);
    }

    fn deliver(&mut self, entries: Vec<FileEntry>) {
        let request_id = self.asked.last().unwrap().id;
        let outcome = self.view.browser_mut().directory_event(DirectoryEvent::Batch { request_id, entries });
        let effects = self.view.show(outcome);
        self.take(effects);
    }

    fn finish(&mut self) {
        let request_id = self.asked.pop().unwrap().id;
        let outcome = self.view.browser_mut().directory_event(DirectoryEvent::Finished { request_id });
        let effects = self.view.show(outcome);
        self.take(effects);
    }

    fn fail(&mut self, message: &str) {
        let request_id = self.asked.pop().unwrap().id;
        let outcome = self
            .view
            .browser_mut()
            .directory_event(DirectoryEvent::Failed { request_id, message: message.to_string() });
        let effects = self.view.show(outcome);
        self.take(effects);
    }

    fn open(&mut self, path: &str, entries: Vec<FileEntry>) {
        self.navigate(path);
        self.deliver(entries);
        self.finish();
    }

    fn descend(&mut self, depth: usize, path: &str, entries: Vec<FileEntry>) {
        let outcome = self.view.browser_mut().descend(depth, local(path), Ok(()));
        let effects = self.view.show(outcome);
        self.take(effects);
        self.deliver(entries);
        self.finish();
    }

    fn select(&mut self, depth: usize, rows: Vec<usize>) {
        let count = 100;
        self.view.selection_changed(depth, &rows, 0, count);
    }

    fn drawn(&self) -> Vec<Vec<usize>> {
        self.screen.columns.iter().map(|column| (0..column.rows.len()).collect()).collect()
    }

    fn names(&self, depth: usize) -> Vec<&str> {
        self.screen.columns[depth].rows.iter().map(|row| &row[2..]).collect()
    }
}

fn home() -> Desk {
    let mut desk = Desk::new();
    desk.open(
        "/home/ada",
        vec![folder("/home/ada/music"), file("/home/ada/b.txt"), file("/home/ada/Alpha.rs")],
    );
    desk
}

#[test]
fn the_screen_follows_batches_and_changes() {
    let mut desk = Desk::new();
    desk.navigate("/home/ada");
    desk.deliver(vec![file("/home/ada/m"), folder("/home/ada/z")]);
    desk.deliver(vec![file("/home/ada/a"), file("/home/ada/q"), folder("/home/ada/c")]);
    assert_eq!(desk.names(0), vec!["c", "z", "a", "m", "q"]);
    assert!(desk.screen.columns[0].busy);
    assert_eq!(desk.screen.columns[0].placeholder, "Filter 5 items…");
    let id = desk.asked[0].id;
    desk.finish();
    assert!(!desk.screen.columns[0].busy);
    let change = |desk: &mut Desk, change: DirectoryChange| {
        let outcome = desk.view.browser_mut().directory_changed(id, change);
        let effects = desk.view.show(outcome);
        desk.take(effects);
    };
    change(&mut desk, DirectoryChange::Upsert(file("/home/ada/b")));
    assert_eq!(desk.names(0), vec!["c", "z", "a", "b", "m", "q"]);
    change(&mut desk, DirectoryChange::Removed(local("/home/ada/m")));
    change(&mut desk, DirectoryChange::Moved { from: local("/home/ada/a"), entry: file("/home/ada/x") });
    assert_eq!(desk.names(0), vec!["c", "z", "b", "q", "x"]);
    let effects = desk.view.choose_sort_direction(0, true);
    desk.take(effects);
    assert_eq!(desk.names(0), vec!["z", "c", "x", "q", "b"]);
    let effects = desk.view.toggle_folders_first(0);
    desk.take(effects);
    assert_eq!(desk.names(0), vec!["z", "x", "q", "c", "b"]);
    let effects = desk.view.toggle_folders_first(0);
    desk.take(effects);
    assert_eq!(desk.names(0), vec!["z", "c", "x", "q", "b"]);
    let effects = desk.view.choose_sort_key(0, SortKey::Size);
    desk.take(effects);
    let outcome = desk.view.browser_mut().toggle_hidden();
    let effects = desk.view.show(outcome);
    desk.take(effects);
    assert!(desk.names(0).is_empty() && desk.screen.columns[0].busy);
}

#[test]
fn columns_come_and_go() {
    let mut desk = home();
    assert_eq!(desk.screen.trail, vec!["~"]);
    desk.descend(0, "/home/ada/music", vec![folder("/home/ada/music/new")]);
    desk.descend(1, "/home/ada/music/new", vec![file("/home/ada/music/new/a.mp3")]);
    assert_eq!(desk.screen.trail, vec!["~", "music", "new"]);
    assert_eq!(desk.screen.columns[0].active, Some(0));
    assert_eq!(desk.screen.columns[1].active, Some(0));
    assert_eq!(desk.screen.columns[2].active, None);
    let outcome = desk.view.browser_mut().close_column(1);
    let effects = desk.view.show(outcome);
    desk.take(effects);
    assert_eq!(desk.screen.columns.len(), 1);
    assert_eq!(desk.screen.trail, vec!["~"]);
    assert_eq!(desk.screen.columns[0].active, None);
    let outcome = desk.view.browser_mut().back();
    let effects = desk.view.show(outcome);
    desk.take(effects);
    assert_eq!(desk.screen.trail, vec!["~", "music"]);
}

#[test]
fn loading_empty_and_failed_columns_look_different() {
    let mut desk = Desk::new();
    desk.navigate("/srv");
    assert!(desk.screen.columns[0].page.is_none() && desk.screen.columns[0].busy);
    desk.finish();
    let page = desk.screen.columns[0].page.clone().unwrap();
    assert!(page.page == Page::Feedback && !page.error && !page.retry_shown);
    let outcome = desk.view.browser_mut().retry_column(0);
    let effects = desk.view.show(outcome);
    desk.take(effects);
    assert_eq!(desk.screen.columns[0].page.clone().unwrap().page, Page::Loading);
    desk.fail("gone");
    let page = desk.screen.columns[0].page.clone().unwrap();
    assert!(page.page == Page::Feedback && page.error && page.retry_shown);
    assert_eq!(page.message, "Unable to read this directory\ngone");
    let outcome = desk.view.browser_mut().retry_column(0);
    let effects = desk.view.show(outcome);
    desk.take(effects);
    desk.deliver(vec![file("/srv/a")]);
    assert_eq!(desk.screen.columns[0].page.clone().unwrap().page, Page::Content);
}

#[test]
fn a_folder_is_looked_into_once_the_pointer_rests() {
    let mut desk = home();
    let effects = desk.view.row_entered(0, 0);
    desk.take(effects);
    assert_eq!(desk.screen.timers, vec!["peek"]);
    desk.screen.timers.clear();
    let effects = desk.view.peek_due();
    desk.take(effects);
    assert!(desk.screen.peek.is_some());
    let entries = (0..20).map(|n| file(&format!("/home/ada/music/{n}"))).collect();
    desk.deliver(entries);
    assert_eq!(desk.screen.peek.as_ref().unwrap().rows.len(), 8);
    desk.deliver(vec![file("/home/ada/music/more")]);
    assert_eq!(desk.screen.peek.as_ref().unwrap().rows.len(), 8);
    desk.finish();
    assert!(!desk.screen.peek.as_ref().unwrap().busy);
    assert_eq!(desk.screen.columns.len(), 1);
    let effects = desk.view.row_entered(0, 0);
    desk.take(effects);
    assert!(desk.screen.timers.is_empty());
    let effects = desk.view.pointer_left();
    desk.take(effects);
    assert_eq!(desk.screen.timers, vec!["close"]);
    let effects = desk.view.peek_entered();
    desk.take(effects);
    assert!(desk.screen.timers.is_empty());
    let effects = desk.view.close_due();
    desk.take(effects);
    assert!(desk.screen.peek.is_none());
}

#[test]
fn a_peek_always_has_room_for_one_row() {
    let behavior = PeekBehavior { item_limit: 0, ..PeekBehavior::default() };
    let mut desk = Desk::new();
    desk.view = BrowserView::new(local("/home/ada"), behavior);
    desk.open("/home/ada", vec![folder("/home/ada/music")]);
    let effects = desk.view.row_entered(0, 0);
    desk.take(effects);
    let effects = desk.view.peek_due();
    desk.take(effects);
    desk.deliver(vec![file("/home/ada/music/a"), file("/home/ada/music/b")]);
    assert_eq!(desk.screen.peek.as_ref().unwrap().rows.len(), 1);
}

#[test]
fn a_peek_that_cannot_be_read_says_so() {
    let mut desk = home();
    let effects = desk.view.row_entered(0, 0);
    desk.take(effects);
    let effects = desk.view.peek_due();
    desk.take(effects);
    desk.fail("locked");
    let page = desk.screen.peek.as_ref().unwrap().page.clone().unwrap();
    assert_eq!(page.message, "Unable to read this directory\nlocked");
    assert!(page.error && !page.retry_shown);
}

#[test]
fn a_file_ends_a_peek() {
    let mut desk = home();
    let effects = desk.view.row_entered(0, 0);
    desk.take(effects);
    let effects = desk.view.row_entered(0, 1);
    desk.take(effects);
    assert!(desk.screen.timers.is_empty());
    let effects = desk.view.peek_due();
    desk.take(effects);
    assert!(desk.screen.peek.is_none());
}

#[test]
fn peeks_can_be_switched_off() {
    let mut desk = home();
    let effects = desk.view.row_entered(0, 0);
    desk.take(effects);
    let effects = desk.view.set_peek_enabled(false);
    desk.take(effects);
    assert!(desk.screen.timers.is_empty());
    let effects = desk.view.row_entered(0, 0);
    desk.take(effects);
    assert!(desk.screen.timers.is_empty());
}

#[test]
fn a_peek_without_a_row_beside_it_ends_at_once() {
    let mut desk = home();
    let outcome = desk.view.browser_mut().begin_peek(0, local("/home/ada/music"));
    let effects = desk.view.show(outcome);
    desk.take(effects);
    assert!(desk.screen.peek.is_none());
    assert!(desk.requests.iter().any(|request| matches!(request, ServiceRequest::CancelLoad { .. })));
}

#[test]
fn selected_rows_are_selected_entries() {
    let mut desk = home();
    desk.select(0, vec![0, 2]);
    let names: Vec<String> = desk
        .view
        .browser()
        .selected_entries()
        .into_iter()
        .map(|entry| entry.display_name)
        .collect();
    assert_eq!(names, vec!["music", "b.txt"]);
    assert_eq!(desk.view.browser().focused_position(0), Some(2));
}

#[test]
fn a_filter_moves_rows_together() {
    let mut desk = home();
    assert_eq!(desk.names(0), vec!["music", "Alpha.rs", "b.txt"]);
    desk.view.set_query(0, "ALPHA");
    assert!(desk.view.shows_row(0, "f\tAlpha.rs"));
    assert!(!desk.view.shows_row(0, "f\tb.txt"));
    desk.select(0, vec![0]);
    assert_eq!(desk.view.browser().selected_entries()[0].display_name, "Alpha.rs");
    let outcome = desk.view.browser_mut().select(0, 1);
    let effects = desk.view.show(outcome);
    desk.take(effects);
    assert_eq!(desk.screen.columns[0].selected, vec![0]);
    let (dismissed, effects) = desk.view.dismiss_focused_filter(Some(0));
    desk.take(effects);
    assert!(dismissed);
    assert_eq!(desk.screen.focus, Some(0));
    assert!(desk.view.shows_row(0, "f\tb.txt"));
    let (dismissed, _) = desk.view.dismiss_focused_filter(None);
    assert!(!dismissed);
}

#[test]
fn sorting_keeps_the_selection() {
    let mut desk = home();
    desk.select(0, vec![1]);
    let effects = desk.view.choose_sort_direction(0, true);
    desk.take(effects);
    assert_eq!(desk.names(0), vec!["music", "b.txt", "Alpha.rs"]);
    assert_eq!(desk.screen.columns[0].selected, vec![2]);
}

#[test]
fn pressing_rows_previews_and_opens() {
    let mut desk = home();
    assert_eq!(desk.view.press(0, 1, false, false, false), RowSelection::Only { row: 1 });
    let effects = desk.view.row_pressed(0, 1, 1, false, false);
    desk.take(effects);
    assert!(desk.screen.opened.is_empty());
    let effects = desk.view.row_pressed(0, 1, 2, false, false);
    desk.take(effects);
    assert!(desk.screen.opened == vec![local("/home/ada/Alpha.rs")]);
    let before = desk.requests.len();
    let effects = desk.view.row_pressed(0, 0, 1, true, false);
    desk.take(effects);
    assert_eq!(desk.requests.len(), before);
    let effects = desk.view.row_pressed(0, 0, 1, false, false);
    desk.take(effects);
    assert!(matches!(desk.requests.last(), Some(ServiceRequest::Validate { depth: 0, .. })));
    assert_eq!(desk.view.press(0, 2, false, true, false), RowSelection::Range { start: 1, count: 2 });
    desk.view.background_pressed(0);
    assert_eq!(desk.view.press(0, 2, false, true, false), RowSelection::Range { start: 2, count: 1 });
}

#[test]
fn all_rows_of_the_last_column_are_selected() {
    let mut desk = home();
    desk.descend(0, "/home/ada/music", vec![file("/home/ada/music/a")]);
    let effects = desk.view.select_all();
    assert!(matches!(effects.actions[0], ViewAction::SelectAllRows { depth: 1 }));
    assert!(Desk::new().view.select_all().actions.is_empty());
}

#[test]
fn names_are_edited_in_their_rows() {
    let mut desk = home();
    desk.select(0, vec![1]);
    let drawn = desk.drawn();
    let (begun, effects) = desk.view.begin_rename(&drawn);
    desk.take(effects);
    assert!(begun && desk.view.rename_is_active());
    assert_eq!(desk.screen.edited, Some((0, 1, "Alpha.rs".to_string(), 5)));
    let effects = desk.view.submit_rename(true, "a/b".to_string());
    desk.take(effects);
    assert_eq!(desk.screen.rejected.as_deref(), Some("A name cannot contain a slash"));
    assert!(desk.view.rename_is_active());
    let effects = desk.view.submit_rename(true, "Beta.rs".to_string());
    desk.take(effects);
    let id = match desk.requests.last() {
        Some(ServiceRequest::Rename(request)) => {
            assert_eq!(request.new_name, "Beta.rs");
            request.id
        }
        other => panic!("no rename: {other:?}"),
    };
    let outcome = desk.view.browser_mut().operation_event(OperationEvent::Renamed { request_id: id });
    let effects = desk.view.show(outcome);
    desk.take(effects);
    assert!(!desk.view.rename_is_active() && desk.screen.edited.is_none());
}

#[test]
fn an_unchanged_name_is_not_given_anew() {
    let mut desk = home();
    desk.select(0, vec![1]);
    let drawn = desk.drawn();
    let (_, effects) = desk.view.begin_rename(&drawn);
    desk.take(effects);
    let effects = desk.view.submit_rename(false, "Other".to_string());
    desk.take(effects);
    assert!(desk.view.rename_is_active());
    let requests = desk.requests.len();
    let effects = desk.view.submit_rename(true, "Alpha.rs".to_string());
    desk.take(effects);
    assert!(!desk.view.rename_is_active());
    assert_eq!(desk.requests.len(), requests);
}

#[test]
fn a_name_that_is_not_drawn_is_not_edited() {
    let mut desk = home();
    desk.select(0, vec![1]);
    let (begun, effects) = desk.view.begin_rename(&vec![vec![0, 2]]);
    desk.take(effects);
    assert!(!begun && !desk.view.rename_is_active());
    desk.view.set_query(0, "music");
    let drawn = desk.drawn();
    let (begun, _) = desk.view.begin_rename(&drawn);
    assert!(!begun);
}

#[test]
fn a_name_and_a_folder_are_not_edited_at_once() {
    let mut desk = home();
    desk.select(0, vec![1]);
    let drawn = desk.drawn();
    let (_, effects) = desk.view.begin_rename(&drawn);
    desk.take(effects);
    let effects = desk.view.create_new_folder(None);
    desk.take(effects);
    assert!(!desk.view.rename_is_active() && desk.view.new_folder_is_active());
    let (_, effects) = desk.view.begin_rename(&drawn);
    desk.take(effects);
    assert!(desk.view.rename_is_active() && !desk.view.new_folder_is_active());
    let (cancelled, effects) = desk.view.cancel_rename();
    desk.take(effects);
    assert!(cancelled);
    let (cancelled, _) = desk.view.cancel_rename();
    assert!(!cancelled);
}

#[test]
fn folders_are_made_with_the_name_that_was_typed() {
    let mut desk = home();
    let effects = desk.view.create_new_folder(Some(0));
    desk.take(effects);
    let effects = desk.view.submit_new_folder(true, String::new());
    desk.take(effects);
    assert!(!desk.view.new_folder_is_active());
    let count = desk.requests.len();
    let effects = desk.view.create_new_folder(Some(0));
    desk.take(effects);
    let effects = desk.view.submit_new_folder(true, "new".to_string());
    desk.take(effects);
    assert_eq!(desk.requests.len(), count + 1);
    match desk.requests.last() {
        Some(ServiceRequest::CreateDirectory(request)) => {
            assert!(request.parent == local("/home/ada"));
            assert_eq!(request.name, "new");
        }
        other => panic!("no folder: {other:?}"),
    }
    let effects = desk.view.create_new_folder(Some(0));
    desk.take(effects);
    let effects = desk.view.submit_new_folder(true, "..".to_string());
    desk.take(effects);
    let (message, detail) = desk.screen.dialogs.last().unwrap();
    assert_eq!((message.as_str(), detail.as_str()), ("Unable to complete operation", "This name is reserved"));
    let effects = desk.view.create_new_folder(Some(7));
    desk.take(effects);
    assert!(!desk.view.new_folder_is_active());
}

#[test]
fn leaving_a_column_ends_what_is_edited_in_it() {
    let mut desk = home();
    let effects = desk.view.create_new_folder(None);
    desk.take(effects);
    desk.navigate("/srv");
    assert!(!desk.view.new_folder_is_active());
    let (cancelled, _) = desk.view.cancel_new_folder();
    assert!(!cancelled);
}

#[test]
fn typed_locations_are_checked() {
    let mut desk = home();
    let effects = desk.view.begin_location_edit();
    desk.take(effects);
    let (location, effects) = desk.view.submit_location("music");
    desk.take(effects);
    assert!(location.is_none());
    assert_eq!(desk.screen.location_error.as_deref(), Some("Enter an absolute path"));
    let (location, effects) = desk.view.submit_location("/srv");
    desk.take(effects);
    let effects = desk
        .view
        .location_checked(location.unwrap(), Err(LocationValidationError::Inaccessible));
    desk.take(effects);
    assert_eq!(desk.screen.location_error.as_deref(), Some("This location cannot be opened"));
    assert_eq!(desk.screen.trail, vec!["~"]);
    let effects = desk.view.location_checked(local("/srv"), Ok(()));
    desk.take(effects);
    assert_eq!(desk.screen.location_error, None);
    assert_eq!(desk.screen.trail, vec!["/", "srv"]);
    let effects = desk.view.cancel_location_edit();
    assert!(effects.actions.iter().any(
        |action| matches!(action, ViewAction::SetLocationText { text } if text == "/srv")
    ));
}

#[test]
fn menus_are_for_what_is_selected() {
    let mut desk = home();
    let menu = desk.view.open_menu(0, 1, &vec![1]).unwrap();
    assert_eq!(menu.heading, "Alpha.rs");
    assert_eq!(menu.summary, "~/Alpha.rs");
    assert!(!menu.multiple && menu.can_preview);
    let menu = desk.view.open_menu(0, 0, &vec![0, 1, 2]).unwrap();
    assert_eq!(menu.heading, "3 items selected");
    assert_eq!(menu.summary, "music, Alpha.rs, b.txt");
    assert!(menu.multiple && !menu.can_preview);
    assert_eq!(desk.view.context_entries(0).len(), 3);
    assert!(desk.view.open_menu(0, 9, &vec![]).is_none());
    desk.view.open_menu(0, 1, &vec![]);
    let entries = desk.view.context_entries(0);
    assert_eq!(entries.len(), 1);
    assert_eq!(entries[0].display_name, "Alpha.rs");
    let effects = desk.view.menu_open(0);
    desk.take(effects);
    assert!(desk.screen.opened == vec![local("/home/ada/Alpha.rs")]);
    let drawn = desk.drawn();
    let effects = desk.view.menu_rename(0, &drawn);
    desk.take(effects);
    assert_eq!(desk.screen.edited.as_ref().unwrap().2, "Alpha.rs");
}

#[test]
fn menus_of_folders_do_not_preview() {
    let mut desk = home();
    desk.view.open_menu(0, 0, &vec![0]);
    let count = desk.requests.len();
    let effects = desk.view.menu_preview(0);
    desk.take(effects);
    assert_eq!(desk.requests.len(), count);
    let menu = desk.view.folder_menu(0, true);
    assert!(menu.can_paste && menu.can_select_all);
    desk.view.set_query(0, "nothing at all");
    assert!(!desk.view.folder_menu(0, false).can_select_all);
}

#[test]
fn what_is_selected_is_dragged_together() {
    let mut desk = home();
    desk.select(0, vec![1, 2]);
    assert_eq!(desk.view.drag_entries(0, 1).len(), 2);
    let alone = desk.view.drag_entries(0, 0);
    assert_eq!(alone.len(), 1);
    assert_eq!(alone[0].display_name, "music");
    assert!(desk.view.drag_entries(0, 9).is_empty());
}

#[test]
fn files_are_dropped_into_folders() {
    let mut desk = home();
    assert!(desk.view.drop_destination(0, 0) == Some(local("/home/ada/music")));
    assert!(desk.view.drop_destination(0, 1).is_none());
    let (taken, effects) = desk.view.files_dropped(local("/t"), vec![], true);
    desk.take(effects);
    assert!(!taken);
    let (taken, effects) = desk.view.files_dropped(local("/t"), vec![local("/a")], true);
    desk.take(effects);
    assert!(taken);
    assert!(matches!(desk.requests.last(), Some(ServiceRequest::Paste(request)) if request.move_sources));
    let destination = desk.view.paste().unwrap();
    assert!(destination == local("/home/ada"));
    let effects = desk.view.paste_into(destination, vec![local("/a")]);
    desk.take(effects);
    assert!(matches!(desk.requests.last(), Some(ServiceRequest::Paste(request)) if !request.move_sources));
}

#[test]
fn what_lies_in_the_trash_is_deleted_for_good() {
    let mut desk = home();
    assert!(desk.view.confirm_delete(false, None).is_none());
    desk.select(0, vec![1]);
    let question = desk.view.confirm_delete(false, None).unwrap();
    assert!(!question.permanent);
    assert!(desk.view.confirm_delete(true, Some(0)).unwrap().permanent);
    let effects = desk.view.delete_confirmed(question);
    desk.take(effects);
    assert!(matches!(desk.requests.last(), Some(ServiceRequest::Delete(request)) if !request.permanent));

    let outcome = desk.view.browser_mut().navigate(Location::uri("trash:///".to_string()));
    let effects = desk.view.show(outcome);
    desk.take(effects);
    desk.deliver(vec![file("/old")]);
    desk.finish();
    desk.select(0, vec![0]);
    assert!(desk.view.confirm_delete(false, None).unwrap().permanent);
    desk.view.open_menu(0, 0, &vec![0]);
    let question = desk.view.menu_delete(0);
    assert!(question.permanent && desk.view.menu_deletes_for_good(0));
    assert_eq!(question.question, "Permanently delete 1 item?");
    let effects = desk.view.empty_trash_confirmed();
    desk.take(effects);
    assert!(matches!(desk.requests.last(), Some(ServiceRequest::EmptyTrash(_))));
}

#[test]
fn rows_are_drawn_from_their_entries() {
    let mut desk = home();
    let row = desk.screen.columns[0].rows[0].clone();
    let drawn = desk.view.row_display(0, 0, &row);
    assert_eq!((drawn.name.as_str(), drawn.icon, drawn.size), ("music", Icon::Folder, None));
    assert!(drawn.directory && !drawn.active);
    let drawn = desk.view.row_display(0, 1, "f\tAlpha.rs");
    assert_eq!((drawn.icon, drawn.size, drawn.directory), (Icon::Code, Some(10), false));
    let drawn = desk.view.row_display(0, 9, "f\tgone.rs");
    assert_eq!((drawn.icon, drawn.size, drawn.directory), (Icon::Documents, None, false));
    desk.descend(0, "/home/ada/music", vec![]);
    assert!(desk.view.row_display(0, 0, &row).active);
}

#[test]
fn properties_are_told_from_home() {
    let desk = home();
    assert_eq!(desk.view.folder_properties(&local("/home/ada/music")).location, "~/music");
    let properties = desk.view.entry_properties(&file("/srv/.hidden"));
    assert!(properties.hidden);
    assert_eq!(properties.location, "/srv/.hidden");
    assert_eq!(desk.view.occupied_width(&vec![100, 400]), 700);
}

#[test]
fn failures_are_told_in_dialogs() {
    let mut desk = home();
    let outcome = desk
        .view
        .browser_mut()
        .descend(0, local("/home/ada/music"), Err(LocationValidationError::Inaccessible));
    let effects = desk.view.show(outcome);
    desk.take(effects);
    let (message, detail) = desk.screen.dialogs.last().unwrap();
    assert_eq!(
        (message.as_str(), detail.as_str()),
        ("Unable to open directory", "This location cannot be opened"),
    );
    let outcome = desk
        .view
        .browser_mut()
        .operation_event(OperationEvent::Failed { request_id: 999, message: "full".to_string() });
    let effects = desk.view.show(outcome);
    desk.take(effects);
    assert_eq!(desk.screen.dialogs.last().unwrap().1, "full");
}

fn marks(effects: &Effects) -> SortMarks {
    let marked: Vec<SortMarks> = effects
        .actions
        .iter()
        .filter_map(|action| match action {
            ViewAction::MarkSort { depth: 0, marks } => Some(*marks),
            _ => None,
        })
        .collect();
    assert_eq!(marked.len(), 1);
    marked[0]
}

fn marked_fields(marks: SortMarks) -> Vec<SortKey> {
    sort_fields().into_iter().filter(|key| marks.field(*key)).collect()
}

#[test]
fn one_field_of_the_sort_menu_is_marked() {
    let mut desk = home();
    let fresh = SortMenu::new().marks();
    assert_eq!(marked_fields(fresh), vec![SortKey::Name]);
    assert!(fresh.folders_first);
    let mut folders_first = true;
    for key in [SortKey::Size, SortKey::Type, SortKey::Type, SortKey::Modified, SortKey::Name] {
        let effects = desk.view.choose_sort_key(0, key);
        assert_eq!(marked_fields(marks(&effects)), vec![key]);
        assert_eq!(marks(&effects).folders_first, folders_first);
        folders_first = !folders_first;
        let effects = desk.view.toggle_folders_first(0);
        assert_eq!(marked_fields(marks(&effects)), vec![key]);
        assert_eq!(marks(&effects).folders_first, folders_first);
    }
}

fn splices(effects: &Effects) -> Vec<(usize, usize)> {
    effects
        .actions
        .iter()
        .filter_map(|action| match action {
            ViewAction::SpliceRows { position, removed, .. } => Some((*position, *removed)),
            _ => None,
        })
        .collect()
}

fn placeholder(effects: &Effects) -> Option<&str> {
    effects.actions.iter().find_map(|action| match action {
        ViewAction::SetFilterPlaceholder { text, .. } => Some(text.as_str()),
        _ => None,
    })
}

fn page(effects: &Effects) -> Option<Page> {
    effects.actions.iter().find_map(|action| match action {
        ViewAction::Present { presentation, .. } => Some(presentation.page),
        _ => None,
    })
}

#[test]
fn entries_are_counted_even_where_a_range_is_not_there() {
    let mut desk = home();
    let insertions = vec![Insertion { position: 9, entries: vec![file("/x"), file("/y")] }];
    let effects = desk.view.handle(BrowserEvent::EntriesInserted { depth: 0, insertions });
    assert_eq!(splices(&effects), vec![(9, 0)]);
    assert_eq!(placeholder(&effects), Some("Filter 5 items…"));
    assert_eq!(page(&effects), Some(Page::Content));
    let removal = vec![Splice { position: 0, removed: 9, entries: vec![] }];
    let effects = desk.view.handle(BrowserEvent::EntriesSpliced {
        depth: 0,
        splices: removal,
        selected: None,
    });
    assert_eq!(placeholder(&effects), Some("Filter 0 items…"));
    assert_eq!(page(&effects), Some(Page::Feedback));
    let effects = desk.view.handle(BrowserEvent::LoadFinished { depth: 0 });
    assert_eq!(page(&effects), Some(Page::Feedback));
    let entries = vec![file("/z")];
    let effects = desk.view.handle(BrowserEvent::EntriesReplaced { depth: 0, entries });
    assert_eq!(splices(&effects), vec![(0, 3)]);
    assert_eq!(placeholder(&effects), Some("Filter 1 item…"));
}

#[test]
fn a_new_column_has_its_width_before_it_moves_in() {
    let mut desk = home();
    let outcome = desk.view.browser_mut().descend(0, local("/home/ada/music"), Ok(()));
    let effects = desk.view.show(outcome);
    let added = effects.actions.iter().position(|action| {
        matches!(action, ViewAction::AddColumn { depth: 1, width: 300, .. })
    });
    let revealed = effects.actions.iter().position(|action| {
        matches!(action, ViewAction::RevealColumn { depth: 1 })
    });
    assert!(added.is_some() && added < revealed);
}

#[test]
fn events_whose_ranges_are_there_keep_the_counts() {
    let mut desk = home();
    let insertions = vec![
        Insertion { position: 3, entries: vec![file("/x"), file("/y")] },
        Insertion { position: 5, entries: vec![file("/z")] },
    ];
    let effects = desk.view.handle(BrowserEvent::EntriesInserted { depth: 0, insertions });
    assert_eq!(placeholder(&effects), Some("Filter 6 items…"));
    let ranges = vec![
        Splice { position: 0, removed: 6, entries: vec![file("/one"), file("/two")] },
        Splice { position: 1, removed: 1, entries: vec![] },
    ];
    let effects = desk.view.handle(BrowserEvent::EntriesSpliced {
        depth: 0,
        splices: ranges,
        selected: None,
    });
    assert_eq!(placeholder(&effects), Some("Filter 1 item…"));
    let entries = vec![];
    let effects = desk.view.handle(BrowserEvent::EntriesReplaced { depth: 0, entries });
    assert_eq!(splices(&effects), vec![(0, 1)]);
    assert_eq!(placeholder(&effects), Some("Filter 0 items…"));
}

#[test]
fn a_peek_is_filled_in_parts_as_at_once() {
    let entries = ["a", "b", "c", "d", "e"].map(|name| format!("/home/ada/music/{name}"));
    for limit in [0, 1, 3, 5, 9] {
        for cut in 0..=entries.len() {
            let behavior = PeekBehavior { item_limit: limit, ..PeekBehavior::default() };
            let mut view = BrowserView::new(local("/home/ada"), behavior);
            let outcome = view.browser_mut().navigate(local("/home/ada"));
            let asked: Vec<u64> = outcome
                .requests
                .iter()
                .filter_map(|request| match request {
                    ServiceRequest::Enumerate(request) => Some(request.id),
                    _ => None,
                })
                .collect();
            view.show(outcome);
            let listed = DirectoryEvent::Batch {
                request_id: asked[0],
                entries: vec![folder("/home/ada/music")],
            };
            let outcome = view.browser_mut().directory_event(listed);
            view.show(outcome);
            view.row_entered(0, 0);
            view.peek_due();
            let mut shown = Vec::new();
            for part in [&entries[..cut], &entries[cut..]] {
                let entries = part.iter().map(|path| file(path)).collect();
                for action in view.handle(BrowserEvent::PeekEntriesAdded { entries }).actions {
                    if let ViewAction::AppendPeekRows { rows } = action {
                        shown.extend(rows);
                    }
                }
            }
            let most = limit.max(1).min(entries.len());
            let expected: Vec<String> =
                entries[..most].iter().map(|path| entry_model_value(&file(path))).collect();
            assert_eq!(shown, expected);
        }
    }
}
