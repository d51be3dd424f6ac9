//! The browser, driven by sources that answer at once.
use strata::browser::{Browser, Outcome};
use strata::entry::{EntryKind, FileEntry, MetadataValue};
use strata::event::{
    BrowserEvent, DirectoryChange, DirectoryEvent, DirectoryRequest, ServiceRequest,
};
use strata::model::Location;
use strata::names::{validate_rename, LocationValidationError};
use strata::observers::{replaced_names, Observers};
use strata::order::{SortDirection, SortKey};

fn local(path: &str) -> Location {
    Location::local(path.as_bytes().to_vec())
}

fn entry(
    path: &str,
    kind: EntryKind,
    size: MetadataValue<u64>,
    modified: MetadataValue<i64>,
) -> FileEntry {
    let name = path.rsplit('/').next().unwrap_or(path);
    FileEntry {
        location: local(path),
        native_name: name.as_bytes().to_vec(),
        display_name: name.to_string(),
        kind,
        size,
        modified_unix_seconds: modified,
    }
}

fn directory(path: &str) -> FileEntry {
    entry(path, EntryKind::Directory, MetadataValue::Unknown, MetadataValue::Unknown)
}

fn file(path: &str, size: u64, modified: i64) -> FileEntry {
    entry(path, EntryKind::File, MetadataValue::Known(size), MetadataValue::Known(modified))
}

trait FileSource {
    fn validate_location(&self, _location: &Location) -> Result<(), LocationValidationError> {
        Ok(())
    }

    fn enumerate(&mut self, request: &DirectoryRequest) -> Vec<DirectoryEvent>;

    fn cancel(&mut self, _id: u64) {}

    fn watch(&mut self, _id: u64) {}
}

fn listing(request: &DirectoryRequest, entries: Vec<FileEntry>) -> Vec<DirectoryEvent> {
    vec![
        DirectoryEvent::Batch { request_id: request.id, entries },
        DirectoryEvent::Finished { request_id: request.id },
    ]
}

struct FakeFileSource;

impl FileSource for FakeFileSource {
    fn enumerate(&mut self, request: &DirectoryRequest) -> Vec<DirectoryEvent> {
        listing(request, vec![directory("/fixture/child")])
    }
}

struct FilePreviewSource;

impl FileSource for FilePreviewSource {
    fn enumerate(&mut self, request: &DirectoryRequest) -> Vec<DirectoryEvent> {
        listing(request, vec![file("/fixture/example.conf", 12, 1)])
    }
}

struct RejectingFileSource;

impl FileSource for RejectingFileSource {
    fn validate_location(&self, _location: &Location) -> Result<(), LocationValidationError> {
        Err(LocationValidationError::Inaccessible)
    }

    fn enumerate(&mut self, _request: &DirectoryRequest) -> Vec<DirectoryEvent> {
        Vec::new()
    }
}

struct RetryFileSource {
    attempts: usize,
}

impl FileSource for RetryFileSource {
    fn enumerate(&mut self, request: &DirectoryRequest) -> Vec<DirectoryEvent> {
        self.attempts += 1;
        if self.attempts == 1 {
            vec![DirectoryEvent::Failed {
                request_id: request.id,
                message: "temporarily unavailable".to_string(),
            }]
        } else {
            listing(request, vec![directory("/fixture/recovered")])
        }
    }
}

struct TrackingFileSource {
    cancellations: usize,
}

impl FileSource for TrackingFileSource {
    fn enumerate(&mut self, _request: &DirectoryRequest) -> Vec<DirectoryEvent> {
        Vec::new()
    }

    fn cancel(&mut self, _id: u64) {
        self.cancellations += 1;
    }
}

struct RecordingFileSource {
    include_hidden: Vec<bool>,
}

impl FileSource for RecordingFileSource {
    fn enumerate(&mut self, request: &DirectoryRequest) -> Vec<DirectoryEvent> {
        self.include_hidden.push(request.include_hidden);
        Vec::new()
    }
}

struct WatchingFileSource {
    watch: Option<u64>,
}

impl FileSource for WatchingFileSource {
    fn enumerate(&mut self, request: &DirectoryRequest) -> Vec<DirectoryEvent> {
        listing(request, vec![directory("/fixture/child")])
    }

    fn watch(&mut self, id: u64) {
        self.watch = Some(id);
    }
}

struct SortableFileSource;

impl FileSource for SortableFileSource {
    fn enumerate(&mut self, request: &DirectoryRequest) -> Vec<DirectoryEvent> {
        listing(
            request,
            vec![
                file("/fixture/alpha", 300, 30),
                file("/fixture/bravo", 100, 20),
                file("/fixture/charlie", 200, 10),
            ],
        )
    }
}

/// A browser with a source and one observer.
struct Session<S: FileSource> {
    browser: Browser,
    source: S,
    observers: Observers,
    observer: usize,
}

impl<S: FileSource> Session<S> {
    fn new(source: S) -> Self {
        let mut observers = Observers::new();
        let observer = observers.observe();
        Session { browser: Browser::new(), source, observers, observer }
    }

    fn serve(&mut self, outcome: Outcome) {
        self.observers.deliver(&outcome.events);
        for request in outcome.requests {
            match request {
                ServiceRequest::Enumerate(directory) => {
                    for event in self.source.enumerate(&directory) {
                        let next = self.browser.directory_event(event);
                        self.serve(next);
                    }
                }
                ServiceRequest::Validate { depth, location } => {
                    let verdict = self.source.validate_location(&location);
                    let next = self.browser.descend(depth, location, verdict);
                    self.serve(next);
                }
                ServiceRequest::CancelLoad { id } => self.source.cancel(id),
                ServiceRequest::Watch(directory) => self.source.watch(directory.id),
                _ => {}
            }
        }
    }

    fn events(&mut self) -> Vec<BrowserEvent> {
        self.observers.take(self.observer)
    }

    fn navigate(&mut self, path: &str) {
        let outcome = self.browser.navigate(local(path));
        self.serve(outcome);
    }

    fn navigate_input(&mut self, input: &str) -> Result<(), LocationValidationError> {
        let location = self.browser.navigate_input(input)?;
        let verdict = self.source.validate_location(&location);
        let outcome = self.browser.navigate_typed(location, verdict)?;
        self.serve(outcome);
        Ok(())
    }

    fn descend(&mut self, depth: usize, path: &str) {
        let location = local(path);
        let verdict = self.source.validate_location(&location);
        let outcome = self.browser.descend(depth, location, verdict);
        self.serve(outcome);
    }

    fn begin_peek(&mut self, depth: usize, path: &str) {
        let outcome = self.browser.begin_peek(depth, local(path));
        self.serve(outcome);
    }
}

#[test]
fn rename_validation_rejects_empty_reserved_and_nested_names() {
    assert!(validate_rename("").is_err());
    assert!(validate_rename(".").is_err());
    assert!(validate_rename("..").is_err());
    assert!(validate_rename("nested/name").is_err());
    assert!(validate_rename("report.txt").is_ok());
}

fn names(list: &[&str]) -> Option<Vec<String>> {
    Some(list.iter().map(|name| name.to_string()).collect())
}

#[test]
fn changing_the_sort_key_reorders_the_column_entries() {
    let mut session = Session::new(SortableFileSource);
    session.navigate("/fixture");

    session.events();
    let outcome = session.browser.set_sort_key(0, SortKey::Size);
    session.serve(outcome);
    assert_eq!(replaced_names(&session.events()), names(&["bravo", "charlie", "alpha"]));

    let outcome = session.browser.set_sort_key(0, SortKey::Modified);
    session.serve(outcome);
    assert_eq!(replaced_names(&session.events()), names(&["charlie", "bravo", "alpha"]));

    let outcome = session.browser.set_sort_key(0, SortKey::Name);
    session.serve(outcome);
    assert_eq!(replaced_names(&session.events()), names(&["alpha", "bravo", "charlie"]));
}

#[test]
fn reversing_the_sort_direction_reorders_the_column_entries() {
    let mut session = Session::new(SortableFileSource);
    session.navigate("/fixture");

    session.events();
    let outcome = session.browser.set_sort_direction(0, SortDirection::Descending);
    session.serve(outcome);
    assert_eq!(replaced_names(&session.events()), names(&["charlie", "bravo", "alpha"]));
}

#[test]
fn navigation_events_are_delivered_to_every_observer() {
    let mut session = Session::new(FakeFileSource);
    let second = session.observers.observe();

    session.navigate("/fixture");

    let first_reset = session.events().iter().any(|event| matches!(event, BrowserEvent::Reset));
    let second_reset =
        session.observers.take(second).iter().any(|event| matches!(event, BrowserEvent::Reset));
    assert!(first_reset);
    assert!(second_reset);
}

#[test]
fn filesystem_notifications_update_the_affected_column_incrementally() {
    let mut session = Session::new(WatchingFileSource { watch: None });
    session.navigate("/fixture");
    session.events();

    let watch = session.source.watch.expect("the directory watcher should be installed");
    let outcome = session
        .browser
        .directory_changed(watch, DirectoryChange::Upsert(file("/fixture/added", 4, 1)));
    session.serve(outcome);

    let events = session.events();
    assert!(events.iter().any(|event| matches!(
        event,
        BrowserEvent::EntriesSpliced { depth: 0, splices, .. }
            if splices.len() == 1 && splices[0].removed == 0 && splices[0].entries.len() == 1
    )));
    assert!(!events.iter().any(|event| matches!(event, BrowserEvent::ColumnReloaded { .. })));
}

#[test]
fn ambiguous_filesystem_notifications_fall_back_to_reload() {
    let mut session = Session::new(WatchingFileSource { watch: None });
    session.navigate("/fixture");
    session.events();

    let watch = session.source.watch.expect("the directory watcher should be installed");
    let outcome = session.browser.directory_changed(watch, DirectoryChange::Rescan);
    session.serve(outcome);

    assert!(session
        .events()
        .iter()
        .any(|event| matches!(event, BrowserEvent::ColumnReloaded { depth: 0 })));
}

#[test]
fn retrying_a_failed_column_preserves_navigation_history() {
    let mut session = Session::new(RetryFileSource { attempts: 0 });
    session.navigate("/fixture");
    session.events();

    let outcome = session.browser.retry_column(0);
    session.serve(outcome);

    assert_eq!(session.source.attempts, 2);
    let events = session.events();
    assert!(events.iter().any(|event| matches!(event, BrowserEvent::ColumnReloaded { depth: 0 })));
    assert!(events
        .iter()
        .any(|event| matches!(event, BrowserEvent::EntriesInserted { depth: 0, .. })));
    assert!(!events.iter().any(|event| matches!(event, BrowserEvent::Reset)));
}

#[test]
fn hidden_file_preference_is_applied_to_reloaded_requests() {
    let mut session = Session::new(RecordingFileSource { include_hidden: Vec::new() });

    session.navigate("/fixture");
    let outcome = session.browser.toggle_hidden();
    session.serve(outcome);

    assert_eq!(session.source.include_hidden, vec![false, true]);
}

#[test]
fn navigating_away_cancels_the_previous_directory_request() {
    let mut session = Session::new(TrackingFileSource { cancellations: 0 });

    session.navigate("/first");
    session.navigate("/second");

    assert_eq!(session.source.cancellations, 1);
}

#[test]
fn file_source_can_be_replaced_without_constructing_the_ui() {
    let mut session = Session::new(FakeFileSource);

    session.navigate("/fixture");

    let events = session.events();
    assert!(events.iter().any(|event| matches!(
        event,
        BrowserEvent::EntriesInserted { insertions, .. }
            if insertions.iter().map(|insertion| insertion.entries.len()).sum::<usize>() == 1
    )));
    assert!(events.iter().any(|event| matches!(event, BrowserEvent::LoadFinished { .. })));
}

#[test]
fn valid_location_input_navigates_through_the_controller() {
    let mut session = Session::new(FakeFileSource);
    session.navigate("/fixture");
    session.events();

    assert_eq!(session.navigate_input("/accepted"), Ok(()));

    assert_eq!(session.browser.active_location(), Some(local("/accepted")));
    assert!(session.events().iter().any(|event| matches!(
        event,
        BrowserEvent::ColumnAdded { depth: 0, location } if location == &local("/accepted")
    )));
}

#[test]
fn rejected_directory_activation_preserves_navigation_state() {
    let mut session = Session::new(RejectingFileSource);
    session.navigate("/fixture");
    session.events();

    session.descend(0, "/fixture/restricted");

    assert_eq!(session.browser.active_location(), Some(local("/fixture")));
    let events = session.events();
    assert!(events.iter().any(|event| matches!(event, BrowserEvent::NavigationRejected { .. })));
    assert!(!events.iter().any(|event| matches!(event, BrowserEvent::ColumnAdded { depth: 1, .. })));
}

#[test]
fn rejected_location_input_preserves_navigation_state() {
    let mut session = Session::new(RejectingFileSource);
    session.navigate("/fixture");
    session.events();

    assert_eq!(
        session.navigate_input("/restricted"),
        Err(LocationValidationError::Inaccessible)
    );

    assert_eq!(session.browser.active_location(), Some(local("/fixture")));
    assert!(session.events().is_empty());
}

#[test]
fn invalid_location_text_is_rejected_before_the_provider() {
    let mut session = Session::new(FakeFileSource);
    session.navigate("/fixture");

    assert_eq!(session.navigate_input(""), Err(LocationValidationError::Empty));
    assert_eq!(
        session.navigate_input("relative/path"),
        Err(LocationValidationError::NotAbsolute)
    );
    assert_eq!(session.browser.active_location(), Some(local("/fixture")));
}

fn resets(events: &[BrowserEvent]) -> usize {
    events.iter().filter(|event| matches!(event, BrowserEvent::Reset)).count()
}

#[test]
fn peeking_streams_results_without_committing_navigation_history() {
    let mut session = Session::new(FakeFileSource);
    session.navigate("/fixture");

    session.begin_peek(0, "/fixture/child");

    let mut events = session.events();
    assert!(events.iter().any(|event| matches!(event, BrowserEvent::PeekStarted { .. })));
    assert!(events.iter().any(|event| matches!(
        event,
        BrowserEvent::PeekEntriesAdded { entries } if entries.len() == 1
    )));
    assert!(events.iter().any(|event| matches!(event, BrowserEvent::PeekFinished)));

    let outcome = session.browser.back();
    session.serve(outcome);
    events.extend(session.events());
    assert_eq!(resets(&events), 1, "a peek must not create a history entry");
}

#[test]
fn committing_a_peek_descends_and_creates_history() {
    let mut session = Session::new(FakeFileSource);
    session.navigate("/fixture");
    session.begin_peek(0, "/fixture/child");

    let outcome = session.browser.commit_peek();
    session.serve(outcome);

    let mut events = session.events();
    assert!(events.iter().any(|event| matches!(
        event,
        BrowserEvent::ColumnAdded { depth: 1, location } if location == &local("/fixture/child")
    )));
    let outcome = session.browser.back();
    session.serve(outcome);
    events.extend(session.events());
    assert_eq!(resets(&events), 2, "committing a peek must create a history entry");
}

#[test]
fn single_click_action_descends_into_directories() {
    let mut session = Session::new(FakeFileSource);
    session.navigate("/fixture");
    session.events();

    let outcome = session.browser.preview(0, 0);
    session.serve(outcome);

    assert!(session
        .events()
        .iter()
        .any(|event| matches!(event, BrowserEvent::ColumnAdded { depth: 1, .. })));
}

#[test]
fn open_folder_remains_the_rename_target_until_its_pane_has_a_selection() {
    let mut session = Session::new(FakeFileSource);
    session.navigate("/fixture");

    let outcome = session.browser.preview(0, 0);
    session.serve(outcome);

    let (depth, position, entry) =
        session.browser.rename_item().expect("open folder rename target");
    assert_eq!((depth, position), (0, 0));
    assert_eq!(entry.location, local("/fixture/child"));
}

#[test]
fn preview_and_open_are_distinct_file_actions() {
    let mut session = Session::new(FilePreviewSource);
    session.navigate("/fixture");
    session.events();

    let outcome = session.browser.preview(0, 0);
    session.serve(outcome);

    assert!(session.events().iter().any(|event| matches!(
        event,
        BrowserEvent::PreviewRequested { entry }
            if entry.location == local("/fixture/example.conf")
    )));

    let outcome = session.browser.activate(0, 0);
    session.serve(outcome);

    assert!(session.events().iter().any(|event| matches!(
        event,
        BrowserEvent::OpenRequested { location }
            if location == &local("/fixture/example.conf")
    )));
}

#[test]
fn keyboard_selection_and_activation_descend_without_the_ui() {
    let mut session = Session::new(FakeFileSource);
    session.navigate("/fixture");

    let outcome = session.browser.move_selection(1);
    session.serve(outcome);
    let outcome = session.browser.activate_focused();
    session.serve(outcome);

    let events = session.events();
    assert!(events.iter().any(|event| matches!(
        event,
        BrowserEvent::FocusChanged { depth: 0, position: Some(0) }
    )));
    assert!(events.iter().any(|event| matches!(event, BrowserEvent::ColumnAdded { depth: 1, .. })));
}

#[test]
fn escape_closes_a_peek_before_the_deepest_column() {
    let mut session = Session::new(FakeFileSource);
    session.navigate("/fixture");
    let outcome = session.browser.move_selection(1);
    session.serve(outcome);
    let outcome = session.browser.activate_focused();
    session.serve(outcome);
    session.begin_peek(1, "/fixture/child/child");
    session.events();

    let outcome = session.browser.escape();
    session.serve(outcome);
    let events = session.events();
    assert!(events.iter().any(|event| matches!(event, BrowserEvent::PeekClosed)));
    assert!(!events.iter().any(|event| matches!(event, BrowserEvent::ColumnsTruncated { .. })));

    let outcome = session.browser.escape();
    session.serve(outcome);
    assert!(session
        .events()
        .iter()
        .any(|event| matches!(event, BrowserEvent::ColumnsTruncated { len: 1 })));
}
