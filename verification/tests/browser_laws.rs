//! What the browser promises, on given values.
use strata::browser::{Browser, Outcome};
use strata::entry::{EntryKind, FileEntry, MetadataValue};
use strata::event::{BrowserEvent, DirectoryChange, DirectoryEvent, ServiceRequest};
use strata::model::Location;
use strata::order::{SortDirection, SortKey, SortPreference};
use strata::sorting::{merge_batch, order_of_entries, sort_entries};

fn local(path: &str) -> Location {
    Location::local(path.as_bytes().to_vec())
}

fn entry(path: &str, kind: EntryKind, size: MetadataValue<u64>) -> FileEntry {
    let name = path.rsplit('/').next().unwrap_or(path);
    FileEntry {
        location: local(path),
        native_name: name.as_bytes().to_vec(),
        display_name: name.to_string(),
        kind,
        size,
        modified_unix_seconds: MetadataValue::Unknown,
    }
}

fn file(path: &str, size: u64) -> FileEntry {
    entry(path, EntryKind::File, MetadataValue::Known(size))
}

fn folder(path: &str) -> FileEntry {
    entry(path, EntryKind::Directory, MetadataValue::Unknown)
}

fn by(key: SortKey) -> SortPreference {
    SortPreference { key, direction: SortDirection::Ascending, folders_first: true }
}

fn names(entries: &[FileEntry]) -> Vec<&str> {
    entries.iter().map(|entry| entry.display_name.as_str()).collect()
}

fn listing(outcome: &Outcome) -> Vec<u64> {
    outcome
        .requests
        .iter()
        .filter_map(|request| match request {
            ServiceRequest::Enumerate(request) => Some(request.id),
            _ => None,
        })
        .collect()
}

fn open(browser: &mut Browser, path: &str, entries: Vec<FileEntry>) -> u64 {
    let id = listing(&browser.navigate(local(path)))[0];
    browser.directory_event(DirectoryEvent::Batch { request_id: id, entries });
    browser.directory_event(DirectoryEvent::Finished { request_id: id });
    id
}

fn column(browser: &Browser, depth: usize) -> Vec<String> {
    let mut held = Vec::new();
    while let Some(entry) = browser.entry_at(depth, held.len()) {
        held.push(entry.display_name);
    }
    held
}

fn path(browser: &Browser) -> Vec<String> {
    (0..browser.column_count())
        .map(|depth| browser.location_at(depth).unwrap().display_path())
        .collect()
}

#[test]
fn the_order_of_entries_is_total() {
    let all = [folder("/d"), file("/b", 5), file("/a", 5), file("/c", 1), folder("/a")];
    for key in [SortKey::Name, SortKey::Size, SortKey::Modified, SortKey::Type] {
        for x in &all {
            assert_eq!(order_of_entries(by(key), x, x), 0);
            for y in &all {
                let there = order_of_entries(by(key), x, y);
                let back = order_of_entries(by(key), y, x);
                assert_eq!(there, -back);
            }
        }
    }
}

#[test]
fn sorting_keeps_every_entry_and_the_order_of_ties() {
    let mut twins = vec![file("/x/same", 1), file("/y/same", 1), file("/a", 1)];
    twins.push(folder("/z"));
    let sorted = sort_entries(by(SortKey::Name), twins);
    assert_eq!(names(&sorted), vec!["z", "a", "same", "same"]);
    assert!(sorted[2].location == local("/x/same"));
    assert!(sorted[3].location == local("/y/same"));
}

#[test]
fn runs_of_a_batch_lead_to_the_merged_column() {
    let sort = by(SortKey::Name);
    let held = sort_entries(sort, vec![file("/b", 1), file("/f", 1), file("/h", 1)]);
    let batch = sort_entries(sort, vec![file("/a", 1), file("/c", 1), file("/d", 1), file("/z", 1)]);
    let mut replayed: Vec<String> = names(&held).iter().map(|name| name.to_string()).collect();
    let (merged, insertions) = merge_batch(sort, held, batch);
    for insertion in &insertions {
        let added: Vec<String> = names(&insertion.entries).iter().map(|name| name.to_string()).collect();
        replayed.splice(insertion.position..insertion.position, added);
    }
    assert_eq!(replayed, names(&merged));
    assert_eq!(names(&merged), vec!["a", "b", "c", "d", "f", "h", "z"]);
    assert_eq!(insertions.len(), 3);
}

#[test]
fn splices_lead_to_the_changed_column() {
    let mut browser = Browser::new();
    let id = open(&mut browser, "/d", vec![file("/d/a", 1), file("/d/m", 1), file("/d/z", 1)]);
    let mut shown = column(&browser, 0);
    for change in [
        DirectoryChange::Upsert(file("/d/c", 1)),
        DirectoryChange::Upsert(file("/d/c", 9)),
        DirectoryChange::Removed(local("/d/m")),
        DirectoryChange::Moved { from: local("/d/a"), entry: file("/d/y", 1) },
    ] {
        let outcome = browser.directory_changed(id, change);
        for event in outcome.events {
            if let BrowserEvent::EntriesSpliced { splices, .. } = event {
                for splice in splices {
                    let added: Vec<String> =
                        names(&splice.entries).iter().map(|name| name.to_string()).collect();
                    shown.splice(splice.position..splice.position + splice.removed, added);
                }
            }
        }
        assert_eq!(shown, column(&browser, 0));
    }
    assert_eq!(shown, vec!["c", "y", "z"]);
}

#[test]
fn a_selection_survives_sorting_and_changes() {
    let mut browser = Browser::new();
    let id = open(&mut browser, "/d", vec![file("/d/a", 3), file("/d/b", 2), file("/d/c", 1)]);
    browser.set_selection(0, &vec![0, 2], Some(2));
    browser.set_sort_key(0, SortKey::Size);
    assert_eq!(names(&browser.selected_entries()), vec!["c", "a"]);
    browser.directory_changed(id, DirectoryChange::Upsert(file("/d/0", 0)));
    assert_eq!(names(&browser.selected_entries()), vec!["c", "a"]);
    browser.directory_changed(
        id,
        DirectoryChange::Moved { from: local("/d/a"), entry: file("/d/renamed", 3) },
    );
    assert_eq!(names(&browser.selected_entries()), vec!["c", "renamed"]);
    let focused = browser.focused_position(0);
    browser.directory_changed(
        id,
        DirectoryChange::Moved { from: local("/d/elsewhere"), entry: file("/d/z", 9) },
    );
    assert_eq!(names(&browser.selected_entries()), vec!["c", "renamed"]);
    assert_eq!(browser.focused_position(0), focused);
    browser.directory_changed(id, DirectoryChange::Removed(local("/d/c")));
    assert_eq!(names(&browser.selected_entries()), vec!["renamed"]);
    assert_eq!(browser.focused_position(0), None);
}

#[test]
fn a_selection_survives_a_reload() {
    let mut browser = Browser::new();
    let id = open(
        &mut browser,
        "/d",
        vec![file("/d/a", 1), file("/d/b", 1), file("/d/c", 1), file("/d/d", 1)],
    );
    browser.set_selection(0, &vec![1, 2], Some(2));
    let again = listing(&browser.directory_changed(id, DirectoryChange::Rescan))[0];
    assert_eq!(column(&browser, 0).len(), 0);
    for entries in [
        vec![file("/d/e", 1), file("/d/c", 7)],
        vec![file("/d/a", 1), file("/d/0", 1)],
    ] {
        browser.directory_event(DirectoryEvent::Batch { request_id: again, entries });
    }
    let ended = browser.directory_event(DirectoryEvent::Finished { request_id: again });
    assert_eq!(column(&browser, 0), vec!["0", "a", "c", "e"]);
    assert_eq!(names(&browser.selected_entries()), vec!["c"]);
    assert!(ended.events.iter().any(|event| matches!(
        event,
        BrowserEvent::SelectionSetChanged { depth: 0, positions, focused: 2 } if *positions == [2]
    )));
}

#[test]
fn results_of_a_listing_that_is_not_wanted_change_nothing() {
    let mut browser = Browser::new();
    let first = listing(&browser.navigate(local("/a")))[0];
    browser.navigate(local("/b"));
    let outcome = browser.directory_event(DirectoryEvent::Batch {
        request_id: first,
        entries: vec![file("/a/x", 1)],
    });
    assert!(outcome.events.is_empty() && outcome.requests.is_empty());
    assert!(column(&browser, 0).is_empty());
    let outcome = browser.directory_event(DirectoryEvent::Failed {
        request_id: first,
        message: "late".to_string(),
    });
    assert!(outcome.events.is_empty());
}

#[test]
fn navigating_away_stops_what_was_running() {
    let mut browser = Browser::new();
    let first = listing(&browser.navigate(local("/a")))[0];
    let outcome = browser.navigate(local("/b"));
    assert!(outcome.requests.iter().any(|request| matches!(request, ServiceRequest::CancelLoad { id } if *id == first)));
    assert!(outcome.requests.iter().any(|request| matches!(request, ServiceRequest::StopWatch { id } if *id == first)));
}

#[test]
fn going_back_opens_the_columns_from_before() {
    let mut browser = Browser::new();
    browser.navigate(local("/a"));
    browser.descend(0, local("/a/b"), Ok(()));
    let before = path(&browser);
    browser.descend(1, local("/a/b/c"), Ok(()));
    assert_eq!(path(&browser), vec!["/a", "/a/b", "/a/b/c"]);
    assert_eq!(browser.remembered_columns(), 2);
    browser.back();
    assert_eq!(path(&browser), before);
}

#[test]
fn peeking_is_not_navigating() {
    let mut browser = Browser::new();
    browser.navigate(local("/a"));
    browser.begin_peek(0, local("/a/b"));
    browser.close_peek();
    assert_eq!(path(&browser), vec!["/a"]);
    assert!(browser.back().events.is_empty());
}

#[test]
fn retrying_keeps_the_columns_and_the_history() {
    let mut browser = Browser::new();
    browser.navigate(local("/a"));
    browser.descend(0, local("/a/b"), Ok(()));
    browser.retry_column(1);
    assert_eq!(path(&browser), vec!["/a", "/a/b"]);
    browser.back();
    assert_eq!(path(&browser), vec!["/a"]);
}

#[test]
fn hidden_entries_are_asked_for_in_every_column() {
    let mut browser = Browser::new();
    browser.navigate(local("/a"));
    browser.descend(0, local("/a/b"), Ok(()));
    let outcome = browser.toggle_hidden();
    let asked: Vec<bool> = outcome
        .requests
        .iter()
        .filter_map(|request| match request {
            ServiceRequest::Enumerate(request) => Some(request.include_hidden),
            _ => None,
        })
        .collect();
    assert_eq!(asked, vec![true, true]);
    assert_eq!(path(&browser), vec!["/a", "/a/b"]);
}

#[test]
fn columns_stay_sorted_while_batches_arrive() {
    let mut browser = Browser::new();
    let id = listing(&browser.navigate(local("/a")))[0];
    for batch in [vec!["q", "b"], vec!["z", "a"], vec!["m"]] {
        let entries = batch.iter().map(|name| file(&format!("/a/{name}"), 1)).collect();
        browser.directory_event(DirectoryEvent::Batch { request_id: id, entries });
        let shown = column(&browser, 0);
        let mut sorted = shown.clone();
        sorted.sort();
        assert_eq!(shown, sorted);
    }
    assert_eq!(column(&browser, 0).len(), 5);
}

#[test]
fn listings_have_numbers_of_their_own() {
    let mut browser = Browser::new();
    let left = browser.numbers_left();
    let first = listing(&browser.navigate(local("/a")))[0];
    let second = listing(&browser.descend(0, local("/a/b"), Ok(())))[0];
    assert_ne!(first, second);
    assert_eq!(browser.numbers_left(), left - 2);
}

#[test]
fn paths_are_compared_by_their_names() {
    assert!(local("/a//b/") == local("/a/./b"));
    assert!(local("/a") != local("a"));
    assert!(Location::uri("trash:///".to_string()) != local("trash:///"));
    assert!(Location::uri("trash:///x".to_string()).is_trash_location());
    assert!(!local("/trash:").is_trash_location());
    assert!(local("//").is_root() && !local("").is_root());
}
