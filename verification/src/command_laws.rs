//! What the commands of the browser are for: what each does to the columns, what it tells and what
//! it asks for.
use vstd::prelude::*;

use crate::entry::FileEntryView;
use crate::event::{EventView, OperationEventView, RequestView};
use crate::model::LocationView;
use crate::names::LocationValidationError;
use crate::order::{SortDirection, SortKey};
use crate::state::{
    back, begin_peek, close_column, close_from, closing, closing_all, commit_peek, create_directory,
    delete, descend, drop_peek, empty_trash, end_peek, escape, initial, navigate, navigate_typed,
    open_columns, operation_ended, reload, reload_first, remember, rename, retry_column, start,
    toggle_hidden, transfer, BrowserState, ColumnState, Flow, PeekState,
};

verus! {

// Requests.

/// A transfer is one request: for that place, for all of the sources in their order, and to copy or
/// to move them as was asked. It changes no column and tells nothing yet.
pub proof fn lemma_transfer_is_asked_for(
    b: BrowserState,
    destination: LocationView,
    sources: Seq<LocationView>,
    move_sources: bool,
)
    ensures
        ({
            let t = transfer(b, destination, sources, move_sources);
            &&& t.requests == seq![
                RequestView::Paste { id: b.next_id, destination, sources, move_sources },
            ]
            &&& t.events.len() == 0
            &&& t.browser == (BrowserState { next_id: b.next_id + 1, ..b })
        }),
{
}

/// A deletion is one request: for all of the entries in their order, and for good exactly if it was
/// asked for so. It changes no column and tells nothing yet.
pub proof fn lemma_deletion_is_asked_for(b: BrowserState, entries: Seq<FileEntryView>, permanent: bool)
    ensures
        ({
            let t = delete(b, entries, permanent);
            &&& t.requests == seq![RequestView::Delete { id: b.next_id, entries, permanent }]
            &&& t.events.len() == 0
            &&& t.browser == (BrowserState { next_id: b.next_id + 1, ..b })
        }),
{
}

/// Emptying the trash is one request.
pub proof fn lemma_emptying_is_asked_for(b: BrowserState)
    ensures
        empty_trash(b).requests == seq![RequestView::EmptyTrash { id: b.next_id }],
        empty_trash(b).events.len() == 0,
        empty_trash(b).browser == (BrowserState { next_id: b.next_id + 1, ..b }),
{
}

/// Whether a file can have a name: it is not empty, does not stand for a directory as such, and
/// names one file only.
pub open spec fn names_a_file(name: Seq<char>) -> bool {
    &&& name.len() > 0
    &&& name != seq!['.']
    &&& name != seq!['.', '.']
    &&& !name.contains('/')
}

proof fn lemma_dots()
    ensures
        "."@ == seq!['.'],
        ".."@ == seq!['.', '.'],
{
    reveal_strlit(".");
    reveal_strlit("..");
    assert("."@ =~= seq!['.']);
    assert(".."@ =~= seq!['.', '.']);
}

/// A rename is one request, for that entry and that name, and is waited for. A name that no file
/// can have is told to be none: nothing is asked for, and nothing changes.
pub proof fn lemma_rename_is_asked_for(b: BrowserState, entry: FileEntryView, new_name: Seq<char>)
    ensures
        ({
            let t = rename(b, entry, new_name);
            if names_a_file(new_name) {
                &&& t.requests == seq![RequestView::Rename { id: b.next_id, entry, new_name }]
                &&& t.events.len() == 0
                &&& t.browser == (BrowserState {
                    next_id: b.next_id + 1,
                    renaming: Some(b.next_id),
                    ..b
                })
            } else {
                &&& t.requests.len() == 0
                &&& t.events.len() == 1
                &&& t.events[0] is RenameFailed
                &&& t.browser == b
            }
        }),
{
    lemma_dots();
}

/// A new directory is one request, for that parent and that name. A name that no directory can have
/// is told to be none: nothing is asked for, and nothing changes.
pub proof fn lemma_directory_is_asked_for(b: BrowserState, parent: LocationView, name: Seq<char>)
    ensures
        ({
            let t = create_directory(b, parent, name);
            if names_a_file(name) {
                &&& t.requests == seq![RequestView::CreateDirectory { id: b.next_id, parent, name }]
                &&& t.events.len() == 0
                &&& t.browser == (BrowserState { next_id: b.next_id + 1, ..b })
            } else {
                &&& t.requests.len() == 0
                &&& t.events.len() == 1
                &&& t.events[0] is OperationFailed
                &&& t.browser == b
            }
        }),
{
    lemma_dots();
}

/// The end of an operation changes no column and asks for nothing. The rename that is waited for is
/// told to be done or to have failed, and is waited for no longer. Any other failure is told with
/// its message, and any other success is not told.
pub proof fn lemma_end_of_an_operation(b: BrowserState, event: OperationEventView)
    ensures
        ({
            let t = operation_ended(b, event);
            &&& t.requests.len() == 0
            &&& t.browser == (BrowserState { renaming: t.browser.renaming, ..b })
            &&& event matches OperationEventView::Failed { request_id, message } ==> if b.renaming
                == Some(request_id) {
                &&& t.events == seq![EventView::RenameFailed { message }]
                &&& t.browser.renaming is None
            } else {
                &&& t.events == seq![EventView::OperationFailed { message }]
                &&& t.browser.renaming == b.renaming
            }
            &&& event matches OperationEventView::Renamed { request_id } ==> if b.renaming == Some(
                request_id,
            ) {
                &&& t.events == seq![EventView::RenameCompleted]
                &&& t.browser.renaming is None
            } else {
                &&& t.events.len() == 0
                &&& t.browser.renaming == b.renaming
            }
            &&& event is Created || event is Pasted || event is Deleted ==> t == start(b)
        }),
{
}

/// What becomes of a rename is told once: from its request to the end that its number is told.
pub proof fn lemma_rename_is_answered(
    b: BrowserState,
    entry: FileEntryView,
    new_name: Seq<char>,
    message: Seq<char>,
)
    requires
        names_a_file(new_name),
    ensures
        ({
            let asked = rename(b, entry, new_name);
            let id = asked.requests[0]->Rename_id;
            let done = operation_ended(
                asked.browser,
                OperationEventView::Renamed { request_id: id },
            );
            let broken = operation_ended(
                asked.browser,
                OperationEventView::Failed { request_id: id, message },
            );
            &&& done.events == seq![EventView::RenameCompleted]
            &&& broken.events == seq![EventView::RenameFailed { message }]
            &&& done.browser.columns == b.columns && broken.browser.columns == b.columns
        }),
{
    lemma_rename_is_asked_for(b, entry, new_name);
}

// Opening and closing.

/// Whether a column is one that has just been opened: it shows the place, is empty, is being listed
/// under the number, has nothing selected, and is sorted by name, upwards, with folders first.
pub open spec fn just_opened(column: ColumnState, location: LocationView, id: int) -> bool {
    &&& column.location == location
    &&& column.entries.len() == 0
    &&& column.loading
    &&& column.id == id
    &&& column.selected.len() == 0
    &&& column.focused is None
    &&& column.sort.key == SortKey::Name
    &&& column.sort.direction == SortDirection::Ascending
    &&& column.sort.folders_first
}

/// Whether the requests at a position list and watch a place under a number, with or without hidden
/// entries.
pub open spec fn lists_and_watches(
    requests: Seq<RequestView>,
    at: int,
    location: LocationView,
    id: int,
    include_hidden: bool,
) -> bool {
    &&& 0 <= at && at + 1 < requests.len()
    &&& requests[at] == (RequestView::Enumerate { id, location, include_hidden })
    &&& requests[at + 1] == (RequestView::Watch { id, location, include_hidden })
}

/// Whether a request ends something that one of the columns has running.
pub open spec fn ends_one(columns: Seq<ColumnState>, request: RequestView) -> bool {
    exists|i: int|
        #![trigger columns[i]]
        0 <= i < columns.len() && (request == (RequestView::StopWatch { id: columns[i].id }) || (
        columns[i].loading && request == (RequestView::CancelLoad { id: columns[i].id })))
}

/// Whether the requests end all that the columns have running.
pub open spec fn ends_all(columns: Seq<ColumnState>, requests: Seq<RequestView>) -> bool {
    forall|i: int|
        0 <= i < columns.len() ==> {
            &&& requests.contains(RequestView::StopWatch { id: (#[trigger] columns[i]).id })
            &&& columns[i].loading ==> requests.contains(
                RequestView::CancelLoad { id: columns[i].id },
            )
        }
}

proof fn lemma_contains_more(a: Seq<RequestView>, b: Seq<RequestView>, request: RequestView)
    ensures
        a.contains(request) ==> (a + b).contains(request),
        b.contains(request) ==> (a + b).contains(request),
{
    if a.contains(request) {
        let k = choose|k: int| 0 <= k < a.len() && a[k] == request;
        assert((a + b)[k] == request);
    }
    if b.contains(request) {
        let k = choose|k: int| 0 <= k < b.len() && b[k] == request;
        assert((a + b)[a.len() + k] == request);
    }
}

proof fn lemma_closing_all(columns: Seq<ColumnState>)
    ensures
        ends_all(columns, closing_all(columns)),
        forall|k: int|
            0 <= k < closing_all(columns).len() ==> ends_one(
                columns,
                #[trigger] closing_all(columns)[k],
            ),
    decreases columns.len(),
{
    if columns.len() > 0 {
        let before = columns.drop_last();
        let last = columns.last();
        lemma_closing_all(before);
        let all = closing_all(columns);
        assert(all == closing_all(before) + closing(last));
        assert forall|i: int| 0 <= i < columns.len() implies {
            &&& all.contains(RequestView::StopWatch { id: (#[trigger] columns[i]).id })
            &&& columns[i].loading ==> all.contains(RequestView::CancelLoad { id: columns[i].id })
        } by {
            let stop = RequestView::StopWatch { id: columns[i].id };
            let cancel = RequestView::CancelLoad { id: columns[i].id };
            lemma_contains_more(closing_all(before), closing(last), stop);
            lemma_contains_more(closing_all(before), closing(last), cancel);
            if i < before.len() {
                assert(before[i] == columns[i]);
            } else {
                assert(closing(last)[closing(last).len() - 1] == stop);
                if last.loading {
                    assert(closing(last)[0] == cancel);
                }
            }
        }
        assert forall|k: int| 0 <= k < all.len() implies ends_one(columns, #[trigger] all[k]) by {
            if k < closing_all(before).len() {
                assert(ends_one(before, closing_all(before)[k]));
                let i = choose|i: int|
                    #![trigger before[i]]
                    0 <= i < before.len() && (all[k] == (RequestView::StopWatch {
                        id: before[i].id,
                    }) || (before[i].loading && all[k] == (RequestView::CancelLoad {
                        id: before[i].id,
                    })));
                assert(columns[i] == before[i]);
            } else {
                assert(columns[columns.len() - 1] == last);
            }
        }
    }
}

/// Whether the columns that were open have been remembered: where there were none, there is nothing
/// to remember.
pub open spec fn remembers(before: BrowserState, history: Seq<Seq<LocationView>>) -> bool {
    if before.columns.len() == 0 {
        history == before.history
    } else {
        &&& history.len() == before.history.len() + 1
        &&& history.take(before.history.len() as int) == before.history
        &&& history.last().len() == before.columns.len()
        &&& forall|i: int|
            0 <= i < before.columns.len() ==> #[trigger] history.last()[i]
                == before.columns[i].location
    }
}

proof fn lemma_remember(b: BrowserState)
    ensures
        remembers(b, remember(b).history),
{
    if b.columns.len() > 0 {
        assert(remember(b).history.take(b.history.len() as int) =~= b.history);
    }
}

/// Going to a place shows it in a single new column. What was open is remembered, and all that it
/// had running is ended; then the place is listed and watched.
pub proof fn lemma_navigation(b: BrowserState, location: LocationView)
    ensures
        ({
            let t = navigate(b, location);
            &&& t.browser.columns.len() == 1
            &&& just_opened(t.browser.columns[0], location, b.next_id)
            &&& remembers(b, t.browser.history)
            &&& t.browser.peek is None
            &&& t.browser.include_hidden == b.include_hidden
            &&& t.browser.renaming == b.renaming
            &&& t.browser.next_id == b.next_id + 1
            &&& t.events == seq![EventView::Reset, EventView::ColumnAdded { depth: 0, location }]
            &&& lists_and_watches(
                t.requests,
                t.requests.len() - 2,
                location,
                b.next_id,
                b.include_hidden,
            )
            &&& ends_all(b.columns, t.requests)
            &&& b.peek matches Some(peek) ==> peek.loading ==> t.requests.contains(
                RequestView::CancelLoad { id: peek.id },
            )
            &&& forall|k: int|
                0 <= k < t.requests.len() - 2 ==> ends_one(b.columns, #[trigger] t.requests[k]) || (
                b.peek matches Some(peek) && peek.loading && t.requests[k] == (
                RequestView::CancelLoad { id: peek.id }))
        }),
{
    lemma_remember(b);
    lemma_closing_all(b.columns);
    let t = navigate(b, location);
    let f = drop_peek(start(remember(b)));
    assert(b.columns.skip(0) =~= b.columns);
    assert(b.columns.take(0) =~= Seq::empty());
    let ended = f.requests + closing_all(b.columns);
    assert(t.requests.take(t.requests.len() - 2) =~= ended);
    assert(t.requests =~= ended + seq![
        RequestView::Enumerate { id: b.next_id, location, include_hidden: b.include_hidden },
        RequestView::Watch { id: b.next_id, location, include_hidden: b.include_hidden },
    ]);
    let rest = seq![
        RequestView::Enumerate { id: b.next_id, location, include_hidden: b.include_hidden },
        RequestView::Watch { id: b.next_id, location, include_hidden: b.include_hidden },
    ];
    assert forall|i: int| 0 <= i < b.columns.len() implies {
        &&& t.requests.contains(RequestView::StopWatch { id: (#[trigger] b.columns[i]).id })
        &&& b.columns[i].loading ==> t.requests.contains(
            RequestView::CancelLoad { id: b.columns[i].id },
        )
    } by {
        let stop = RequestView::StopWatch { id: b.columns[i].id };
        let cancel = RequestView::CancelLoad { id: b.columns[i].id };
        lemma_contains_more(f.requests, closing_all(b.columns), stop);
        lemma_contains_more(f.requests, closing_all(b.columns), cancel);
        lemma_contains_more(ended, rest, stop);
        lemma_contains_more(ended, rest, cancel);
    }
    if let Some(peek) = b.peek {
        if peek.loading {
            assert(t.requests[0] == (RequestView::CancelLoad { id: peek.id }));
        }
    }
    assert forall|k: int| 0 <= k < t.requests.len() - 2 implies ends_one(
        b.columns,
        #[trigger] t.requests[k],
    ) || (b.peek matches Some(peek) && peek.loading && t.requests[k] == (RequestView::CancelLoad {
        id: peek.id,
    })) by {
        if k >= f.requests.len() {
            assert(t.requests[k] == closing_all(b.columns)[k - f.requests.len()]);
        }
    }
}

/// A typed place is gone to like any other, once it is known that it can be opened. One that cannot
/// be opened changes nothing and is not told here.
pub proof fn lemma_typed_navigation(
    b: BrowserState,
    location: LocationView,
    verdict: Result<(), LocationValidationError>,
)
    ensures
        verdict is Ok ==> navigate_typed(b, location, verdict) == navigate(b, location),
        verdict is Err ==> {
            &&& navigate_typed(b, location, verdict).browser == b
            &&& navigate_typed(b, location, verdict).events.len() == 0
            &&& navigate_typed(b, location, verdict).requests.len() == 0
        },
{
}

/// Opening a place out of a column keeps that column and those before it as they are, closes the
/// ones behind it, and shows the place in a new column right behind it. What was open is
/// remembered.
pub proof fn lemma_descent(b: BrowserState, depth: int, location: LocationView)
    requires
        0 <= depth < b.columns.len(),
    ensures
        ({
            let t = descend(b, depth, location, Ok(()));
            let tail = t.requests.len() - 2;
            &&& t.browser.columns.len() == depth + 2
            &&& forall|i: int| 0 <= i <= depth ==> #[trigger] t.browser.columns[i] == b.columns[i]
            &&& just_opened(t.browser.columns[depth + 1], location, b.next_id)
            &&& remembers(b, t.browser.history)
            &&& t.browser.peek is None
            &&& t.browser.include_hidden == b.include_hidden
            &&& t.browser.renaming == b.renaming
            &&& t.browser.next_id == b.next_id + 1
            &&& t.events.last() == (EventView::ColumnAdded { depth: depth + 1, location })
            &&& t.events.contains(EventView::PeekClosed) == (b.peek is Some)
            &&& t.events.contains(EventView::ColumnsTruncated { len: depth + 1 }) == (depth + 1
                < b.columns.len())
            &&& !t.events.contains(EventView::Reset)
            &&& lists_and_watches(t.requests, tail, location, b.next_id, b.include_hidden)
            &&& ends_all(b.columns.skip(depth + 1), t.requests)
            &&& forall|k: int|
                0 <= k < tail ==> ends_one(b.columns.skip(depth + 1), #[trigger] t.requests[k]) || (
                b.peek matches Some(peek) && peek.loading && t.requests[k] == (
                RequestView::CancelLoad { id: peek.id }))
        }),
{
    lemma_remember(b);
    let t = descend(b, depth, location, Ok(()));
    let f = end_peek(start(remember(b)));
    let gone = b.columns.skip(depth + 1);
    lemma_closing_all(gone);
    let added = EventView::ColumnAdded { depth: depth + 1, location };
    let cut = EventView::ColumnsTruncated { len: depth + 1 };
    if depth + 1 == b.columns.len() {
        assert(gone =~= Seq::empty());
        assert(closing_all(gone) =~= Seq::empty());
        assert(f.requests + closing_all(gone) =~= f.requests);
        assert(t.events =~= f.events.push(added));
    } else {
        assert(t.events =~= f.events.push(cut).push(added));
        assert(t.events[f.events.len() as int] == cut);
    }
    if b.peek is Some {
        assert(t.events[0] == EventView::PeekClosed);
    }
    let ended = f.requests + closing_all(gone);
    let rest = seq![
        RequestView::Enumerate { id: b.next_id, location, include_hidden: b.include_hidden },
        RequestView::Watch { id: b.next_id, location, include_hidden: b.include_hidden },
    ];
    assert(t.requests =~= ended + rest);
    assert forall|i: int| 0 <= i < gone.len() implies {
        &&& t.requests.contains(RequestView::StopWatch { id: (#[trigger] gone[i]).id })
        &&& gone[i].loading ==> t.requests.contains(RequestView::CancelLoad { id: gone[i].id })
    } by {
        let stop = RequestView::StopWatch { id: gone[i].id };
        let cancel = RequestView::CancelLoad { id: gone[i].id };
        lemma_contains_more(f.requests, closing_all(gone), stop);
        lemma_contains_more(f.requests, closing_all(gone), cancel);
        lemma_contains_more(ended, rest, stop);
        lemma_contains_more(ended, rest, cancel);
    }
    assert forall|k: int| 0 <= k < t.requests.len() - 2 implies ends_one(
        gone,
        #[trigger] t.requests[k],
    ) || (b.peek matches Some(peek) && peek.loading && t.requests[k] == (RequestView::CancelLoad {
        id: peek.id,
    })) by {
        if k >= f.requests.len() {
            assert(t.requests[k] == closing_all(gone)[k - f.requests.len()]);
        }
    }
}

/// Closing a column takes it and those behind it away, keeps the others as they are, and ends all
/// that the closed ones had running. The first column cannot be closed.
pub proof fn lemma_closing_a_column(b: BrowserState, depth: int)
    ensures
        ({
            let t = close_column(b, depth);
            if 0 < depth < b.columns.len() {
                &&& t.browser.columns == b.columns.take(depth)
                &&& t.browser.peek is None
                &&& t.browser.history == b.history
                &&& t.browser.next_id == b.next_id
                &&& t.events.last() == (EventView::ColumnsTruncated { len: depth })
                &&& ends_all(b.columns.skip(depth), t.requests)
                &&& b.peek matches Some(peek) ==> peek.loading ==> t.requests.contains(
                    RequestView::CancelLoad { id: peek.id },
                )
            } else {
                t.browser == b && t.events.len() == 0 && t.requests.len() == 0
            }
        }),
{
    if 0 < depth < b.columns.len() {
        let t = close_column(b, depth);
        let f = end_peek(start(b));
        let gone = b.columns.skip(depth);
        lemma_closing_all(gone);
        assert(t.requests =~= f.requests + closing_all(gone));
        assert forall|i: int| 0 <= i < gone.len() implies {
            &&& t.requests.contains(RequestView::StopWatch { id: (#[trigger] gone[i]).id })
            &&& gone[i].loading ==> t.requests.contains(RequestView::CancelLoad { id: gone[i].id })
        } by {
            lemma_contains_more(
                f.requests,
                closing_all(gone),
                RequestView::StopWatch { id: gone[i].id },
            );
            lemma_contains_more(
                f.requests,
                closing_all(gone),
                RequestView::CancelLoad { id: gone[i].id },
            );
        }
        if let Some(peek) = b.peek {
            if peek.loading {
                assert(t.requests[0] == (RequestView::CancelLoad { id: peek.id }));
            }
        }
    }
}

/// Escape ends the peek, where there is one, and leaves the columns alone. Without a peek it closes
/// the last column, but never the first.
pub proof fn lemma_escaping(b: BrowserState)
    ensures
        ({
            let t = escape(b);
            &&& t.browser.peek is None
            &&& t.browser.history == b.history
            &&& b.peek is Some ==> t.browser.columns == b.columns && t.events == seq![
                EventView::PeekClosed,
            ]
            &&& b.peek is None && b.columns.len() > 1 ==> {
                &&& t.browser.columns == b.columns.drop_last()
                &&& t.events == seq![EventView::ColumnsTruncated { len: b.columns.len() - 1 }]
            }
            &&& b.peek is None && b.columns.len() <= 1 ==> t.browser == b && t.events.len() == 0
                && t.requests.len() == 0
        }),
{
    if b.peek is None && b.columns.len() > 1 {
        assert(b.columns.take(b.columns.len() - 1) =~= b.columns.drop_last());
    }
    if b.columns.len() == 0 {
        assert(b.columns.len() - 1 < 0);
    }
}

proof fn lemma_open_columns(f: Flow, places: Seq<LocationView>)
    ensures
        ({
            let t = open_columns(f, places);
            let n = f.browser.columns.len();
            let m = f.requests.len();
            &&& t.browser.columns.len() == n + places.len()
            &&& t.browser == (BrowserState {
                columns: t.browser.columns,
                next_id: f.browser.next_id + places.len(),
                ..f.browser
            })
            &&& t.requests.len() == m + 2 * places.len()
            &&& t.events.len() == f.events.len() + places.len()
            &&& forall|i: int| 0 <= i < n ==> #[trigger] t.browser.columns[i] == f.browser.columns[i]
            &&& forall|i: int| 0 <= i < m ==> #[trigger] t.requests[i] == f.requests[i]
            &&& forall|i: int| 0 <= i < f.events.len() ==> #[trigger] t.events[i] == f.events[i]
            &&& forall|i: int|
                0 <= i < places.len() ==> {
                    &&& just_opened(
                        t.browser.columns[n + i],
                        #[trigger] places[i],
                        f.browser.next_id + i,
                    )
                    &&& lists_and_watches(
                        t.requests,
                        m + 2 * i,
                        places[i],
                        f.browser.next_id + i,
                        f.browser.include_hidden,
                    )
                    &&& t.events[f.events.len() + i] == (EventView::ColumnAdded {
                        depth: n + i,
                        location: places[i],
                    })
                }
        }),
    decreases places.len(),
{
    if places.len() > 0 {
        let before = places.drop_last();
        lemma_open_columns(f, before);
        let u = open_columns(f, before);
        let t = open_columns(f, places);
        assert forall|i: int| 0 <= i < places.len() implies {
            &&& just_opened(
                t.browser.columns[f.browser.columns.len() + i],
                #[trigger] places[i],
                f.browser.next_id + i,
            )
            &&& lists_and_watches(
                t.requests,
                f.requests.len() + 2 * i,
                places[i],
                f.browser.next_id + i,
                f.browser.include_hidden,
            )
            &&& t.events[f.events.len() + i] == (EventView::ColumnAdded {
                depth: f.browser.columns.len() + i,
                location: places[i],
            })
        } by {
            if i < before.len() {
                assert(before[i] == places[i]);
            }
        }
    }
}

/// Going back shows the places that were remembered last, one column for each, each listed and
/// watched anew, and forgets them. All that was open had running is ended. Where nothing is
/// remembered, nothing happens.
pub proof fn lemma_going_back(b: BrowserState)
    ensures
        ({
            let t = back(b);
            if b.history.len() == 0 {
                t.browser == b && t.events.len() == 0 && t.requests.len() == 0
            } else {
                let places = b.history.last();
                &&& t.browser.history == b.history.drop_last()
                &&& t.browser.columns.len() == places.len()
                &&& t.browser.peek is None
                &&& t.browser.include_hidden == b.include_hidden
                &&& forall|i: int|
                    0 <= i < places.len() ==> just_opened(
                        #[trigger] t.browser.columns[i],
                        places[i],
                        b.next_id + i,
                    )
                &&& t.events.len() == places.len() + 1
                &&& t.events[0] == EventView::Reset
                &&& forall|i: int|
                    0 <= i < places.len() ==> #[trigger] t.events[i + 1] == (
                    EventView::ColumnAdded { depth: i, location: places[i] })
                &&& forall|i: int|
                    0 <= i < places.len() ==> lists_and_watches(
                        t.requests,
                        t.requests.len() - 2 * places.len() + 2 * i,
                        #[trigger] places[i],
                        b.next_id + i,
                        b.include_hidden,
                    )
                &&& ends_all(b.columns, t.requests)
            }
        }),
{
    if b.history.len() > 0 {
        let places = b.history.last();
        let f = drop_peek(start(BrowserState { history: b.history.drop_last(), ..b }));
        let g = close_from(f, 0).tell(EventView::Reset);
        assert(b.columns.skip(0) =~= b.columns);
        assert(b.columns.take(0) =~= Seq::empty());
        lemma_closing_all(b.columns);
        lemma_open_columns(g, places);
        let t = back(b);
        assert forall|i: int| 0 <= i < b.columns.len() implies {
            &&& t.requests.contains(RequestView::StopWatch { id: (#[trigger] b.columns[i]).id })
            &&& b.columns[i].loading ==> t.requests.contains(
                RequestView::CancelLoad { id: b.columns[i].id },
            )
        } by {
            let stop = RequestView::StopWatch { id: b.columns[i].id };
            let cancel = RequestView::CancelLoad { id: b.columns[i].id };
            lemma_contains_more(f.requests, closing_all(b.columns), stop);
            lemma_contains_more(f.requests, closing_all(b.columns), cancel);
            let k = choose|k: int| 0 <= k < g.requests.len() && g.requests[k] == stop;
            assert(t.requests[k] == stop);
            if b.columns[i].loading {
                let l = choose|l: int| 0 <= l < g.requests.len() && g.requests[l] == cancel;
                assert(t.requests[l] == cancel);
            }
        }
        assert forall|i: int| 0 <= i < places.len() implies #[trigger] t.events[i + 1] == (
        EventView::ColumnAdded { depth: i, location: places[i] }) by {
            assert(t.events[g.events.len() + i] == (EventView::ColumnAdded {
                depth: i,
                location: places[i],
            }));
        }
        assert forall|i: int| 0 <= i < places.len() implies just_opened(
            #[trigger] t.browser.columns[i],
            places[i],
            b.next_id + i,
        ) by {
            assert(just_opened(t.browser.columns[0 + i], places[i], b.next_id + i));
        }
    }
}

// Peeks.

/// A peek looks into a place from an open column: the place is listed under a new number and told,
/// and a peek that was still being filled is given up. The columns and the history stay.
pub proof fn lemma_peeking(b: BrowserState, origin: int, location: LocationView)
    ensures
        ({
            let t = begin_peek(b, origin, location);
            if 0 <= origin < b.columns.len() {
                &&& t.browser == (BrowserState {
                    peek: Some(PeekState { origin, location, id: b.next_id, loading: true }),
                    next_id: b.next_id + 1,
                    ..b
                })
                &&& t.events == seq![EventView::PeekStarted { location }]
                &&& t.requests.last() == (RequestView::Enumerate {
                    id: b.next_id,
                    location,
                    include_hidden: b.include_hidden,
                })
                &&& if b.peek is Some && b.peek->0.loading {
                    t.requests.len() == 2 && t.requests[0] == (RequestView::CancelLoad {
                        id: b.peek->0.id,
                    })
                } else {
                    t.requests.len() == 1
                }
            } else {
                t.browser == b && t.events.len() == 0 && t.requests.len() == 0
            }
        }),
{
}

/// The end of a peek is told where there was one, and what it had running is given up. The columns
/// and the history stay.
pub proof fn lemma_end_of_a_peek(b: BrowserState)
    ensures
        ({
            let t = end_peek(start(b));
            &&& t.browser == (BrowserState { peek: None, ..b })
            &&& t.events == if b.peek is Some {
                seq![EventView::PeekClosed]
            } else {
                Seq::empty()
            }
            &&& t.requests == if b.peek is Some && b.peek->0.loading {
                seq![RequestView::CancelLoad { id: b.peek->0.id }]
            } else {
                Seq::empty()
            }
        }),
{
}

/// Going on from a peek ends it and has the place that it shows checked, to be opened out of the
/// column that the peek started from.
pub proof fn lemma_committing_a_peek(b: BrowserState)
    ensures
        ({
            let t = commit_peek(b);
            match b.peek {
                Some(peek) => {
                    &&& t.browser == (BrowserState { peek: None, ..b })
                    &&& t.events == seq![EventView::PeekClosed]
                    &&& t.requests.last() == (RequestView::Validate {
                        depth: peek.origin,
                        location: peek.location,
                    })
                    &&& t.requests.len() == if peek.loading {
                        2nat
                    } else {
                        1nat
                    }
                    &&& peek.loading ==> t.requests[0] == (RequestView::CancelLoad { id: peek.id })
                },
                None => t.browser == b && t.events.len() == 0 && t.requests.len() == 0,
            }
        }),
{
}

/// What is peeked into and gone on to is opened: the place of the peek stands in the column behind
/// the one that the peek started from.
pub proof fn lemma_peek_leads_there(b: BrowserState, origin: int, location: LocationView)
    requires
        0 <= origin < b.columns.len(),
    ensures
        ({
            let asked = commit_peek(begin_peek(b, origin, location).browser);
            let t = descend(
                asked.browser,
                asked.requests.last()->Validate_depth,
                asked.requests.last()->Validate_location,
                Ok(()),
            );
            &&& t.browser.columns.len() == origin + 2
            &&& t.browser.columns[origin + 1].location == location
            &&& forall|i: int| 0 <= i <= origin ==> #[trigger] t.browser.columns[i] == b.columns[i]
        }),
{
    lemma_peeking(b, origin, location);
    lemma_committing_a_peek(begin_peek(b, origin, location).browser);
    let asked = commit_peek(begin_peek(b, origin, location).browser);
    lemma_descent(asked.browser, origin, location);
}

// Listing anew.

/// Trying a column again empties it and lists and watches its place under a new number, with the
/// selection, the focus and the sorting kept, and ends the listing that it had. The other columns
/// stay as they are.
pub proof fn lemma_retrying(b: BrowserState, depth: int)
    ensures
        ({
            let t = retry_column(b, depth);
            if 0 <= depth < b.columns.len() {
                let column = b.columns[depth];
                let n = t.requests.len();
                &&& t.browser.columns == b.columns.update(
                    depth,
                    ColumnState { entries: Seq::empty(), id: b.next_id, loading: true, ..column },
                )
                &&& t.browser.history == b.history && t.browser.peek == b.peek
                &&& t.events == seq![EventView::ColumnReloaded { depth }]
                &&& lists_and_watches(
                    t.requests,
                    n - 2,
                    column.location,
                    b.next_id,
                    b.include_hidden,
                )
                &&& t.requests[n - 3] == (RequestView::StopWatch { id: column.id })
                &&& n == if column.loading {
                    4nat
                } else {
                    3nat
                }
                &&& column.loading ==> t.requests[0] == (RequestView::CancelLoad { id: column.id })
            } else {
                t.browser == b && t.events.len() == 0 && t.requests.len() == 0
            }
        }),
{
}

/// Whether the column at a depth is listed anew under a number: it is emptied and being listed, and
/// otherwise as it was; its place is listed and watched, what it had running is ended, and it is
/// told.
pub open spec fn is_listed_anew(
    before: ColumnState,
    t: Flow,
    depth: int,
    id: int,
    hidden: bool,
) -> bool {
    let location = before.location;
    &&& t.browser.columns[depth] == (ColumnState {
        entries: Seq::empty(),
        id,
        loading: true,
        ..before
    })
    &&& t.requests.contains(RequestView::Enumerate { id, location, include_hidden: hidden })
    &&& t.requests.contains(RequestView::Watch { id, location, include_hidden: hidden })
    &&& t.requests.contains(RequestView::StopWatch { id: before.id })
    &&& before.loading ==> t.requests.contains(RequestView::CancelLoad { id: before.id })
    &&& t.events.contains(EventView::ColumnReloaded { depth })
}

proof fn lemma_reload(f: Flow, depth: int)
    requires
        0 <= depth < f.browser.columns.len(),
    ensures
        ({
            let t = reload(f, depth);
            &&& is_listed_anew(
                f.browser.columns[depth],
                t,
                depth,
                f.browser.next_id,
                f.browser.include_hidden,
            )
            &&& t.browser == (BrowserState {
                columns: f.browser.columns.update(depth, t.browser.columns[depth]),
                next_id: f.browser.next_id + 1,
                ..f.browser
            })
            &&& t.events == f.events.push(EventView::ColumnReloaded { depth })
            &&& forall|request: RequestView| #[trigger]
                f.requests.contains(request) ==> t.requests.contains(request)
        }),
{
    let t = reload(f, depth);
    let column = f.browser.columns[depth];
    let list = RequestView::Enumerate {
        id: f.browser.next_id,
        location: column.location,
        include_hidden: f.browser.include_hidden,
    };
    let watch = RequestView::Watch {
        id: f.browser.next_id,
        location: column.location,
        include_hidden: f.browser.include_hidden,
    };
    let added = closing(column) + seq![list, watch];
    let n = closing(column).len() as int;
    assert(t.requests =~= f.requests + added);
    assert(added[n] == list);
    assert(added[n + 1] == watch);
    assert(added[n - 1] == (RequestView::StopWatch { id: column.id }));
    lemma_contains_more(f.requests, added, list);
    lemma_contains_more(f.requests, added, watch);
    lemma_contains_more(f.requests, added, added[n - 1]);
    if column.loading {
        assert(added[0] == (RequestView::CancelLoad { id: column.id }));
        lemma_contains_more(f.requests, added, added[0]);
    }
    assert forall|request: RequestView| #[trigger] f.requests.contains(request) implies t.requests.contains(
        request,
    ) by {
        lemma_contains_more(f.requests, added, request);
    }
    assert(t.events[f.events.len() as int] == (EventView::ColumnReloaded { depth }));
}

proof fn lemma_reload_first(f: Flow, count: int)
    requires
        0 <= count <= f.browser.columns.len(),
    ensures
        ({
            let t = reload_first(f, count);
            &&& t.browser == (BrowserState {
                columns: t.browser.columns,
                next_id: f.browser.next_id + count,
                ..f.browser
            })
            &&& t.browser.columns.len() == f.browser.columns.len()
            &&& t.events.len() == f.events.len() + count
            &&& forall|i: int|
                count <= i < f.browser.columns.len() ==> #[trigger] t.browser.columns[i]
                    == f.browser.columns[i]
            &&& forall|i: int|
                0 <= i < count ==> is_listed_anew(
                    #[trigger] f.browser.columns[i],
                    t,
                    i,
                    f.browser.next_id + i,
                    f.browser.include_hidden,
                )
        }),
    decreases count,
{
    if count > 0 {
        lemma_reload_first(f, count - 1);
        let u = reload_first(f, count - 1);
        let t = reload_first(f, count);
        lemma_reload(u, count - 1);
        assert(u.browser.columns[count - 1] == f.browser.columns[count - 1]);
        assert forall|i: int| 0 <= i < count implies is_listed_anew(
            #[trigger] f.browser.columns[i],
            t,
            i,
            f.browser.next_id + i,
            f.browser.include_hidden,
        ) by {
            if i < count - 1 {
                assert(is_listed_anew(
                    f.browser.columns[i],
                    u,
                    i,
                    f.browser.next_id + i,
                    f.browser.include_hidden,
                ));
                let event = EventView::ColumnReloaded { depth: i };
                let k = choose|k: int| 0 <= k < u.events.len() && u.events[k] == event;
                assert(t.events[k] == event);
            }
        }
    }
}

/// Turning hidden entries on or off lists every column anew in that way, with its selection, focus
/// and sorting kept, and ends the listings that they had.
pub proof fn lemma_turning_hidden_entries(b: BrowserState)
    ensures
        ({
            let t = toggle_hidden(b);
            &&& t.browser.include_hidden == !b.include_hidden
            &&& t.browser.columns.len() == b.columns.len()
            &&& t.browser.history == b.history && t.browser.peek == b.peek
            &&& t.browser.next_id == b.next_id + b.columns.len()
            &&& t.events.len() == b.columns.len()
            &&& forall|i: int|
                0 <= i < b.columns.len() ==> is_listed_anew(
                    #[trigger] b.columns[i],
                    t,
                    i,
                    b.next_id + i,
                    !b.include_hidden,
                )
        }),
{
    lemma_reload_first(
        start(BrowserState { include_hidden: !b.include_hidden, ..b }),
        b.columns.len() as int,
    );
}

/// A browser starts with nothing: no column, nothing remembered, no peek and no hidden entries. So
/// there is nothing to go back to, to close, or to list anew.
pub proof fn lemma_first_state(depth: int)
    ensures
        ({
            let b = initial();
            &&& b.columns.len() == 0 && b.history.len() == 0
            &&& b.peek is None && b.renaming is None
            &&& !b.include_hidden
            &&& back(b).browser == b && back(b).events.len() == 0
            &&& escape(b).browser == b && escape(b).events.len() == 0
            &&& retry_column(b, depth).browser == b
        }),
{
}

/// Opening out of a column that is not there does nothing, whatever is known of the place.
pub proof fn lemma_no_column_to_open_from(
    b: BrowserState,
    depth: int,
    location: LocationView,
    verdict: Result<(), LocationValidationError>,
)
    requires
        !(0 <= depth < b.columns.len()),
    ensures
        descend(b, depth, location, verdict).browser == b,
        descend(b, depth, location, verdict).events.len() == 0,
        descend(b, depth, location, verdict).requests.len() == 0,
{
}

/// A place that cannot be opened changes nothing, asks for nothing, and is told with the reason.
pub proof fn lemma_place_is_refused(
    b: BrowserState,
    depth: int,
    location: LocationView,
    error: LocationValidationError,
)
    requires
        0 <= depth < b.columns.len(),
    ensures
        ({
            let t = descend(b, depth, location, Err(error));
            &&& t.browser == b
            &&& t.requests.len() == 0
            &&& t.events == seq![
                EventView::NavigationRejected {
                    message: match error {
                        LocationValidationError::Empty => "Enter a location"@,
                        LocationValidationError::NotAbsolute => "Enter an absolute path"@,
                        LocationValidationError::Inaccessible => "This location cannot be opened"@,
                    },
                },
            ]
        }),
{
}

} // verus!
