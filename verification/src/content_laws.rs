//! What lists, requests and events hold: each value what it was made of, in the same order.
use vstd::prelude::*;

use crate::entry::{entries_of, is_directory_kind, is_link_kind, kind_of, FileEntry};
use crate::event::{
    events_of, requests_of, BrowserEvent, CreateDirectoryRequest, DeleteRequest, DirectoryRequest,
    PasteRequest, RenameRequest, RequestView, ServiceRequest, Splice,
};
use crate::model::{locations_of, Location, LocationView};
use crate::screen::{actions_of, ViewAction};

verus! {

/// What lists hold is what their items hold, one for one and in order.
pub proof fn lemma_lists_hold_their_items(
    places: Seq<Location>,
    entries: Seq<FileEntry>,
    events: Seq<BrowserEvent>,
    requests: Seq<ServiceRequest>,
    actions: Seq<ViewAction>,
)
    ensures
        locations_of(places).len() == places.len(),
        forall|k: int| 0 <= k < places.len() ==> #[trigger] locations_of(places)[k] == places[k]@,
        entries_of(entries).len() == entries.len(),
        forall|k: int| 0 <= k < entries.len() ==> #[trigger] entries_of(entries)[k] == entries[k]@,
        events_of(events).len() == events.len(),
        forall|k: int| 0 <= k < events.len() ==> #[trigger] events_of(events)[k] == events[k]@,
        requests_of(requests).len() == requests.len(),
        forall|k: int|
            0 <= k < requests.len() ==> #[trigger] requests_of(requests)[k] == requests[k]@,
        actions_of(actions).len() == actions.len(),
        forall|k: int| 0 <= k < actions.len() ==> #[trigger] actions_of(actions)[k] == actions[k]@,
{
}

/// A place holds the bytes of its path or the text of its address, and an entry all that is told of
/// it.
pub proof fn lemma_entries_hold_what_is_told(path: Vec<u8>, uri: String, entry: FileEntry)
    ensures
        Location::Local(path)@ == LocationView::Local(path@),
        Location::Uri(uri)@ == LocationView::Uri(uri@),
        entry@.location == entry.location@,
        entry@.native_name == entry.native_name@,
        entry@.display_name == entry.display_name@,
        entry@.kind == entry.kind,
        entry@.size == entry.size,
        entry@.modified_unix_seconds == entry.modified_unix_seconds,
{
}

/// What an entry is, is told by whether it is a link and by what it is or leads to: only a link can
/// lead nowhere, and what is not known to be a directory is a file.
pub proof fn lemma_kinds_of_entries(link: bool, directory: Option<bool>)
    ensures
        ({
            let kind = kind_of(link, directory);
            &&& kind is Directory <==> !link && directory == Some(true)
            &&& kind is File <==> !link && directory != Some(true)
            &&& kind is DirectoryLink <==> link && directory == Some(true)
            &&& kind is FileLink <==> link && directory == Some(false)
            &&& kind is BrokenLink <==> link && directory is None
            &&& is_link_kind(kind) <==> link
            &&& is_directory_kind(kind) <==> directory == Some(true)
        }),
{
}

/// A request to list or to watch holds the place, its number and whether hidden entries are wanted.
pub proof fn lemma_requests_to_list(request: DirectoryRequest)
    ensures
        ServiceRequest::Enumerate(request)@ == (RequestView::Enumerate {
            id: request.id as int,
            location: request.location@,
            include_hidden: request.include_hidden,
        }),
        ServiceRequest::Watch(request)@ == (RequestView::Watch {
            id: request.id as int,
            location: request.location@,
            include_hidden: request.include_hidden,
        }),
{
}

/// A transfer holds its destination, each of its sources in order, and whether they are moved. The
/// operation that serves it holds the same.
pub proof fn lemma_requests_to_transfer(request: PasteRequest)
    ensures
        ({
            let held = ServiceRequest::Paste(request)@;
            &&& held is Paste
            &&& held->Paste_id == request.id
            &&& held->Paste_destination == request.destination@
            &&& held->Paste_move_sources == request.move_sources
            &&& held->Paste_sources.len() == request.sources@.len()
            &&& forall|k: int|
                0 <= k < request.sources@.len() ==> #[trigger] held->Paste_sources[k]
                    == request.sources@[k]@
            &&& request@.id == request.id
            &&& request@.destination == request.destination@
            &&& request@.sources == held->Paste_sources
            &&& request@.move_sources == request.move_sources
        }),
{
}

/// A deletion holds each of its entries in order, and whether they are deleted for good. The
/// operation that serves it holds the same.
pub proof fn lemma_requests_to_delete(request: DeleteRequest)
    ensures
        ({
            let held = ServiceRequest::Delete(request)@;
            &&& held is Delete
            &&& held->Delete_id == request.id
            &&& held->Delete_permanent == request.permanent
            &&& held->Delete_entries.len() == request.entries@.len()
            &&& forall|k: int|
                0 <= k < request.entries@.len() ==> #[trigger] held->Delete_entries[k]
                    == request.entries@[k]@
            &&& request@.id == request.id
            &&& request@.entries == held->Delete_entries
            &&& request@.permanent == request.permanent
        }),
{
}

/// A rename holds its entry and the name, and a new directory its parent and the name.
pub proof fn lemma_requests_to_name(rename: RenameRequest, create: CreateDirectoryRequest)
    ensures
        ServiceRequest::Rename(rename)@ == (RequestView::Rename {
            id: rename.id as int,
            entry: rename.entry@,
            new_name: rename.new_name@,
        }),
        ServiceRequest::CreateDirectory(create)@ == (RequestView::CreateDirectory {
            id: create.id as int,
            parent: create.parent@,
            name: create.name@,
        }),
{
}

/// A splice holds where it is, how many rows go, and each entry that comes, in order.
pub proof fn lemma_splices_hold(splice: Splice)
    ensures
        splice@.position == splice.position,
        splice@.removed == splice.removed,
        splice@.entries.len() == splice.entries@.len(),
        forall|k: int|
            0 <= k < splice.entries@.len() ==> #[trigger] splice@.entries[k]
                == splice.entries@[k]@,
{
}

} // verus!
