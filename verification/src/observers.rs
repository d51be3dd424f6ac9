//! Handing events to those who watch the browser.
use vstd::prelude::*;

use crate::entry::{copy_entries, entries_of, FileEntry, FileEntryView};
use crate::event::{events_of, splices_of, BrowserEvent, EventView, Splice};
use crate::sorting::{insertions_of, Insertion};

verus! {

impl Clone for Insertion {
    fn clone(&self) -> (copy: Self)
        ensures
            copy@ == self@,
    {
        Insertion { position: self.position, entries: copy_entries(&self.entries) }
    }
}

impl Clone for Splice {
    fn clone(&self) -> (copy: Self)
        ensures
            copy@ == self@,
    {
        Splice {
            position: self.position,
            removed: self.removed,
            entries: copy_entries(&self.entries),
        }
    }
}

fn copy_insertions(insertions: &Vec<Insertion>) -> (copies: Vec<Insertion>)
    ensures
        insertions_of(copies@) == insertions_of(insertions@),
{
    let mut copies: Vec<Insertion> = Vec::new();
    let mut i: usize = 0;
    while i < insertions.len()
        invariant
            i <= insertions@.len(),
            copies@.len() == i,
            forall|k: int| 0 <= k < i ==> (#[trigger] copies@[k])@ == insertions@[k]@,
        decreases insertions@.len() - i,
    {
        copies.push(insertions[i].clone());
        i += 1;
    }
    assert(insertions_of(copies@) =~= insertions_of(insertions@));
    copies
}

fn copy_splices(splices: &Vec<Splice>) -> (copies: Vec<Splice>)
    ensures
        splices_of(copies@) == splices_of(splices@),
{
    let mut copies: Vec<Splice> = Vec::new();
    let mut i: usize = 0;
    while i < splices.len()
        invariant
            i <= splices@.len(),
            copies@.len() == i,
            forall|k: int| 0 <= k < i ==> (#[trigger] copies@[k])@ == splices@[k]@,
        decreases splices@.len() - i,
    {
        copies.push(splices[i].clone());
        i += 1;
    }
    assert(splices_of(copies@) =~= splices_of(splices@));
    copies
}

/// A copy of the positions.
pub fn copy_positions(positions: &Vec<usize>) -> (copies: Vec<usize>)
    ensures
        copies@ == positions@,
{
    let mut copies: Vec<usize> = Vec::new();
    let mut i: usize = 0;
    while i < positions.len()
        invariant
            i <= positions@.len(),
            copies@ == positions@.take(i as int),
        decreases positions@.len() - i,
    {
        copies.push(positions[i]);
        i += 1;
        assert(copies@ =~= positions@.take(i as int));
    }
    assert(copies@ =~= positions@);
    copies
}

impl Clone for BrowserEvent {
    fn clone(&self) -> (copy: Self)
        ensures
            copy@ == self@,
    {
        match self {
            BrowserEvent::Reset => BrowserEvent::Reset,
            BrowserEvent::ColumnsTruncated { len } => BrowserEvent::ColumnsTruncated { len: *len },
            BrowserEvent::ColumnAdded { depth, location } => BrowserEvent::ColumnAdded {
                depth: *depth,
                location: location.clone(),
            },
            BrowserEvent::EntriesInserted { depth, insertions } => BrowserEvent::EntriesInserted {
                depth: *depth,
                insertions: copy_insertions(insertions),
            },
            BrowserEvent::EntriesReplaced { depth, entries } => BrowserEvent::EntriesReplaced {
                depth: *depth,
                entries: copy_entries(entries),
            },
            BrowserEvent::EntriesSpliced { depth, splices, selected } => {
                BrowserEvent::EntriesSpliced {
                    depth: *depth,
                    splices: copy_splices(splices),
                    selected: *selected,
                }
            },
            BrowserEvent::ColumnReloaded { depth } => BrowserEvent::ColumnReloaded { depth: *depth },
            BrowserEvent::LoadFinished { depth } => BrowserEvent::LoadFinished { depth: *depth },
            BrowserEvent::LoadFailed { depth, message } => BrowserEvent::LoadFailed {
                depth: *depth,
                message: message.clone(),
            },
            BrowserEvent::PeekStarted { location } => BrowserEvent::PeekStarted {
                location: location.clone(),
            },
            BrowserEvent::PeekEntriesAdded { entries } => BrowserEvent::PeekEntriesAdded {
                entries: copy_entries(entries),
            },
            BrowserEvent::PeekFinished => BrowserEvent::PeekFinished,
            BrowserEvent::PeekFailed { message } => BrowserEvent::PeekFailed {
                message: message.clone(),
            },
            BrowserEvent::PeekClosed => BrowserEvent::PeekClosed,
            BrowserEvent::SelectionSetChanged { depth, positions, focused } => {
                BrowserEvent::SelectionSetChanged {
                    depth: *depth,
                    positions: copy_positions(positions),
                    focused: *focused,
                }
            },
            BrowserEvent::FocusChanged { depth, position } => BrowserEvent::FocusChanged {
                depth: *depth,
                position: *position,
            },
            BrowserEvent::PreviewRequested { entry } => BrowserEvent::PreviewRequested {
                entry: entry.clone(),
            },
            BrowserEvent::OpenRequested { location } => BrowserEvent::OpenRequested {
                location: location.clone(),
            },
            BrowserEvent::RenameCompleted => BrowserEvent::RenameCompleted,
            BrowserEvent::RenameFailed { message } => BrowserEvent::RenameFailed {
                message: message.clone(),
            },
            BrowserEvent::OperationFailed { message } => BrowserEvent::OperationFailed {
                message: message.clone(),
            },
            BrowserEvent::NavigationRejected { message } => BrowserEvent::NavigationRejected {
                message: message.clone(),
            },
        }
    }
}

/// Those who watch the browser, each with the events that it has not taken yet.
#[derive(Debug)]
pub struct Observers {
    queues: Vec<Vec<BrowserEvent>>,
}

spec fn queues_of(queues: Seq<Vec<BrowserEvent>>) -> Seq<Seq<EventView>> {
    queues.map_values(|queue: Vec<BrowserEvent>| events_of(queue@))
}

impl View for Observers {
    type V = Seq<Seq<EventView>>;

    closed spec fn view(&self) -> Seq<Seq<EventView>> {
        queues_of(self.queues@)
    }
}

impl Observers {
    /// Nobody watches.
    pub fn new() -> (observers: Self)
        ensures
            observers@ == Seq::<Seq<EventView>>::empty(),
    {
        let observers = Observers { queues: Vec::new() };
        assert(observers@ =~= Seq::<Seq<EventView>>::empty());
        observers
    }

    /// One more watches. It is known by the number that is returned.
    pub fn observe(&mut self) -> (observer: usize)
        ensures
            observer == old(self)@.len(),
            final(self)@ == old(self)@.push(Seq::empty()),
    {
        let observer: usize = self.queues.len();
        self.queues.push(Vec::new());
        proof {
            assert(queues_of(old(self).queues@).len() == old(self).queues@.len());
            assert(events_of(Seq::<BrowserEvent>::empty()) =~= Seq::empty());
            assert(self@ =~= old(self)@.push(Seq::empty()));
        }
        observer
    }

    /// Hands the events to every observer, in order.
    pub fn deliver(&mut self, events: &Vec<BrowserEvent>)
        ensures
            final(self)@ == old(self)@.map_values(
                |queue: Seq<EventView>| queue + events_of(events@),
            ),
    {
        let ghost before = self@;
        let mut i: usize = 0;
        proof {
            assert(queues_of(self.queues@).len() == self.queues@.len());
        }
        while i < self.queues.len()
            invariant
                i <= self.queues@.len(),
                self.queues@.len() == before.len(),
                forall|k: int|
                    0 <= k < i ==> events_of((#[trigger] self.queues@[k])@) == before[k] + events_of(
                        events@,
                    ),
                forall|k: int|
                    i <= k < before.len() ==> events_of((#[trigger] self.queues@[k])@) == before[k],
            decreases self.queues@.len() - i,
        {
            let ghost others = self.queues@;
            let mut queue: Vec<BrowserEvent> = Vec::new();
            std::mem::swap(&mut queue, &mut self.queues[i]);
            let mut k: usize = 0;
            proof {
                assert(events_of(events@).take(0) =~= Seq::empty());
                assert(events_of(queue@) =~= before[i as int] + events_of(events@).take(0));
            }
            while k < events.len()
                invariant
                    k <= events@.len(),
                    events_of(queue@) == before[i as int] + events_of(events@).take(k as int),
                decreases events@.len() - k,
            {
                let ghost so_far = queue@;
                queue.push(events[k].clone());
                k += 1;
                proof {
                    assert(events_of(queue@) =~= events_of(so_far).push(events@[k - 1]@));
                    assert(events_of(events@).take(k as int) =~= events_of(events@).take(
                        k - 1,
                    ).push(events@[k - 1]@));
                    assert(events_of(queue@) =~= before[i as int] + events_of(events@).take(
                        k as int,
                    ));
                }
            }
            proof {
                assert(events_of(events@).take(k as int) =~= events_of(events@));
            }
            self.queues[i] = queue;
            i += 1;
        }
        proof {
            assert(self@ =~= before.map_values(
                |queue: Seq<EventView>| queue + events_of(events@),
            ));
        }
    }

    /// What an observer has not taken yet. It is handed over once.
    pub fn take(&mut self, observer: usize) -> (events: Vec<BrowserEvent>)
        requires
            observer < old(self)@.len(),
        ensures
            events_of(events@) == old(self)@[observer as int],
            final(self)@ == old(self)@.update(observer as int, Seq::empty()),
    {
        proof {
            assert(queues_of(self.queues@).len() == self.queues@.len());
        }
        let mut events: Vec<BrowserEvent> = Vec::new();
        std::mem::swap(&mut events, &mut self.queues[observer]);
        proof {
            assert(events_of(Seq::<BrowserEvent>::empty()) =~= Seq::empty());
            assert(self@ =~= old(self)@.update(observer as int, Seq::empty()));
        }
        events
    }
}

/// The names that the first column was last filled with anew.
pub open spec fn last_replaced_names(events: Seq<EventView>) -> Option<Seq<Seq<char>>>
    decreases events.len(),
{
    if events.len() == 0 {
        None
    } else {
        match events.last() {
            EventView::EntriesReplaced { depth, entries } => if depth == 0 {
                Some(entries.map_values(|entry: FileEntryView| entry.display_name))
            } else {
                last_replaced_names(events.drop_last())
            },
            _ => last_replaced_names(events.drop_last()),
        }
    }
}

/// The display names of the entries.
pub fn display_names(entries: &Vec<FileEntry>) -> (names: Vec<String>)
    ensures
        names@.map_values(|name: String| name@) == entries_of(entries@).map_values(
            |entry: FileEntryView| entry.display_name,
        ),
{
    let mut names: Vec<String> = Vec::new();
    let mut i: usize = 0;
    while i < entries.len()
        invariant
            i <= entries@.len(),
            names@.len() == i,
            forall|k: int| 0 <= k < i ==> (#[trigger] names@[k])@ == entries@[k].display_name@,
        decreases entries@.len() - i,
    {
        names.push(entries[i].display_name.clone());
        i += 1;
    }
    assert(names@.map_values(|name: String| name@) =~= entries_of(entries@).map_values(
        |entry: FileEntryView| entry.display_name,
    ));
    names
}

/// The names that the first column was last filled with anew.
pub fn replaced_names(events: &[BrowserEvent]) -> (names: Option<Vec<String>>)
    ensures
        match names {
            Some(list) => last_replaced_names(events_of(events@)) == Some(
                list@.map_values(|name: String| name@),
            ),
            None => last_replaced_names(events_of(events@)) is None,
        },
{
    let ghost views = events_of(events@);
    let mut n: usize = events.len();
    proof {
        assert(views.take(n as int) =~= views);
    }
    while n > 0
        invariant
            views == events_of(events@),
            n <= events@.len(),
            last_replaced_names(views) == last_replaced_names(views.take(n as int)),
        decreases n,
    {
        proof {
            assert(views.take(n as int).last() == events@[n - 1]@);
            assert(views.take(n as int).drop_last() =~= views.take(n - 1));
        }
        if let BrowserEvent::EntriesReplaced { depth, entries } = &events[n - 1] {
            if *depth == 0 {
                return Some(display_names(entries));
            }
        }
        n -= 1;
    }
    None
}

/// The names that the first column was last filled with are those of the last event that filled it
/// anew. Any other event leaves them as they are.
pub proof fn lemma_last_filling_counts(
    events: Seq<EventView>,
    depth: int,
    entries: Seq<FileEntryView>,
    other: EventView,
)
    requires
        !(other is EntriesReplaced),
    ensures
        ({
            let filled = events.push(EventView::EntriesReplaced { depth, entries });
            let names = last_replaced_names(filled);
            &&& depth == 0 ==> names is Some && names->0.len() == entries.len() && forall|k: int|
                0 <= k < entries.len() ==> #[trigger] names->0[k] == entries[k].display_name
            &&& depth != 0 ==> names == last_replaced_names(events)
            &&& last_replaced_names(events.push(other)) == last_replaced_names(events)
            &&& last_replaced_names(Seq::empty()) is None
        }),
{
    assert(events.push(EventView::EntriesReplaced { depth, entries }).drop_last() =~= events);
    assert(events.push(other).drop_last() =~= events);
}

} // verus!
