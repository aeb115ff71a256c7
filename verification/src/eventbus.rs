use vstd::prelude::*;
use crate::runspec::{Event, EventView, events_view};

verus! {

/// Receives the events of a run as they happen.
pub trait EventBus {
    fn publish(&mut self, event: Event);

    fn snapshot(&self) -> Vec<Event>;
}

/// Keeps published events in memory, in order.
pub struct InMemoryEventBus {
    events: Vec<Event>,
}

impl InMemoryEventBus {
    /// The events published so far, in order.
    pub closed spec fn published(&self) -> Seq<EventView> {
        events_view(self.events@)
    }

    /// A bus with no events.
    pub fn new() -> (r: Self)
        ensures
            r.published() == Seq::<EventView>::empty(),
    {
        let r = InMemoryEventBus { events: Vec::new() };
        assert(events_view(r.events@) =~= Seq::<EventView>::empty());
        r
    }
}

impl Default for InMemoryEventBus {
    fn default() -> (r: Self)
        ensures
            r.published() == Seq::<EventView>::empty(),
    {
        InMemoryEventBus::new()
    }
}

impl EventBus for InMemoryEventBus {
    fn publish(&mut self, event: Event)
        ensures
            final(self).published() == old(self).published().push(event@),
    {
        let ghost before = self.events@;
        self.events.push(event);
        assert(events_view(self.events@) =~= events_view(before).push(event@));
    }

    fn snapshot(&self) -> (r: Vec<Event>)
        ensures
            events_view(r@) == self.published(),
    {
        let mut r: Vec<Event> = Vec::new();
        let mut i: usize = 0;
        while i < self.events.len()
            invariant
                i <= self.events@.len(),
                r@.len() == i,
                forall|j: int| 0 <= j < i ==> #[trigger] r@[j]@ == self.events@[j]@,
            decreases self.events@.len() - i,
        {
            r.push(self.events[i].clone());
            i = i + 1;
        }
        assert(events_view(r@) =~= events_view(self.events@));
        r
    }
}

} // verus!
