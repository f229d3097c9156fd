//! Input events and the latest-wins slot that feeds them to the
//! simulation, at most one per tick.

use vstd::prelude::*;

verus! {

/// An input event: a click at device pixel coordinates relative to
/// the board's origin.
#[derive(Clone, Copy, PartialEq, Eq, Structural, Debug)]
pub enum Event {
    Click { x: i32, y: i32 },
}

/// The pending state after recording `evt`: it replaces whatever was
/// pending before.
pub open spec fn push_spec(ep: EventProcessor, evt: Event) -> EventProcessor {
    EventProcessor { pending: Some(evt) }
}

/// Holds at most the most recent input event not yet consumed by a
/// simulation tick. Recording a new event discards the older one;
/// each tick drains the slot.
pub struct EventProcessor {
    pub pending: Option<Event>,
}

impl EventProcessor {
    pub fn new() -> (ep: EventProcessor)
        ensures
            ep.pending == Option::<Event>::None,
    {
        EventProcessor { pending: None }
    }

    /// Record an input event, discarding any older pending one.
    pub fn push(&mut self, evt: Event)
        ensures
            *final(self) == push_spec(*old(self), evt),
    {
        self.pending = Some(evt);
    }

    /// Take the pending event, if any, leaving the slot empty.
    pub fn process(&mut self) -> (evt: Option<Event>)
        ensures
            evt == old(self).pending,
            final(self).pending == Option::<Event>::None,
    {
        let evt = self.pending;
        self.pending = None;
        evt
    }
}

/// Input coalescing: when two events are recorded before a tick
/// boundary is reached, the tick that then drains the slot sees only
/// the later event; the earlier one is discarded unprocessed.
pub proof fn lemma_input_coalescing(ep: EventProcessor, e1: Event, e2: Event)
    ensures
        push_spec(push_spec(ep, e1), e2).pending == Some(e2),
{
}

} // verus!
