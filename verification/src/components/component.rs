//! What a component reports after handling an event.

use vstd::prelude::*;

verus! {

use crate::event::Event;

/// Whether an event was handled, and what the component asks for in turn.
pub struct DispatchEventResult {
    pub handled: bool,
    pub events: Vec<Event>,
}

impl DispatchEventResult {
    /// An unhandled event with nothing to ask for.
    pub fn empty() -> (r: DispatchEventResult)
        ensures
            !r.handled,
            r.events@ == Seq::<Event>::empty(),
    {
        DispatchEventResult { handled: false, events: Vec::new() }
    }
}

} // verus!
