use vstd::prelude::*;

use crate::id::{Id, IdPath};

verus! {

/// Typed payload of an event routed through the view tree.
#[derive(Clone, Copy, PartialEq, Eq, Structural, Debug)]
pub enum EventBody {
    /// An asynchronous task completed; delivered by draining the wake queue.
    AsyncWake,
    /// A button was activated by platform input.
    Pressed,
    /// An observer widget reports that it reached its observation point.
    Notify,
}

/// A targeted payload: consumed and discarded within one cycle.
#[derive(Clone, Debug)]
pub struct Event {
    /// Root-to-node routing key; the first segment names the driver itself.
    pub id_path: IdPath,
    pub body: EventBody,
}

impl Event {
    pub fn new(id_path: IdPath, body: EventBody) -> (e: Event)
        ensures
            e.id_path == id_path,
            e.body == body,
    {
        Event { id_path, body }
    }
}

/// The id-path-and-body content of each event in a queue, in order. Two
/// queues with equal views carry the same information to dispatch.
pub open spec fn event_views(s: Seq<Event>) -> Seq<(Seq<Id>, EventBody)> {
    s.map_values(|e: Event| (e.id_path@, e.body))
}

} // verus!
