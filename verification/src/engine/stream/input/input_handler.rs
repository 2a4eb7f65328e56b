//! The entry point through which a source hands events to a stream.

use vstd::prelude::*;
use crate::engine::event::Event;

verus! {

/// Receives the events that a source produces for one stream.
#[derive(Debug)]
pub struct InputHandler {
    pub stream_id: String,
    pub stream_index: usize,
    pub pending: Vec<Event>,
}

impl InputHandler {
    pub fn new(stream_id: String, stream_index: usize) -> (r: Self)
        ensures
            r.stream_id@ == stream_id@,
            r.stream_index == stream_index,
            r.pending_events().len() == 0,
    {
        InputHandler { stream_id, stream_index, pending: Vec::new() }
    }

    pub open spec fn pending_events(&self) -> Seq<Event> {
        self.pending@
    }

    /// Queues an event for the stream.
    pub fn send(&mut self, event: Event)
        ensures
            final(self).pending_events() == old(self).pending_events().push(event),
            final(self).stream_id == old(self).stream_id,
    {
        self.pending.push(event);
    }

    /// The queued events, which are removed.
    pub fn take_events(&mut self) -> (r: Vec<Event>)
        ensures
            r@ == old(self).pending_events(),
            final(self).pending_events().len() == 0,
            final(self).stream_id == old(self).stream_id,
    {
        let mut out: Vec<Event> = Vec::new();
        std::mem::swap(&mut out, &mut self.pending);
        out
    }
}

} // verus!
