//! Sinks: components that write events outside the engine.

use vstd::prelude::*;
use crate::engine::event::Event;
use crate::engine::exception::EventFluxError;

verus! {

/// A destination for the events of one stream.
pub trait Sink {
    /// Whether the sink is accepting events for delivery.
    spec fn started(&self) -> bool;

    /// The settings the sink runs with, as text by key.
    spec fn settings(&self) -> Map<Seq<char>, Seq<char>>;

    /// Receives a batch of events.
    fn receive_events(&mut self, events: &[Event]);

    /// Opens the sink.
    fn start(&mut self)
        ensures
            final(self).started(),
    ;

    /// Closes the sink.
    fn stop(&mut self)
        ensures
            !final(self).started(),
    ;

    /// Checks that the external system can be reached.
    fn validate_connectivity(&self) -> Result<(), EventFluxError> {
        Ok(())
    }
}

/// A sink that records how many events it was given (the events themselves
/// are written to the log by the application).
#[derive(Debug, Clone)]
pub struct LogSink {
    pub prefix: String,
    pub received: u64,
    pub open: bool,
}

impl LogSink {
    pub fn new() -> (r: Self)
        ensures
            r.prefix@.len() == 0,
            r.received == 0,
            !r.open,
    {
        LogSink { prefix: String::new(), received: 0, open: false }
    }
}

/// `a + b`, or `u64::MAX` where the sum does not fit.
pub open spec fn saturating_sum(a: u64, b: int) -> u64 {
    if a + b > u64::MAX { u64::MAX } else { (a + b) as u64 }
}

impl Sink for LogSink {
    open spec fn started(&self) -> bool {
        self.open
    }

    open spec fn settings(&self) -> Map<Seq<char>, Seq<char>> {
        map!["log.prefix"@ => self.prefix@]
    }

    /// Counts the events of the batch.
    fn receive_events(&mut self, events: &[Event])
        ensures
            final(self).received == saturating_sum(old(self).received, events@.len() as int),
            final(self).prefix == old(self).prefix,
            final(self).open == old(self).open,
    {
        let n = events.len() as u64;
        self.received = self.received.saturating_add(n);
    }

    /// Marks the sink open.
    fn start(&mut self)
        ensures
            final(self).received == old(self).received,
            final(self).prefix == old(self).prefix,
    {
        self.open = true;
    }

    /// Marks the sink closed.
    fn stop(&mut self)
        ensures
            final(self).received == old(self).received,
            final(self).prefix == old(self).prefix,
    {
        self.open = false;
    }

}

} // verus!
