//! Sources: components that read events from outside the engine.

use vstd::prelude::*;
use crate::number::int_text;
use crate::engine::exception::EventFluxError;
use super::input_handler::InputHandler;

verus! {

/// A source of events for one stream.
pub trait Source {
    /// Whether the source is delivering events.
    spec fn started(&self) -> bool;

    /// The settings the source runs with, as text by key.
    spec fn settings(&self) -> Map<Seq<char>, Seq<char>>;

    /// Starts delivering events to `handler`.
    fn start(&mut self, handler: &mut InputHandler)
        ensures
            final(self).started(),
    ;

    /// Stops delivering events.
    fn stop(&mut self)
        ensures
            !final(self).started(),
    ;

    /// Checks that the external system can be reached.
    fn validate_connectivity(&self) -> Result<(), EventFluxError> {
        Ok(())
    }
}

/// A source that emits an event at a fixed interval.
#[derive(Debug, Clone)]
pub struct TimerSource {
    pub interval_ms: u64,
    pub running: bool,
}

impl TimerSource {
    pub fn new(interval_ms: u64) -> (r: Self)
        ensures
            r.interval_ms == interval_ms,
            !r.running,
    {
        TimerSource { interval_ms, running: false }
    }
}

impl Source for TimerSource {
    open spec fn started(&self) -> bool {
        self.running
    }

    open spec fn settings(&self) -> Map<Seq<char>, Seq<char>> {
        map!["timer.interval"@ => int_text(self.interval_ms as int)]
    }

    /// Marks the timer running.
    fn start(&mut self, handler: &mut InputHandler)
        ensures
            final(self).running,
            final(self).interval_ms == old(self).interval_ms,
    {
        self.running = true;
    }

    /// Marks the timer stopped.
    fn stop(&mut self)
        ensures
            !final(self).running,
            final(self).interval_ms == old(self).interval_ms,
    {
        self.running = false;
    }

}

} // verus!
