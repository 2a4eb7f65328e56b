//! Sink mappers: events into bytes for outside.

use vstd::prelude::*;
use crate::engine::event::Event;
use crate::engine::exception::EventFluxError;

verus! {

/// How a sink mapper lays out what it writes.
#[derive(Debug, Clone)]
pub enum SinkLayout {
    /// Delimited text, with or without a header line.
    Csv { delimiter: String, header: bool },
    /// JSON documents, filled into a template when there is one.
    Json { template: Option<String>, pretty_print: bool },
    /// Some other layout.
    Other,
}

/// Turns events into raw output.
pub trait SinkMapper {
    /// How the mapper lays out its output.
    spec fn layout(&self) -> SinkLayout;

    fn map(&self, events: &[Event]) -> Result<Vec<u8>, EventFluxError>;
}

/// A mapper into the engine's own binary encoding of events.
#[derive(Debug, Clone)]
pub struct PassthroughMapper;

impl PassthroughMapper {
    pub fn new() -> (r: Self) {
        PassthroughMapper
    }
}

} // verus!
