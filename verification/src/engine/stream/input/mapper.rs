//! Source mappers: bytes from outside into events.

use vstd::prelude::*;
use crate::engine::event::Event;
use crate::engine::exception::EventFluxError;
use crate::engine::stream::mapper::csv_mapper::{CsvSourceMapper, csv_map_result};
use crate::engine::stream::mapper::json_mapper::{JsonMapOutcome, events_match};

verus! {

/// Turns raw input into events.
pub trait SourceMapper {
    /// What the mapper makes of `input`, where it describes that as an
    /// outcome of a single document (no event, one event, or a failure).
    spec fn outcome(&self, input: &[u8]) -> Option<JsonMapOutcome>;

    /// The CSV reading the mapper does, where it reads CSV records.
    spec fn csv_reading(&self) -> Option<CsvSourceMapper>;

    /// The events read from `input`; a mapper that describes its outcome
    /// yields what that outcome says, and one that reads CSV yields the
    /// records of its settings; each stamped with some timestamp.
    fn map(&self, input: &[u8]) -> (r: Result<Vec<Event>, EventFluxError>)
        ensures
            self.outcome(input) matches Some(o) ==> exists|t: i64| events_match(r, o, t),
            self.csv_reading() matches Some(c) ==> exists|t: i64| csv_map_result(c, input@, r, t),
    ;
}

/// A mapper for events already in the engine's own binary encoding.
#[derive(Debug, Clone)]
pub struct PassthroughMapper;

impl PassthroughMapper {
    pub fn new() -> (r: Self) {
        PassthroughMapper
    }
}

} // verus!
