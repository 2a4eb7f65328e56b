//! Source positions shared by query elements.

use vstd::prelude::*;

verus! {

/// Where an element starts and ends in the query text, when known.
#[derive(Debug, Clone, Copy)]
pub struct EventFluxElement {
    pub query_context_start_index: Option<(i32, i32)>,
    pub query_context_end_index: Option<(i32, i32)>,
}

impl Default for EventFluxElement {
    fn default() -> (r: Self)
        ensures
            r.query_context_start_index is None,
            r.query_context_end_index is None,
    {
        EventFluxElement { query_context_start_index: None, query_context_end_index: None }
    }
}

} // verus!
