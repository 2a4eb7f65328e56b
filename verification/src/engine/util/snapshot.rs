//! Records describing persisted snapshots.

use vstd::prelude::*;

verus! {

/// One element's serialized state: element id and its bytes.
pub type ElementState = Vec<(String, Vec<u8>)>;

/// Incremental snapshot: per component id, the serialized state of each element.
#[derive(Debug, Default)]
pub struct IncrementalSnapshot {
    pub incremental_state: Vec<(String, ElementState)>,
    pub incremental_state_base: Vec<(String, ElementState)>,
    pub periodic_state: Vec<(String, ElementState)>,
}

/// Reference to a persisted snapshot revision.
#[derive(Debug, Clone)]
pub struct PersistenceReference {
    pub revision: String,
}

impl PersistenceReference {
    pub fn new(revision: String) -> (r: Self)
        ensures
            r.revision@ == revision@,
    {
        PersistenceReference { revision }
    }
}

} // verus!
