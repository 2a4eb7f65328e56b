//! Annotations attached to definitions and queries.

use vstd::prelude::*;

verus! {

/// An annotation `@name(key = 'value', ...)`.
#[derive(Debug, Clone)]
pub struct Annotation {
    pub name: String,
    pub elements: Vec<(String, String)>,
}

impl Annotation {
    /// An annotation with no elements.
    pub fn new(name: String) -> (r: Self)
        ensures
            r.name@ == name@,
            r.elements@.len() == 0,
    {
        Annotation { name, elements: Vec::new() }
    }
}

} // verus!
