//! An application: its name, and its stream and table definitions by name.

use vstd::prelude::*;
use crate::property_map::NamedRegistry;
use crate::query_api::definition::stream_definition::{StreamDefinition, TableDefinition};

verus! {

/// An application as the runtime is created from it.
#[derive(Debug)]
pub struct EventFluxApp {
    pub name: String,
    pub stream_definition_map: NamedRegistry<StreamDefinition>,
    pub table_definition_map: NamedRegistry<TableDefinition>,
}

impl EventFluxApp {
    /// An application with no streams and no tables.
    pub fn new(name: String) -> (r: Self)
        ensures
            r.name@ == name@,
            r.stream_definition_map.items() == Map::<Seq<char>, StreamDefinition>::empty(),
            r.table_definition_map.items() == Map::<Seq<char>, TableDefinition>::empty(),
    {
        EventFluxApp { name, stream_definition_map: NamedRegistry::new(), table_definition_map: NamedRegistry::new() }
    }
}

} // verus!
