//! The engine-wide context: the registries of extension factories.

use vstd::prelude::*;
use crate::engine::extension::{SourceFactory, SinkFactory, SourceMapperFactory, SinkMapperFactory, TimerSourceFactory, LogSinkFactory};
use crate::property_map::NamedRegistry;

verus! {

/// Factories registered by name: sources and sinks by extension, mappers by format.
pub struct EventFluxContext {
    pub source_factories: NamedRegistry<Box<dyn SourceFactory>>,
    pub sink_factories: NamedRegistry<Box<dyn SinkFactory>>,
    pub source_mapper_factories: NamedRegistry<Box<dyn SourceMapperFactory>>,
    pub sink_mapper_factories: NamedRegistry<Box<dyn SinkMapperFactory>>,
}

impl EventFluxContext {
    /// A context with the built-in `timer` source and `log` sink and no mappers.
    pub fn new() -> (r: Self)
        ensures
            r.source_factories.names_set() == set!["timer"@],
            r.sink_factories.names_set() == set!["log"@],
            r.source_mapper_factories.names_set() == Set::<Seq<char>>::empty(),
            r.sink_mapper_factories.names_set() == Set::<Seq<char>>::empty(),
    {
        let mut source_factories: NamedRegistry<Box<dyn SourceFactory>> = NamedRegistry::new();
        let timer: Box<dyn SourceFactory> = Box::new(TimerSourceFactory);
        source_factories.register(crate::text::owned("timer"), timer);
        proof {
            assert(source_factories.names_set() =~= set!["timer"@]);
        }
        let mut sink_factories: NamedRegistry<Box<dyn SinkFactory>> = NamedRegistry::new();
        let log: Box<dyn SinkFactory> = Box::new(LogSinkFactory);
        sink_factories.register(crate::text::owned("log"), log);
        proof {
            assert(sink_factories.names_set() =~= set!["log"@]);
        }
        let r = EventFluxContext {
            source_factories,
            sink_factories,
            source_mapper_factories: NamedRegistry::new(),
            sink_mapper_factories: NamedRegistry::new(),
        };
        proof {
        }
        r
    }

    /// Registers a source factory under an extension name.
    pub fn add_source_factory(&mut self, name: String, factory: Box<dyn SourceFactory>)
        ensures
            final(self).source_factories.items() == old(self).source_factories.items().insert(name@, factory),
            final(self).source_factories.names_set() == old(self).source_factories.names_set().insert(name@),
            final(self).sink_factories.items() == old(self).sink_factories.items(),
            final(self).sink_factories.names_set() == old(self).sink_factories.names_set(),
            final(self).source_mapper_factories.items() == old(self).source_mapper_factories.items(),
            final(self).source_mapper_factories.names_set() == old(self).source_mapper_factories.names_set(),
            final(self).sink_mapper_factories.items() == old(self).sink_mapper_factories.items(),
            final(self).sink_mapper_factories.names_set() == old(self).sink_mapper_factories.names_set(),
    {
        self.source_factories.register(name, factory);
    }

    /// Registers a sink factory under an extension name.
    pub fn add_sink_factory(&mut self, name: String, factory: Box<dyn SinkFactory>)
        ensures
            final(self).sink_factories.items() == old(self).sink_factories.items().insert(name@, factory),
            final(self).sink_factories.names_set() == old(self).sink_factories.names_set().insert(name@),
            final(self).source_factories.items() == old(self).source_factories.items(),
            final(self).source_factories.names_set() == old(self).source_factories.names_set(),
            final(self).source_mapper_factories.items() == old(self).source_mapper_factories.items(),
            final(self).source_mapper_factories.names_set() == old(self).source_mapper_factories.names_set(),
            final(self).sink_mapper_factories.items() == old(self).sink_mapper_factories.items(),
            final(self).sink_mapper_factories.names_set() == old(self).sink_mapper_factories.names_set(),
    {
        self.sink_factories.register(name, factory);
    }

    /// Registers a source mapper factory under a format name.
    pub fn add_source_mapper_factory(&mut self, name: String, factory: Box<dyn SourceMapperFactory>)
        ensures
            final(self).source_mapper_factories.items() == old(self).source_mapper_factories.items().insert(name@, factory),
            final(self).source_mapper_factories.names_set() == old(self).source_mapper_factories.names_set().insert(name@),
            final(self).source_factories.items() == old(self).source_factories.items(),
            final(self).source_factories.names_set() == old(self).source_factories.names_set(),
            final(self).sink_factories.items() == old(self).sink_factories.items(),
            final(self).sink_factories.names_set() == old(self).sink_factories.names_set(),
            final(self).sink_mapper_factories.items() == old(self).sink_mapper_factories.items(),
            final(self).sink_mapper_factories.names_set() == old(self).sink_mapper_factories.names_set(),
    {
        self.source_mapper_factories.register(name, factory);
    }

    /// Registers a sink mapper factory under a format name.
    pub fn add_sink_mapper_factory(&mut self, name: String, factory: Box<dyn SinkMapperFactory>)
        ensures
            final(self).sink_mapper_factories.items() == old(self).sink_mapper_factories.items().insert(name@, factory),
            final(self).sink_mapper_factories.names_set() == old(self).sink_mapper_factories.names_set().insert(name@),
            final(self).source_factories.items() == old(self).source_factories.items(),
            final(self).source_factories.names_set() == old(self).source_factories.names_set(),
            final(self).sink_factories.items() == old(self).sink_factories.items(),
            final(self).sink_factories.names_set() == old(self).sink_factories.names_set(),
            final(self).source_mapper_factories.items() == old(self).source_mapper_factories.items(),
            final(self).source_mapper_factories.names_set() == old(self).source_mapper_factories.names_set(),
    {
        self.sink_mapper_factories.register(name, factory);
    }

    pub fn get_source_factory(&self, name: &str) -> (r: Option<&Box<dyn SourceFactory>>)
        ensures
            r matches Some(f) ==> self.source_factories.items().contains_key(name@) && *f == self.source_factories.items()[name@],
            r is None ==> !self.source_factories.items().contains_key(name@),
            r is Some <==> self.source_factories.names_set().contains(name@),
    {
        self.source_factories.get(name)
    }

    pub fn get_sink_factory(&self, name: &str) -> (r: Option<&Box<dyn SinkFactory>>)
        ensures
            r matches Some(f) ==> self.sink_factories.items().contains_key(name@) && *f == self.sink_factories.items()[name@],
            r is None ==> !self.sink_factories.items().contains_key(name@),
            r is Some <==> self.sink_factories.names_set().contains(name@),
    {
        self.sink_factories.get(name)
    }

    pub fn get_source_mapper_factory(&self, name: &str) -> (r: Option<&Box<dyn SourceMapperFactory>>)
        ensures
            r matches Some(f) ==> self.source_mapper_factories.items().contains_key(name@) && *f == self.source_mapper_factories.items()[name@],
            r is None ==> !self.source_mapper_factories.items().contains_key(name@),
            r is Some <==> self.source_mapper_factories.names_set().contains(name@),
    {
        self.source_mapper_factories.get(name)
    }

    pub fn get_sink_mapper_factory(&self, name: &str) -> (r: Option<&Box<dyn SinkMapperFactory>>)
        ensures
            r matches Some(f) ==> self.sink_mapper_factories.items().contains_key(name@) && *f == self.sink_mapper_factories.items()[name@],
            r is None ==> !self.sink_mapper_factories.items().contains_key(name@),
            r is Some <==> self.sink_mapper_factories.names_set().contains(name@),
    {
        self.sink_mapper_factories.get(name)
    }
}

/// Registering a factory and looking it up by the same name gives it back;
/// other names are unaffected.
pub proof fn law_register_then_lookup<F>(items: Map<Seq<char>, F>, name: Seq<char>, f: F, other: Seq<char>)
    requires
        other != name,
    ensures
        items.insert(name, f).contains_key(name),
        items.insert(name, f)[name] == f,
        items.insert(name, f).contains_key(other) == items.contains_key(other),
        items.contains_key(other) ==> items.insert(name, f)[other] == items[other],
{
}

} // verus!
