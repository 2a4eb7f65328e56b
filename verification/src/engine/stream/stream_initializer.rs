//! Stream initialization: dependency graphs of streams (query and dead-letter
//! dependencies), the order in which streams are initialized, and the creation
//! of source and sink components through the factory registry.

use vstd::prelude::*;
use crate::engine::config::stream_config::FlatConfig;
use crate::engine::exception::EventFluxError;
use crate::engine::stream::dependency_graph::{DependencyGraph, depends_on, is_init_order, has_dep_cycle, is_dep_cycle, dep_cycle_through, cycle_message, is_node};
use crate::query_api::definition::stream_definition::StreamDefinition;
use crate::query_api::execution::query::{Query, query_sources, query_target};
use crate::property_map::string_views;
use crate::engine::config::eventflux_context::EventFluxContext;
use crate::engine::config::stream_config::{StreamType, StreamTypeConfig, opt_view, lemma_stream_type_names, stream_config_error};
use crate::engine::stream::input::source::Source;
use crate::engine::stream::input::mapper::SourceMapper;
use crate::engine::stream::output::sink::Sink;
use crate::engine::stream::output::mapper::SinkMapper;
use crate::text::{concat, owned, str_eq, str_list_contains, lowercase};
use crate::engine::stream::handler::{SinkStreamHandler, SourceStreamHandler};
use crate::engine::stream::input::input_handler::InputHandler;

verus! {

/// The configuration key naming a stream's dead-letter stream.
pub open spec fn dlq_key() -> Seq<char> {
    "error.dlq.stream"@
}

/// Query `k` inserts into `a`.
pub open spec fn query_writes(queries: Seq<Query>, k: int, a: Seq<char>) -> bool {
    query_target(queries[k]) == Some(a)
}

/// Parsed stream `k` is named `a` and has a dead-letter stream.
pub open spec fn stream_has_dlq(streams: Seq<(String, (StreamDefinition, FlatConfig))>, k: int, a: Seq<char>) -> bool {
    streams[k].0@ == a && streams[k].1.1@.contains_key(dlq_key())
}

/// Some of the first `n` queries inserts into `a`.
pub open spec fn written_by_queries(queries: Seq<Query>, n: int, a: Seq<char>) -> bool {
    exists|k: int| 0 <= k < n && #[trigger] query_writes(queries, k, a)
}

/// Some of the first `n` queries inserts into `a` and reads `b`.
pub open spec fn query_dependency(queries: Seq<Query>, n: int, a: Seq<char>, b: Seq<char>) -> bool {
    exists|k: int| 0 <= k < n && #[trigger] query_writes(queries, k, a) && query_sources(queries[k]).contains(b)
}

/// Some of the first `n` parsed streams is named `a` and has a dead-letter stream.
pub open spec fn has_dlq(streams: Seq<(String, (StreamDefinition, FlatConfig))>, n: int, a: Seq<char>) -> bool {
    exists|k: int| 0 <= k < n && #[trigger] stream_has_dlq(streams, k, a)
}

/// Some of the first `n` parsed streams is named `a` with dead-letter stream `b`.
pub open spec fn dlq_dependency(streams: Seq<(String, (StreamDefinition, FlatConfig))>, n: int, a: Seq<char>, b: Seq<char>) -> bool {
    exists|k: int| 0 <= k < n && #[trigger] stream_has_dlq(streams, k, a) && streams[k].1.1@[dlq_key()].0 == b
}

/// Builds the dependency graph of the streams: a query's target depends on every
/// stream the query reads, and a stream depends on its dead-letter stream.
pub fn build_dependency_graph(
    parsed_streams: &Vec<(String, (StreamDefinition, FlatConfig))>,
    queries: &Vec<Query>,
) -> (g: DependencyGraph)
    ensures
        forall|a: Seq<char>| #[trigger] g@.contains_key(a) <==>
            (written_by_queries(queries@, queries@.len() as int, a) || has_dlq(parsed_streams@, parsed_streams@.len() as int, a)),
        forall|a: Seq<char>, b: Seq<char>| #[trigger] depends_on(g@, a, b) <==>
            (query_dependency(queries@, queries@.len() as int, a, b) || dlq_dependency(parsed_streams@, parsed_streams@.len() as int, a, b)),
{
    let mut g = DependencyGraph::new();
    let mut i: usize = 0;
    while i < queries.len()
        invariant
            i <= queries@.len(),
            forall|a: Seq<char>| #[trigger] g@.contains_key(a) <==> written_by_queries(queries@, i as int, a),
            forall|a: Seq<char>, b: Seq<char>| #[trigger] depends_on(g@, a, b) <==> query_dependency(queries@, i as int, a, b),
        decreases queries@.len() - i,
    {
        let ghost before = g@;
        match queries[i].get_target_stream() {
            Some(target) => {
                let sources = queries[i].get_source_streams();
                g.ensure_node(target.as_str());
                let ghost mid = g@;
                g.add_dependencies(target.as_str(), &sources);
                proof {
                    assert(query_writes(queries@, i as int, target@));
                    assert forall|a: Seq<char>| #[trigger] g@.contains_key(a) <==> written_by_queries(queries@, i + 1, a) by {
                        if written_by_queries(queries@, i + 1, a) {
                            let k = choose|k: int| 0 <= k < i + 1 && #[trigger] query_writes(queries@, k, a);
                            if k < i {
                                assert(written_by_queries(queries@, i as int, a));
                            }
                        }
                        if a != target@ && g@.contains_key(a) {
                            let k = choose|k: int| 0 <= k < i && #[trigger] query_writes(queries@, k, a);
                            assert(0 <= k < i + 1);
                        }
                    }
                    assert forall|a: Seq<char>, b: Seq<char>| #[trigger] depends_on(g@, a, b) <==> query_dependency(queries@, i + 1, a, b) by {
                        let qd_old = query_dependency(queries@, i as int, a, b);
                        let qd_new = query_dependency(queries@, i + 1, a, b);
                        if qd_new {
                            let k = choose|k: int| 0 <= k < i + 1 && #[trigger] query_writes(queries@, k, a) && query_sources(queries@[k]).contains(b);
                            if k < i {
                                assert(qd_old);
                            } else {
                                assert(a == target@);
                                assert(string_views(sources@).contains(b));
                            }
                        }
                        if qd_old {
                            let k = choose|k: int| 0 <= k < i && #[trigger] query_writes(queries@, k, a) && query_sources(queries@[k]).contains(b);
                            assert(0 <= k < i + 1);
                            assert(qd_new);
                            assert(depends_on(before, a, b));
                        }
                        if before.contains_key(a) && before[a].contains(b) {
                            assert(depends_on(before, a, b));
                            assert(qd_old);
                        }
                        if a == target@ {
                            assert(mid.contains_key(a));
                            assert(mid[a].contains(b) <==> (before.contains_key(a) && before[a].contains(b)));
                            assert(g@.contains_key(a));
                            assert(g@[a].contains(b) <==> ((mid.contains_key(a) && mid[a].contains(b)) || string_views(sources@).contains(b)));
                            if string_views(sources@).contains(b) {
                                assert(0 <= i < i + 1 && query_writes(queries@, i as int, a) && query_sources(queries@[i as int]).contains(b));
                                assert(qd_new);
                            }
                        } else {
                            assert(mid.contains_key(a) == before.contains_key(a));
                            assert(g@.contains_key(a) == before.contains_key(a));
                            if before.contains_key(a) {
                                assert(g@[a] == before[a]);
                            }
                        }
                    }
                }
            },
            None => {
                proof {
                    assert forall|a: Seq<char>| #[trigger] g@.contains_key(a) <==> written_by_queries(queries@, i + 1, a) by {
                        if written_by_queries(queries@, i + 1, a) {
                            let k = choose|k: int| 0 <= k < i + 1 && #[trigger] query_writes(queries@, k, a);
                            if k < i {
                                assert(written_by_queries(queries@, i as int, a));
                            }
                        }
                        if g@.contains_key(a) {
                            let k = choose|k: int| 0 <= k < i && #[trigger] query_writes(queries@, k, a);
                            assert(0 <= k < i + 1);
                        }
                    }
                    assert forall|a: Seq<char>, b: Seq<char>| #[trigger] depends_on(g@, a, b) <==> query_dependency(queries@, i + 1, a, b) by {
                        if query_dependency(queries@, i + 1, a, b) {
                            let k = choose|k: int| 0 <= k < i + 1 && #[trigger] query_writes(queries@, k, a) && query_sources(queries@[k]).contains(b);
                            if k < i {
                                assert(query_dependency(queries@, i as int, a, b));
                            }
                        }
                        if depends_on(g@, a, b) {
                            let k = choose|k: int| 0 <= k < i && #[trigger] query_writes(queries@, k, a) && query_sources(queries@[k]).contains(b);
                            assert(0 <= k < i + 1);
                        }
                    }
                }
            },
        }
        i = i + 1;
    }
    let mut j: usize = 0;
    while j < parsed_streams.len()
        invariant
            j <= parsed_streams@.len(),
            forall|a: Seq<char>| #[trigger] g@.contains_key(a) <==>
                (written_by_queries(queries@, queries@.len() as int, a) || has_dlq(parsed_streams@, j as int, a)),
            forall|a: Seq<char>, b: Seq<char>| #[trigger] depends_on(g@, a, b) <==>
                (query_dependency(queries@, queries@.len() as int, a, b) || dlq_dependency(parsed_streams@, j as int, a, b)),
        decreases parsed_streams@.len() - j,
    {
        let ghost before = g@;
        let name = &parsed_streams[j].0;
        match parsed_streams[j].1.1.get("error.dlq.stream") {
            Some(dlq) => {
                g.add_dependency(name.as_str(), dlq.as_str());
                proof {
                    assert(stream_has_dlq(parsed_streams@, j as int, name@));
                    assert forall|a: Seq<char>| #[trigger] g@.contains_key(a) <==>
                        (written_by_queries(queries@, queries@.len() as int, a) || has_dlq(parsed_streams@, j + 1, a)) by {
                        if has_dlq(parsed_streams@, j + 1, a) {
                            let k = choose|k: int| 0 <= k < j + 1 && #[trigger] stream_has_dlq(parsed_streams@, k, a);
                            if k < j {
                                assert(has_dlq(parsed_streams@, j as int, a));
                            }
                        }
                        if has_dlq(parsed_streams@, j as int, a) {
                            let k = choose|k: int| 0 <= k < j && #[trigger] stream_has_dlq(parsed_streams@, k, a);
                            assert(0 <= k < j + 1);
                        }
                    }
                    assert forall|a: Seq<char>, b: Seq<char>| #[trigger] depends_on(g@, a, b) <==>
                        (query_dependency(queries@, queries@.len() as int, a, b) || dlq_dependency(parsed_streams@, j + 1, a, b)) by {
                        let qd = query_dependency(queries@, queries@.len() as int, a, b);
                        let dd_old = dlq_dependency(parsed_streams@, j as int, a, b);
                        let dd_new = dlq_dependency(parsed_streams@, j + 1, a, b);
                        if dd_new {
                            let k = choose|k: int| 0 <= k < j + 1 && #[trigger] stream_has_dlq(parsed_streams@, k, a) && parsed_streams@[k].1.1@[dlq_key()].0 == b;
                            if k < j {
                                assert(dd_old);
                            } else {
                                assert(a == name@ && b == dlq@);
                            }
                        }
                        if dd_old {
                            let k = choose|k: int| 0 <= k < j && #[trigger] stream_has_dlq(parsed_streams@, k, a) && parsed_streams@[k].1.1@[dlq_key()].0 == b;
                            assert(0 <= k < j + 1);
                            assert(dd_new);
                        }
                        if qd || dd_old {
                            assert(depends_on(before, a, b));
                        }
                        if before.contains_key(a) && before[a].contains(b) {
                            assert(depends_on(before, a, b));
                            assert(qd || dd_old);
                        }
                        if a == name@ {
                            assert(g@.contains_key(a));
                            assert(g@[a].contains(b) <==> ((before.contains_key(a) && before[a].contains(b)) || b == dlq@));
                            if b == dlq@ {
                                assert(0 <= j < j + 1 && stream_has_dlq(parsed_streams@, j as int, a) && parsed_streams@[j as int].1.1@[dlq_key()].0 == b);
                                assert(dd_new);
                            }
                        } else {
                            assert(g@.contains_key(a) == before.contains_key(a));
                            if before.contains_key(a) {
                                assert(g@[a] == before[a]);
                            }
                        }
                    }
                }
            },
            None => {
                proof {
                    assert forall|a: Seq<char>| #[trigger] g@.contains_key(a) <==>
                        (written_by_queries(queries@, queries@.len() as int, a) || has_dlq(parsed_streams@, j + 1, a)) by {
                        if has_dlq(parsed_streams@, j + 1, a) {
                            let k = choose|k: int| 0 <= k < j + 1 && #[trigger] stream_has_dlq(parsed_streams@, k, a);
                            if k < j {
                                assert(has_dlq(parsed_streams@, j as int, a));
                            }
                        }
                        if has_dlq(parsed_streams@, j as int, a) {
                            let k = choose|k: int| 0 <= k < j && #[trigger] stream_has_dlq(parsed_streams@, k, a);
                            assert(0 <= k < j + 1);
                        }
                    }
                    assert forall|a: Seq<char>, b: Seq<char>| #[trigger] depends_on(g@, a, b) <==>
                        (query_dependency(queries@, queries@.len() as int, a, b) || dlq_dependency(parsed_streams@, j + 1, a, b)) by {
                        if dlq_dependency(parsed_streams@, j + 1, a, b) {
                            let k = choose|k: int| 0 <= k < j + 1 && #[trigger] stream_has_dlq(parsed_streams@, k, a) && parsed_streams@[k].1.1@[dlq_key()].0 == b;
                            if k < j {
                                assert(dlq_dependency(parsed_streams@, j as int, a, b));
                            }
                        }
                        if dlq_dependency(parsed_streams@, j as int, a, b) {
                            let k = choose|k: int| 0 <= k < j && #[trigger] stream_has_dlq(parsed_streams@, k, a) && parsed_streams@[k].1.1@[dlq_key()].0 == b;
                            assert(0 <= k < j + 1);
                        }
                    }
                }
            },
        }
        j = j + 1;
    }
    g
}

/// The initialization order of the streams of `dependencies`: every stream once,
/// after the streams it depends on; an error when the dependencies form a cycle.
pub fn topological_sort(dependencies: &DependencyGraph) -> (r: Result<Vec<String>, EventFluxError>)
    ensures
        r matches Ok(order) ==> is_init_order(dependencies@, string_views(order@)),
        r is Err <==> has_dep_cycle(dependencies@),
        r matches Err(e) ==> (e matches EventFluxError::AppCreation { message }
            && exists|x: Seq<char>| dep_cycle_through(dependencies@, x) && message@ == cycle_message(x)),
{
    dependencies.initialization_order()
}


/// A source stream's components, created and ready to use. The source and
/// mapper are held as the factories handed them over (always present), so
/// that what the factories promise of them carries over.
pub struct InitializedSource {
    pub source: Option<Box<dyn Source>>,
    pub mapper: Option<Box<dyn SourceMapper>>,
    pub extension: String,
    pub format: String,
}

/// A sink stream's components, created and ready to use (see
/// `InitializedSource`).
pub struct InitializedSink {
    pub sink: Option<Box<dyn Sink>>,
    pub mapper: Option<Box<dyn SinkMapper>>,
    pub extension: String,
    pub format: String,
}

/// The source and mapper of `x` are present and are ones the factories
/// registered for its extension and format build from `props`.
pub open spec fn source_built(context: EventFluxContext, x: InitializedSource, props: Map<Seq<char>, Seq<char>>) -> bool {
    &&& x.source matches Some(s) && context.source_factories.items()[x.extension@].builds(props, s.settings())
    &&& x.mapper matches Some(m)
        && context.source_mapper_factories.items()[x.format@].builds(props, |input: &[u8]| m.outcome(input), m.csv_reading())
}

/// The sink and mapper of `x` are present and are ones the factories
/// registered for its extension and format build from `props`.
pub open spec fn sink_built(context: EventFluxContext, x: InitializedSink, props: Map<Seq<char>, Seq<char>>) -> bool {
    &&& x.sink matches Some(s) && context.sink_factories.items()[x.extension@].builds(props, s.settings())
    &&& x.mapper matches Some(m) && context.sink_mapper_factories.items()[x.format@].builds(props, m.layout())
}

/// What initializing a stream produces.
pub enum InitializedStream {
    Source(InitializedSource),
    Sink(InitializedSink),
    Internal,
}

/// The extension a stream is configured with (meaningful when it has one).
pub open spec fn ext_of(c: StreamTypeConfig) -> Seq<char> {
    opt_view(c.extension)->0
}

/// The format a stream is configured with (meaningful when it has one).
pub open spec fn fmt_of(c: StreamTypeConfig) -> Seq<char> {
    opt_view(c.format)->0
}

/// A source stream's components can be created: its extension names a
/// registered source factory that supports its format, its format names a
/// registered mapper factory, and both factories accept its properties.
pub open spec fn source_init_ok(context: EventFluxContext, c: StreamTypeConfig) -> bool {
    &&& opt_view(c.extension) is Some
    &&& opt_view(c.format) is Some
    &&& source_parts_ok(context, ext_of(c), fmt_of(c), c.properties@)
}

/// A sink stream's components can be created (as for a source).
pub open spec fn sink_init_ok(context: EventFluxContext, c: StreamTypeConfig) -> bool {
    &&& opt_view(c.extension) is Some
    &&& opt_view(c.format) is Some
    &&& sink_parts_ok(context, ext_of(c), fmt_of(c), c.properties@)
}

/// The source factory named `ext` exists, supports format `fmt` and accepts
/// `props`, and the source mapper factory named `fmt` exists and accepts them.
pub open spec fn source_parts_ok(context: EventFluxContext, ext: Seq<char>, fmt: Seq<char>, props: Map<Seq<char>, Seq<char>>) -> bool {
    &&& context.source_factories.names_set().contains(ext)
    &&& context.source_factories.items()[ext].format_names().contains(fmt)
    &&& context.source_mapper_factories.names_set().contains(fmt)
    &&& context.source_factories.items()[ext].accepts(props)
    &&& context.source_mapper_factories.items()[fmt].accepts(props)
}

/// The factories of a source stream are registered and its extension's
/// factory supports its format.
pub open spec fn source_parts_found(context: EventFluxContext, ext: Seq<char>, fmt: Seq<char>) -> bool {
    &&& context.source_factories.names_set().contains(ext)
    &&& context.source_factories.items()[ext].format_names().contains(fmt)
    &&& context.source_mapper_factories.names_set().contains(fmt)
}

/// How the factories of a source stream refuse its properties: the source
/// factory's refusal where it refuses, else the mapper factory's.
pub open spec fn source_refusal(context: EventFluxContext, ext: Seq<char>, fmt: Seq<char>, props: Map<Seq<char>, Seq<char>>, e: EventFluxError) -> bool {
    if !context.source_factories.items()[ext].accepts(props) {
        context.source_factories.items()[ext].refuses_with(props, e)
    } else {
        context.source_mapper_factories.items()[fmt].refuses_with(props, e)
    }
}

/// As `source_parts_found`, for the sink factories.
pub open spec fn sink_parts_found(context: EventFluxContext, ext: Seq<char>, fmt: Seq<char>) -> bool {
    &&& context.sink_factories.names_set().contains(ext)
    &&& context.sink_factories.items()[ext].format_names().contains(fmt)
    &&& context.sink_mapper_factories.names_set().contains(fmt)
}

/// As `source_refusal`, for the sink factories.
pub open spec fn sink_refusal(context: EventFluxContext, ext: Seq<char>, fmt: Seq<char>, props: Map<Seq<char>, Seq<char>>, e: EventFluxError) -> bool {
    if !context.sink_factories.items()[ext].accepts(props) {
        context.sink_factories.items()[ext].refuses_with(props, e)
    } else {
        context.sink_mapper_factories.items()[fmt].refuses_with(props, e)
    }
}

/// As `source_parts_ok`, for the sink factories.
pub open spec fn sink_parts_ok(context: EventFluxContext, ext: Seq<char>, fmt: Seq<char>, props: Map<Seq<char>, Seq<char>>) -> bool {
    &&& context.sink_factories.names_set().contains(ext)
    &&& context.sink_factories.items()[ext].format_names().contains(fmt)
    &&& context.sink_mapper_factories.names_set().contains(fmt)
    &&& context.sink_factories.items()[ext].accepts(props)
    &&& context.sink_mapper_factories.items()[fmt].accepts(props)
}

/// A stream of type `t` with the given extension, format and properties can
/// be initialized in `context`.
pub open spec fn init_parts_ok(
    context: EventFluxContext,
    t: StreamType,
    ext: Option<Seq<char>>,
    fmt: Option<Seq<char>>,
    props: Map<Seq<char>, Seq<char>>,
) -> bool {
    match t {
        StreamType::Internal => true,
        StreamType::Source => ext is Some && fmt is Some && source_parts_ok(context, ext->0, fmt->0, props),
        StreamType::Sink => ext is Some && fmt is Some && sink_parts_ok(context, ext->0, fmt->0, props),
    }
}

/// The value of property `key` of a flat configuration, if it has one.
pub open spec fn flat_value(c: FlatConfig, key: Seq<char>) -> Option<Seq<char>> {
    if c@.contains_key(key) { Some(c@[key].0) } else { None }
}

/// A parsed stream's configuration can be read and the stream initialized:
/// its `type` names a stream type (in any case), it has exactly the settings
/// that type needs, and the factories of `context` create its components.
pub open spec fn flat_stream_ok(context: EventFluxContext, c: FlatConfig) -> bool {
    &&& c@.contains_key("type"@)
    &&& exists|t: StreamType| #[trigger] t.name() == lowercase(c@["type"@].0)
        && stream_config_error(t, flat_value(c, "extension"@), flat_value(c, "format"@)) is None
        && init_parts_ok(context, t, flat_value(c, "extension"@), flat_value(c, "format"@), c.values())
}

/// A stream can be initialized: always when internal, else as its type says.
pub open spec fn stream_init_ok(context: EventFluxContext, c: StreamTypeConfig) -> bool {
    match c.stream_type {
        StreamType::Internal => true,
        StreamType::Source => source_init_ok(context, c),
        StreamType::Sink => sink_init_ok(context, c),
    }
}

/// The text of a configuration error about a stream's settings.
pub open spec fn stream_config_message(detail: Seq<char>) -> Seq<char> {
    "Stream configuration error: "@ + detail
}

/// The text of an unsupported-format error.
pub open spec fn unsupported_format_message(format: Seq<char>, extension: Seq<char>) -> Seq<char> {
    "Format '"@ + format + "' is not supported by extension '"@ + extension + "'"@
}

fn config_error(detail: String) -> (r: EventFluxError)
    ensures
        r matches EventFluxError::Configuration { message, config_key } && message@ == stream_config_message(detail@)
            && config_key is None,
{
    EventFluxError::configuration(concat("Stream configuration error: ", detail.as_str()).as_str())
}

/// Looks up the source factory by extension and the mapper factory by format,
/// checks that the factory supports the format, and creates both components.
fn initialize_source_stream(context: &EventFluxContext, stream_config: &StreamTypeConfig) -> (r: Result<InitializedStream, EventFluxError>)
    requires
        stream_config.stream_type == StreamType::Source,
    ensures
        stream_config.extension is None ==> (r matches Err(EventFluxError::Configuration { message, .. })
            && message@ == stream_config_message("Stream type '"@ + StreamType::Source.name() + "' requires extension"@)),
        opt_view(stream_config.extension) is Some && !context.source_factories.names_set().contains(ext_of(*stream_config))
            ==> (r matches Err(EventFluxError::ExtensionNotFound { extension_type, name })
                && extension_type@ == "source"@ && name@ == ext_of(*stream_config)),
        opt_view(stream_config.extension) is Some && context.source_factories.names_set().contains(ext_of(*stream_config)) ==> ({
            let factory = context.source_factories.items()[ext_of(*stream_config)];
            &&& stream_config.format is None ==> (r matches Err(EventFluxError::Configuration { message, .. })
                && message@ == stream_config_message("Stream type '"@ + StreamType::Source.name() + "' requires format"@))
            &&& opt_view(stream_config.format) is Some && !factory.format_names().contains(fmt_of(*stream_config))
                ==> (r matches Err(EventFluxError::Configuration { message, .. }) && message@ == unsupported_format_message(fmt_of(*stream_config), ext_of(*stream_config)))
            &&& opt_view(stream_config.format) is Some && factory.format_names().contains(fmt_of(*stream_config))
                && !context.source_mapper_factories.names_set().contains(fmt_of(*stream_config))
                ==> (r matches Err(EventFluxError::ExtensionNotFound { extension_type, name })
                    && extension_type@ == "source mapper"@ && name@ == fmt_of(*stream_config))
        }),
        r is Ok <==> source_init_ok(*context, *stream_config),
        opt_view(stream_config.extension) is Some && opt_view(stream_config.format) is Some
            && source_parts_found(*context, ext_of(*stream_config), fmt_of(*stream_config))
            ==> (r matches Err(e) ==> source_refusal(*context, ext_of(*stream_config), fmt_of(*stream_config), stream_config.properties@, e)),
        r matches Ok(s) ==> (s matches InitializedStream::Source(x) && opt_view(stream_config.extension) == Some(x.extension@)
            && opt_view(stream_config.format) == Some(x.format@)
            && context.source_factories.names_set().contains(x.extension@)
            && context.source_factories.items()[x.extension@].format_names().contains(x.format@)
            && context.source_mapper_factories.names_set().contains(x.format@)
            && source_built(*context, x, stream_config.properties@)),
{
    let extension = match stream_config.extension() {
        Ok(e) => e,
        Err(e) => {
            return Err(config_error(e));
        },
    };
    let source_factory = match context.get_source_factory(extension) {
        Some(f) => f,
        None => {
            return Err(EventFluxError::extension_not_found("source", extension));
        },
    };
    let format = match stream_config.format() {
        Ok(f) => f,
        Err(e) => {
            return Err(config_error(e));
        },
    };
    let formats = source_factory.supported_formats();
    if !str_list_contains(&formats, format) {
        return Err(EventFluxError::unsupported_format(format, extension));
    }
    let mapper_factory = match context.get_source_mapper_factory(format) {
        Some(m) => m,
        None => {
            return Err(EventFluxError::extension_not_found("source mapper", format));
        },
    };
    let source_res = source_factory.create_initialized(&stream_config.properties);
    if let Err(e) = source_res {
        return Err(e);
    }
    let mapper_res = mapper_factory.create_initialized(&stream_config.properties);
    if let Err(e) = mapper_res {
        return Err(e);
    }
    let x = InitializedSource {
        source: source_res.ok(),
        mapper: mapper_res.ok(),
        extension: owned(extension),
        format: owned(format),
    };
    Ok(InitializedStream::Source(x))
}

/// Looks up the sink factory by extension and the mapper factory by format,
/// checks that the factory supports the format, and creates both components.
fn initialize_sink_stream(context: &EventFluxContext, stream_config: &StreamTypeConfig) -> (r: Result<InitializedStream, EventFluxError>)
    requires
        stream_config.stream_type == StreamType::Sink,
    ensures
        stream_config.extension is None ==> (r matches Err(EventFluxError::Configuration { message, .. })
            && message@ == stream_config_message("Stream type '"@ + StreamType::Sink.name() + "' requires extension"@)),
        opt_view(stream_config.extension) is Some && !context.sink_factories.names_set().contains(ext_of(*stream_config))
            ==> (r matches Err(EventFluxError::ExtensionNotFound { extension_type, name })
                && extension_type@ == "sink"@ && name@ == ext_of(*stream_config)),
        opt_view(stream_config.extension) is Some && context.sink_factories.names_set().contains(ext_of(*stream_config)) ==> ({
            let factory = context.sink_factories.items()[ext_of(*stream_config)];
            &&& stream_config.format is None ==> (r matches Err(EventFluxError::Configuration { message, .. })
                && message@ == stream_config_message("Stream type '"@ + StreamType::Sink.name() + "' requires format"@))
            &&& opt_view(stream_config.format) is Some && !factory.format_names().contains(fmt_of(*stream_config))
                ==> (r matches Err(EventFluxError::Configuration { message, .. }) && message@ == unsupported_format_message(fmt_of(*stream_config), ext_of(*stream_config)))
            &&& opt_view(stream_config.format) is Some && factory.format_names().contains(fmt_of(*stream_config))
                && !context.sink_mapper_factories.names_set().contains(fmt_of(*stream_config))
                ==> (r matches Err(EventFluxError::ExtensionNotFound { extension_type, name })
                    && extension_type@ == "sink mapper"@ && name@ == fmt_of(*stream_config))
        }),
        r is Ok <==> sink_init_ok(*context, *stream_config),
        opt_view(stream_config.extension) is Some && opt_view(stream_config.format) is Some
            && sink_parts_found(*context, ext_of(*stream_config), fmt_of(*stream_config))
            ==> (r matches Err(e) ==> sink_refusal(*context, ext_of(*stream_config), fmt_of(*stream_config), stream_config.properties@, e)),
        r matches Ok(s) ==> (s matches InitializedStream::Sink(x) && opt_view(stream_config.extension) == Some(x.extension@)
            && opt_view(stream_config.format) == Some(x.format@)
            && context.sink_factories.names_set().contains(x.extension@)
            && context.sink_factories.items()[x.extension@].format_names().contains(x.format@)
            && context.sink_mapper_factories.names_set().contains(x.format@)
            && sink_built(*context, x, stream_config.properties@)),
{
    let extension = match stream_config.extension() {
        Ok(e) => e,
        Err(e) => {
            return Err(config_error(e));
        },
    };
    let sink_factory = match context.get_sink_factory(extension) {
        Some(f) => f,
        None => {
            return Err(EventFluxError::extension_not_found("sink", extension));
        },
    };
    let format = match stream_config.format() {
        Ok(f) => f,
        Err(e) => {
            return Err(config_error(e));
        },
    };
    let formats = sink_factory.supported_formats();
    if !str_list_contains(&formats, format) {
        return Err(EventFluxError::unsupported_format(format, extension));
    }
    let mapper_factory = match context.get_sink_mapper_factory(format) {
        Some(m) => m,
        None => {
            return Err(EventFluxError::extension_not_found("sink mapper", format));
        },
    };
    let sink_res = sink_factory.create_initialized(&stream_config.properties);
    if let Err(e) = sink_res {
        return Err(e);
    }
    let mapper_res = mapper_factory.create_initialized(&stream_config.properties);
    if let Err(e) = mapper_res {
        return Err(e);
    }
    let x = InitializedSink {
        sink: sink_res.ok(),
        mapper: mapper_res.ok(),
        extension: owned(extension),
        format: owned(format),
    };
    Ok(InitializedStream::Sink(x))
}

/// Creates the components of a stream from its configuration: nothing for an
/// internal stream; for a source or sink, the factory registered for its
/// extension (which must support its format) and the mapper factory registered
/// for its format.
pub fn initialize_stream(context: &EventFluxContext, stream_config: &StreamTypeConfig) -> (r: Result<InitializedStream, EventFluxError>)
    ensures
        stream_config.stream_type == StreamType::Internal ==> (r matches Ok(InitializedStream::Internal)),
        stream_config.stream_type == StreamType::Source && stream_config.extension is Some
            && !context.source_factories.names_set().contains(ext_of(*stream_config))
            ==> (r matches Err(EventFluxError::ExtensionNotFound { extension_type, name })
                && extension_type@ == "source"@ && name@ == ext_of(*stream_config)),
        stream_config.stream_type == StreamType::Source && stream_config.extension is Some
            && context.source_factories.names_set().contains(ext_of(*stream_config)) && opt_view(stream_config.format) is Some
            && !context.source_factories.items()[ext_of(*stream_config)].format_names().contains(fmt_of(*stream_config))
            ==> (r matches Err(EventFluxError::Configuration { message, .. }) && message@ == unsupported_format_message(fmt_of(*stream_config), ext_of(*stream_config))),
        stream_config.stream_type == StreamType::Source && stream_config.extension is Some
            && context.source_factories.names_set().contains(ext_of(*stream_config)) && opt_view(stream_config.format) is Some
            && context.source_factories.items()[ext_of(*stream_config)].format_names().contains(fmt_of(*stream_config))
            && !context.source_mapper_factories.names_set().contains(fmt_of(*stream_config))
            ==> (r matches Err(EventFluxError::ExtensionNotFound { extension_type, name })
                && extension_type@ == "source mapper"@ && name@ == fmt_of(*stream_config)),
        stream_config.stream_type == StreamType::Sink && stream_config.extension is Some
            && !context.sink_factories.names_set().contains(ext_of(*stream_config))
            ==> (r matches Err(EventFluxError::ExtensionNotFound { extension_type, name })
                && extension_type@ == "sink"@ && name@ == ext_of(*stream_config)),
        stream_config.stream_type == StreamType::Sink && stream_config.extension is Some
            && context.sink_factories.names_set().contains(ext_of(*stream_config)) && opt_view(stream_config.format) is Some
            && !context.sink_factories.items()[ext_of(*stream_config)].format_names().contains(fmt_of(*stream_config))
            ==> (r matches Err(EventFluxError::Configuration { message, .. }) && message@ == unsupported_format_message(fmt_of(*stream_config), ext_of(*stream_config))),
        stream_config.stream_type == StreamType::Sink && stream_config.extension is Some
            && context.sink_factories.names_set().contains(ext_of(*stream_config)) && opt_view(stream_config.format) is Some
            && context.sink_factories.items()[ext_of(*stream_config)].format_names().contains(fmt_of(*stream_config))
            && !context.sink_mapper_factories.names_set().contains(fmt_of(*stream_config))
            ==> (r matches Err(EventFluxError::ExtensionNotFound { extension_type, name })
                && extension_type@ == "sink mapper"@ && name@ == fmt_of(*stream_config)),
        stream_config.stream_type != StreamType::Internal && (stream_config.extension is None || stream_config.format is None)
            ==> (r matches Err(EventFluxError::Configuration { .. }) || r matches Err(EventFluxError::ExtensionNotFound { .. })),
        r matches Ok(InitializedStream::Source(x)) ==> stream_config.stream_type == StreamType::Source
            && opt_view(stream_config.extension) == Some(x.extension@) && opt_view(stream_config.format) == Some(x.format@)
            && source_built(*context, x, stream_config.properties@),
        r matches Ok(InitializedStream::Sink(x)) ==> stream_config.stream_type == StreamType::Sink
            && opt_view(stream_config.extension) == Some(x.extension@) && opt_view(stream_config.format) == Some(x.format@)
            && sink_built(*context, x, stream_config.properties@),
        r matches Ok(InitializedStream::Internal) ==> stream_config.stream_type == StreamType::Internal,
        r is Ok <==> stream_init_ok(*context, *stream_config),
        stream_config.stream_type == StreamType::Source && opt_view(stream_config.extension) is Some && opt_view(stream_config.format) is Some
            && source_parts_found(*context, ext_of(*stream_config), fmt_of(*stream_config))
            ==> (r matches Err(e) ==> source_refusal(*context, ext_of(*stream_config), fmt_of(*stream_config), stream_config.properties@, e)),
        stream_config.stream_type == StreamType::Sink && opt_view(stream_config.extension) is Some && opt_view(stream_config.format) is Some
            && sink_parts_found(*context, ext_of(*stream_config), fmt_of(*stream_config))
            ==> (r matches Err(e) ==> sink_refusal(*context, ext_of(*stream_config), fmt_of(*stream_config), stream_config.properties@, e)),
{
    match stream_config.stream_type {
        StreamType::Source => initialize_source_stream(context, stream_config),
        StreamType::Sink => initialize_sink_stream(context, stream_config),
        StreamType::Internal => Ok(InitializedStream::Internal),
    }
}


// ---------------------------------------------------------------------------
// Initializing all streams
// ---------------------------------------------------------------------------

/// What initializing one stream yields for the runtime.
pub enum InitializedStreamHandler {
    Source(SourceStreamHandler),
    Sink(SinkStreamHandler),
    Internal,
}

/// The handlers of the initialized streams, by stream name.
pub struct StreamHandlers {
    pub source_handlers: Vec<(String, SourceStreamHandler)>,
    pub sink_handlers: Vec<(String, SinkStreamHandler)>,
}

/// The names of the parsed streams.
pub open spec fn stream_names(streams: Seq<(String, (StreamDefinition, FlatConfig))>) -> Seq<Seq<char>> {
    streams.map_values(|p: (String, (StreamDefinition, FlatConfig))| p.0@)
}

/// The dead-letter stream a configuration names, if any.
pub open spec fn dlq_of(c: FlatConfig) -> Option<Seq<char>> {
    if c@.contains_key(dlq_key()) {
        Some(c@[dlq_key()].0)
    } else {
        None
    }
}

/// The first parsed stream, from `k` on, whose dead-letter stream is not a parsed stream.
pub open spec fn first_dangling_dlq(streams: Seq<(String, (StreamDefinition, FlatConfig))>, k: int) -> Option<int>
    decreases streams.len() - k,
{
    if k < 0 || k >= streams.len() {
        None
    } else if dlq_of(streams[k].1.1) is Some && !stream_names(streams).contains(dlq_of(streams[k].1.1)->0) {
        Some(k)
    } else {
        first_dangling_dlq(streams, k + 1)
    }
}

pub open spec fn dangling_dlq_message(dlq: Seq<char>, stream: Seq<char>) -> Seq<char> {
    "DLQ stream '"@ + dlq + "' referenced by stream '"@ + stream + "' does not exist"@
}

/// The first position, from `k` on, of the parsed stream named `a`.
pub open spec fn stream_position(streams: Seq<(String, (StreamDefinition, FlatConfig))>, a: Seq<char>, k: int) -> Option<int>
    decreases streams.len() - k,
{
    if k < 0 || k >= streams.len() {
        None
    } else if streams[k].0@ == a {
        Some(k)
    } else {
        stream_position(streams, a, k + 1)
    }
}

/// The configuration's `type` names stream type `t` (in any case).
pub open spec fn typed_as(c: FlatConfig, t: StreamType) -> bool {
    c@.contains_key("type"@) && lowercase(c@["type"@].0) == t.name()
}

/// Parsed stream `a` is configured as a stream of type `t`.
pub open spec fn configured_as(streams: Seq<(String, (StreamDefinition, FlatConfig))>, a: Seq<char>, t: StreamType) -> bool {
    stream_position(streams, a, 0) matches Some(k) && typed_as(streams[k].1.1, t)
}

/// `a` takes part in the dependencies of the streams: written by a query,
/// read by one, or on either side of a dead-letter link.
pub open spec fn in_dependencies(
    streams: Seq<(String, (StreamDefinition, FlatConfig))>,
    queries: Seq<Query>,
    a: Seq<char>,
) -> bool {
    ||| written_by_queries(queries, queries.len() as int, a)
    ||| has_dlq(streams, streams.len() as int, a)
    ||| exists|k: Seq<char>| #[trigger] query_dependency(queries, queries.len() as int, k, a)
    ||| exists|k: Seq<char>| #[trigger] dlq_dependency(streams, streams.len() as int, k, a)
}

/// Stream `a` depends on stream `b`: a query inserting into `a` reads `b`,
/// or `b` is the dead-letter stream of `a`.
pub open spec fn stream_dependency(
    streams: Seq<(String, (StreamDefinition, FlatConfig))>,
    queries: Seq<Query>,
    a: Seq<char>,
    b: Seq<char>,
) -> bool {
    query_dependency(queries, queries.len() as int, a, b) || dlq_dependency(streams, streams.len() as int, a, b)
}

/// `p` is a cycle of stream dependencies: each stream depends on the next, the last on the first.
pub open spec fn is_stream_cycle(
    streams: Seq<(String, (StreamDefinition, FlatConfig))>,
    queries: Seq<Query>,
    p: Seq<Seq<char>>,
) -> bool {
    &&& p.len() > 0
    &&& forall|k: int| 0 <= k < p.len() - 1 ==> #[trigger] stream_dependency(streams, queries, p[k], p[k + 1])
    &&& stream_dependency(streams, queries, p.last(), p[0])
}

pub open spec fn has_stream_cycle(streams: Seq<(String, (StreamDefinition, FlatConfig))>, queries: Seq<Query>) -> bool {
    exists|p: Seq<Seq<char>>| is_stream_cycle(streams, queries, p)
}

/// Some cycle of stream dependencies starts (and ends) at `x`.
pub open spec fn stream_cycle_through(
    streams: Seq<(String, (StreamDefinition, FlatConfig))>,
    queries: Seq<Query>,
    x: Seq<char>,
) -> bool {
    exists|p: Seq<Seq<char>>| is_stream_cycle(streams, queries, p) && p[0] == x
}

/// If `a` is a parsed stream, its configuration can be read and the stream initialized.
pub open spec fn position_ok(
    streams: Seq<(String, (StreamDefinition, FlatConfig))>,
    context: EventFluxContext,
    a: Seq<char>,
) -> bool {
    stream_position(streams, a, 0) matches Some(k) ==> flat_stream_ok(context, streams[k].1.1)
}

/// Every parsed stream that takes part in the dependencies can be initialized.
pub open spec fn dependencies_init_ok(
    streams: Seq<(String, (StreamDefinition, FlatConfig))>,
    queries: Seq<Query>,
    context: EventFluxContext,
) -> bool {
    forall|a: Seq<char>| #[trigger] in_dependencies(streams, queries, a) ==> position_ok(streams, context, a)
}

pub open spec fn source_names(hs: Seq<(String, SourceStreamHandler)>) -> Seq<Seq<char>> {
    hs.map_values(|h: (String, SourceStreamHandler)| h.0@)
}

pub open spec fn sink_names(hs: Seq<(String, SinkStreamHandler)>) -> Seq<Seq<char>> {
    hs.map_values(|h: (String, SinkStreamHandler)| h.0@)
}

fn find_stream(streams: &Vec<(String, (StreamDefinition, FlatConfig))>, name: &str) -> (r: Option<usize>)
    ensures
        r matches Some(k) ==> stream_position(streams@, name@, 0) == Some(k as int),
        r is None ==> stream_position(streams@, name@, 0) is None,
{
    let mut k: usize = 0;
    while k < streams.len()
        invariant
            k <= streams@.len(),
            stream_position(streams@, name@, 0) == stream_position(streams@, name@, k as int),
        decreases streams@.len() - k,
    {
        if str_eq(streams[k].0.as_str(), name) {
            return Some(k);
        }
        k = k + 1;
    }
    None
}

/// The handler for one stream: a source or sink handler (stopped), or
/// nothing for an internal stream.
fn initialize_single_stream(
    stream_config: &StreamTypeConfig,
    context: &EventFluxContext,
    stream_name: &str,
) -> (r: Result<InitializedStreamHandler, EventFluxError>)
    ensures
        r matches Ok(InitializedStreamHandler::Source(h)) ==> stream_config.stream_type == StreamType::Source
            && h.id() == stream_name@ && !h.running(),
        r matches Ok(InitializedStreamHandler::Sink(h)) ==> stream_config.stream_type == StreamType::Sink
            && h.id() == stream_name@ && !h.running(),
        r matches Ok(InitializedStreamHandler::Internal) ==> stream_config.stream_type == StreamType::Internal,
        r is Ok <==> stream_init_ok(*context, *stream_config),
{
    match initialize_stream(context, stream_config) {
        Ok(InitializedStream::Source(x)) => {
            let input_handler = InputHandler::new(owned(stream_name), 0);
            Ok(InitializedStreamHandler::Source(
                SourceStreamHandler::new(x.source.unwrap(), x.mapper, input_handler, owned(stream_name)),
            ))
        },
        Ok(InitializedStream::Sink(x)) => {
            Ok(InitializedStreamHandler::Sink(SinkStreamHandler::new(x.sink.unwrap(), x.mapper, owned(stream_name))))
        },
        Ok(InitializedStream::Internal) => Ok(InitializedStreamHandler::Internal),
        Err(e) => Err(e),
    }
}

/// Initializes every stream that takes part in the dependencies, in
/// dependency order: dead-letter references are checked first, then the
/// order is computed, then each stream's configuration is read and its
/// source or sink handler created.
pub fn initialize_streams(
    parsed_streams: Vec<(String, (StreamDefinition, FlatConfig))>,
    queries: Vec<Query>,
    context: &EventFluxContext,
) -> (r: Result<StreamHandlers, EventFluxError>)
    ensures
        first_dangling_dlq(parsed_streams@, 0) matches Some(k) ==> (r matches Err(EventFluxError::Configuration { message, .. })
            && message@ == dangling_dlq_message(dlq_of(parsed_streams@[k].1.1)->0, parsed_streams@[k].0@)),
        r is Ok <==> first_dangling_dlq(parsed_streams@, 0) is None && !has_stream_cycle(parsed_streams@, queries@)
            && dependencies_init_ok(parsed_streams@, queries@, *context),
        first_dangling_dlq(parsed_streams@, 0) is None && has_stream_cycle(parsed_streams@, queries@)
            ==> (r matches Err(EventFluxError::AppCreation { message })
                && exists|x: Seq<char>| stream_cycle_through(parsed_streams@, queries@, x) && message@ == cycle_message(x)),
        r matches Ok(h) ==> forall|i: int| 0 <= i < h.source_handlers@.len() ==> {
            let (n, s) = #[trigger] h.source_handlers@[i];
            &&& s.id() == n@ && !s.running()
            &&& configured_as(parsed_streams@, n@, StreamType::Source)
            &&& in_dependencies(parsed_streams@, queries@, n@)
        },
        r matches Ok(h) ==> forall|i: int| 0 <= i < h.sink_handlers@.len() ==> {
            let (n, s) = #[trigger] h.sink_handlers@[i];
            &&& s.id() == n@ && !s.running()
            &&& configured_as(parsed_streams@, n@, StreamType::Sink)
            &&& in_dependencies(parsed_streams@, queries@, n@)
        },
        r matches Ok(h) ==> forall|a: Seq<char>| in_dependencies(parsed_streams@, queries@, a)
            && #[trigger] configured_as(parsed_streams@, a, StreamType::Source) ==> source_names(h.source_handlers@).contains(a),
        r matches Ok(h) ==> forall|a: Seq<char>| in_dependencies(parsed_streams@, queries@, a)
            && #[trigger] configured_as(parsed_streams@, a, StreamType::Sink) ==> sink_names(h.sink_handlers@).contains(a),
{
    let dependencies = build_dependency_graph(&parsed_streams, &queries);
    let ghost ps = parsed_streams@;
    // dead-letter streams must be parsed streams
    let mut k: usize = 0;
    while k < parsed_streams.len()
        invariant
            k <= ps.len(),
            ps == parsed_streams@,
            first_dangling_dlq(ps, 0) == first_dangling_dlq(ps, k as int),
        decreases ps.len() - k,
    {
        match parsed_streams[k].1.1.get("error.dlq.stream") {
            Some(dlq) => {
                match find_stream(&parsed_streams, dlq.as_str()) {
                    None => {
                        proof {
                            assert forall|j: int| 0 <= j < ps.len() implies stream_names(ps)[j] != dlq@ by {
                                if stream_names(ps)[j] == dlq@ {
                                    lemma_position_found(ps, dlq@, 0, j);
                                }
                            }
                            assert(dlq_of(ps[k as int].1.1) == Some(dlq@));
                            assert(first_dangling_dlq(ps, k as int) == Some(k as int));
                        }
                        let m = concat("DLQ stream '", dlq.as_str());
                        let m = concat(m.as_str(), "' referenced by stream '");
                        let m = concat(m.as_str(), parsed_streams[k].0.as_str());
                        let m = concat(m.as_str(), "' does not exist");
                        return Err(EventFluxError::configuration(m.as_str()));
                    },
                    Some(j) => {
                        proof {
                            lemma_position_is(ps, dlq@, j as int);
                            assert(stream_names(ps)[j as int] == dlq@);
                        }
                    },
                }
            },
            None => {},
        }
        k = k + 1;
    }
    proof {
        lemma_cycles_agree(ps, queries@, dependencies@);
    }
    let init_order = match topological_sort(&dependencies) {
        Ok(o) => o,
        Err(e) => {
            return Err(e);
        },
    };
    let ghost order = string_views(init_order@);
    let ghost ctx = *context;
    proof {
        lemma_dependencies_are_nodes(ps, queries@, dependencies@, order);
    }
    let mut source_handlers: Vec<(String, SourceStreamHandler)> = Vec::new();
    let mut sink_handlers: Vec<(String, SinkStreamHandler)> = Vec::new();
    let mut i: usize = 0;
    while i < init_order.len()
        invariant
            i <= init_order@.len(),
            ps == parsed_streams@,
            order == string_views(init_order@),
            is_init_order(dependencies@, order),
            first_dangling_dlq(ps, 0) is None,
            forall|j: int| 0 <= j < source_handlers@.len() ==> {
                let (n, s) = #[trigger] source_handlers@[j];
                &&& s.id() == n@ && !s.running()
                &&& configured_as(ps, n@, StreamType::Source)
                &&& order.contains(n@)
            },
            forall|j: int| 0 <= j < sink_handlers@.len() ==> {
                let (n, s) = #[trigger] sink_handlers@[j];
                &&& s.id() == n@ && !s.running()
                &&& configured_as(ps, n@, StreamType::Sink)
                &&& order.contains(n@)
            },
            forall|j: int| 0 <= j < i && #[trigger] configured_as(ps, order[j], StreamType::Source) ==> source_names(source_handlers@).contains(order[j]),
            forall|j: int| 0 <= j < i && #[trigger] configured_as(ps, order[j], StreamType::Sink) ==> sink_names(sink_handlers@).contains(order[j]),
            forall|j: int| 0 <= j < i ==> #[trigger] position_ok(ps, ctx, order[j]),
            forall|a: Seq<char>| in_dependencies(ps, queries@, a) <==> #[trigger] order.contains(a),
            !has_stream_cycle(ps, queries@),
            ctx == *context,
        decreases init_order@.len() - i,
    {
        let name = &init_order[i];
        proof {
            assert(order[i as int] == name@);
            assert(order.contains(name@));
            assert(in_dependencies(ps, queries@, name@));
        }
        match find_stream(&parsed_streams, name.as_str()) {
            None => {},
            Some(k) => {
                proof {
                    lemma_position_is(ps, name@, k as int);
                }
                let flat_config = &parsed_streams[k].1.1;
                let stream_config = match StreamTypeConfig::from_flat_config(flat_config) {
                    Ok(c) => c,
                    Err(e) => {
                        proof {
                            if flat_stream_ok(ctx, *flat_config) {
                                let t = choose|t: StreamType| #[trigger] t.name() == lowercase(flat_config@["type"@].0)
                                    && stream_config_error(t, flat_value(*flat_config, "extension"@), flat_value(*flat_config, "format"@)) is None
                                    && init_parts_ok(ctx, t, flat_value(*flat_config, "extension"@), flat_value(*flat_config, "format"@), flat_config.values());
                                assert(lowercase(flat_config@["type"@].0) == t.name());
                            }
                            assert(!position_ok(ps, ctx, name@));
                        }
                        let m = concat("Invalid stream configuration for '", name.as_str());
                        let m = concat(m.as_str(), "': ");
                        let m = concat(m.as_str(), e.as_str());
                        return Err(EventFluxError::configuration(m.as_str()));
                    },
                };
                match flat_config.get("error.dlq.stream") {
                    Some(dlq) => {
                        proof {
                            lemma_no_dangling(ps, 0, k as int);
                            assert(dlq_of(ps[k as int].1.1) == Some(dlq@));
                            let j = choose|j: int| 0 <= j < stream_names(ps).len() && stream_names(ps)[j] == dlq@;
                            lemma_position_found(ps, dlq@, 0, j);
                        }
                        match validate_dlq_schema(name.as_str(), dlq.as_str(), &parsed_streams) {
                            Ok(()) => {},
                            Err(e) => {
                                return Err(e);
                            },
                        }
                    },
                    None => {},
                }
                proof {
                    let ty = flat_config@["type"@].0;
                    assert(exists|t: StreamType| lowercase(ty) == t.name());
                    let t0 = choose|t: StreamType| lowercase(ty) == t.name();
                    assert(stream_config.stream_type == t0);
                    assert forall|t: StreamType| #[trigger] typed_as(*flat_config, t) <==> stream_config.stream_type == t by {
                        if typed_as(*flat_config, t) {
                            lemma_stream_type_names(t, t0);
                        }
                    }
                    lemma_position_is(ps, name@, k as int);
                    let ext = flat_value(*flat_config, "extension"@);
                    let fmt = flat_value(*flat_config, "format"@);
                    assert(opt_view(stream_config.extension) == ext);
                    assert(opt_view(stream_config.format) == fmt);
                    assert(stream_init_ok(ctx, stream_config)
                        == init_parts_ok(ctx, stream_config.stream_type, ext, fmt, flat_config.values()));
                    assert(stream_config_error(stream_config.stream_type, ext, fmt) is None);
                    if flat_stream_ok(ctx, *flat_config) {
                        let t = choose|t: StreamType| #[trigger] t.name() == lowercase(flat_config@["type"@].0)
                            && stream_config_error(t, ext, fmt) is None
                            && init_parts_ok(ctx, t, ext, fmt, flat_config.values());
                        lemma_stream_type_names(t, stream_config.stream_type);
                    }
                    if stream_init_ok(ctx, stream_config) {
                        assert(stream_config.stream_type.name() == lowercase(flat_config@["type"@].0));
                        assert(flat_stream_ok(ctx, *flat_config));
                    }
                    assert(stream_init_ok(ctx, stream_config) <==> position_ok(ps, ctx, name@));
                }
                match initialize_single_stream(&stream_config, context, name.as_str()) {
                    Ok(InitializedStreamHandler::Source(h)) => {
                        let ghost before = source_handlers@;
                        source_handlers.push((owned(name.as_str()), h));
                        proof {
                            assert(source_names(source_handlers@) =~= source_names(before).push(name@));
                            lemma_push_keeps(source_names(before), name@);
                            assert(source_names(source_handlers@)[before.len() as int] == name@);
                        }
                    },
                    Ok(InitializedStreamHandler::Sink(h)) => {
                        let ghost before = sink_handlers@;
                        sink_handlers.push((owned(name.as_str()), h));
                        proof {
                            assert(sink_names(sink_handlers@) =~= sink_names(before).push(name@));
                            lemma_push_keeps(sink_names(before), name@);
                            assert(sink_names(sink_handlers@)[before.len() as int] == name@);
                        }
                    },
                    Ok(InitializedStreamHandler::Internal) => {},
                    Err(e) => {
                        return Err(e);
                    },
                }
            },
        }
        i = i + 1;
    }
    proof {
        assert forall|a: Seq<char>| #[trigger] in_dependencies(ps, queries@, a) implies position_ok(ps, ctx, a) by {
            assert(order.contains(a));
            let j = choose|j: int| 0 <= j < order.len() && order[j] == a;
            assert(position_ok(ps, ctx, order[j]));
        }
        assert forall|a: Seq<char>| in_dependencies(ps, queries@, a) && #[trigger] configured_as(ps, a, StreamType::Source)
            implies source_names(source_handlers@).contains(a) by {
            assert(order.contains(a));
            let j = choose|j: int| 0 <= j < order.len() && order[j] == a;
            assert(configured_as(ps, order[j], StreamType::Source));
        }
        assert forall|a: Seq<char>| in_dependencies(ps, queries@, a) && #[trigger] configured_as(ps, a, StreamType::Sink)
            implies sink_names(sink_handlers@).contains(a) by {
            assert(order.contains(a));
            let j = choose|j: int| 0 <= j < order.len() && order[j] == a;
            assert(configured_as(ps, order[j], StreamType::Sink));
        }
        assert forall|j: int| 0 <= j < source_handlers@.len() implies in_dependencies(ps, queries@, (#[trigger] source_handlers@[j]).0@) by {
            assert(order.contains(source_handlers@[j].0@));
        }
        assert forall|j: int| 0 <= j < sink_handlers@.len() implies in_dependencies(ps, queries@, (#[trigger] sink_handlers@[j]).0@) by {
            assert(order.contains(sink_handlers@[j].0@));
        }
    }
    Ok(StreamHandlers { source_handlers, sink_handlers })
}

/// The dead-letter stream of `stream_name` must be a parsed stream.
fn validate_dlq_schema(
    stream_name: &str,
    dlq_stream: &str,
    parsed_streams: &Vec<(String, (StreamDefinition, FlatConfig))>,
) -> (r: Result<(), EventFluxError>)
    ensures
        r is Ok <==> stream_position(parsed_streams@, dlq_stream@, 0) is Some,
{
    match find_stream(parsed_streams, dlq_stream) {
        Some(_) => Ok(()),
        None => {
            let m = concat("DLQ stream '", dlq_stream);
            let m = concat(m.as_str(), "' for stream '");
            let m = concat(m.as_str(), stream_name);
            let m = concat(m.as_str(), "' does not exist");
            Err(EventFluxError::configuration(m.as_str()))
        },
    }
}

/// The streams taking part in the dependencies are the nodes of the graph.
proof fn lemma_dependencies_are_nodes(
    streams: Seq<(String, (StreamDefinition, FlatConfig))>,
    queries: Seq<Query>,
    g: Map<Seq<char>, Seq<Seq<char>>>,
    order: Seq<Seq<char>>,
)
    requires
        forall|a: Seq<char>| #[trigger] g.contains_key(a) <==>
            (written_by_queries(queries, queries.len() as int, a) || has_dlq(streams, streams.len() as int, a)),
        forall|a: Seq<char>, b: Seq<char>| #[trigger] depends_on(g, a, b) <==>
            (query_dependency(queries, queries.len() as int, a, b) || dlq_dependency(streams, streams.len() as int, a, b)),
        is_init_order(g, order),
    ensures
        forall|a: Seq<char>| in_dependencies(streams, queries, a) <==> #[trigger] order.contains(a),
{
    assert forall|a: Seq<char>| in_dependencies(streams, queries, a) <==> #[trigger] order.contains(a) by {
        if in_dependencies(streams, queries, a) {
            if exists|k: Seq<char>| #[trigger] query_dependency(queries, queries.len() as int, k, a) {
                let k = choose|k: Seq<char>| #[trigger] query_dependency(queries, queries.len() as int, k, a);
                assert(depends_on(g, k, a));
            } else if exists|k: Seq<char>| #[trigger] dlq_dependency(streams, streams.len() as int, k, a) {
                let k = choose|k: Seq<char>| #[trigger] dlq_dependency(streams, streams.len() as int, k, a);
                assert(depends_on(g, k, a));
            } else {
                assert(g.contains_key(a));
            }
            assert(crate::engine::stream::dependency_graph::is_node(g, a));
        }
        if order.contains(a) {
            assert(crate::engine::stream::dependency_graph::is_node(g, a));
            if !g.contains_key(a) {
                let k = choose|k: Seq<char>| #[trigger] depends_on(g, k, a);
                assert(query_dependency(queries, queries.len() as int, k, a) || dlq_dependency(streams, streams.len() as int, k, a));
            }
        }
    }
}

/// Pushing keeps every element.
proof fn lemma_push_keeps(s: Seq<Seq<char>>, x: Seq<char>)
    ensures
        forall|y: Seq<char>| s.contains(y) ==> #[trigger] s.push(x).contains(y),
        s.push(x).contains(x),
{
    assert forall|y: Seq<char>| s.contains(y) implies #[trigger] s.push(x).contains(y) by {
        let w = choose|w: int| 0 <= w < s.len() && s[w] == y;
        assert(s.push(x)[w] == y);
    }
    assert(s.push(x)[s.len() as int] == x);
}

proof fn lemma_position_found(streams: Seq<(String, (StreamDefinition, FlatConfig))>, a: Seq<char>, k: int, j: int)
    requires
        0 <= k <= j < streams.len(),
        streams[j].0@ == a,
    ensures
        stream_position(streams, a, k) is Some,
    decreases j - k,
{
    if streams[k].0@ != a {
        lemma_position_found(streams, a, k + 1, j);
    }
}

proof fn lemma_position_is(streams: Seq<(String, (StreamDefinition, FlatConfig))>, a: Seq<char>, j: int)
    requires
        stream_position(streams, a, 0) == Some(j),
    ensures
        0 <= j < streams.len() && streams[j].0@ == a,
{
    lemma_position_range(streams, a, 0);
}

/// With no dangling dead-letter reference from `k0` on, the dead-letter
/// stream of every parsed stream from `k0` on is a parsed stream.
proof fn lemma_no_dangling(streams: Seq<(String, (StreamDefinition, FlatConfig))>, k0: int, k: int)
    requires
        first_dangling_dlq(streams, k0) is None,
        0 <= k0 <= k < streams.len(),
    ensures
        dlq_of(streams[k].1.1) is Some ==> stream_names(streams).contains(dlq_of(streams[k].1.1)->0),
    decreases k - k0,
{
    if k0 < k {
        lemma_no_dangling(streams, k0 + 1, k);
    }
}

/// The cycles of the dependency graph are the cycles of stream dependencies.
proof fn lemma_cycles_agree(
    streams: Seq<(String, (StreamDefinition, FlatConfig))>,
    queries: Seq<Query>,
    g: Map<Seq<char>, Seq<Seq<char>>>,
)
    requires
        forall|a: Seq<char>, b: Seq<char>| #[trigger] depends_on(g, a, b) <==>
            (query_dependency(queries, queries.len() as int, a, b) || dlq_dependency(streams, streams.len() as int, a, b)),
    ensures
        has_dep_cycle(g) <==> has_stream_cycle(streams, queries),
        forall|x: Seq<char>| #[trigger] dep_cycle_through(g, x) <==> stream_cycle_through(streams, queries, x),
{
    assert forall|p: Seq<Seq<char>>| #[trigger] is_dep_cycle(g, p) <==> is_stream_cycle(streams, queries, p) by {
        if is_dep_cycle(g, p) {
            assert forall|k: int| 0 <= k < p.len() - 1 implies #[trigger] stream_dependency(streams, queries, p[k], p[k + 1]) by {
                assert(depends_on(g, p[k], p[k + 1]));
            }
            assert(depends_on(g, p.last(), p[0]));
        }
        if is_stream_cycle(streams, queries, p) {
            assert forall|k: int| 0 <= k < p.len() - 1 implies #[trigger] depends_on(g, p[k], p[k + 1]) by {
                assert(stream_dependency(streams, queries, p[k], p[k + 1]));
            }
            assert(stream_dependency(streams, queries, p.last(), p[0]));
        }
    }
    if has_dep_cycle(g) {
        let p = choose|p: Seq<Seq<char>>| is_dep_cycle(g, p);
        assert(is_stream_cycle(streams, queries, p));
    }
    if has_stream_cycle(streams, queries) {
        let p = choose|p: Seq<Seq<char>>| is_stream_cycle(streams, queries, p);
        assert(is_dep_cycle(g, p));
    }
    assert forall|x: Seq<char>| #[trigger] dep_cycle_through(g, x) <==> stream_cycle_through(streams, queries, x) by {
        if dep_cycle_through(g, x) {
            let p = choose|p: Seq<Seq<char>>| is_dep_cycle(g, p) && p[0] == x;
            assert(is_stream_cycle(streams, queries, p));
        }
        if stream_cycle_through(streams, queries, x) {
            let p = choose|p: Seq<Seq<char>>| is_stream_cycle(streams, queries, p) && p[0] == x;
            assert(is_dep_cycle(g, p));
        }
    }
}

proof fn lemma_position_range(streams: Seq<(String, (StreamDefinition, FlatConfig))>, a: Seq<char>, k: int)
    ensures
        stream_position(streams, a, k) matches Some(j) ==> 0 <= j < streams.len() && streams[j].0@ == a,
    decreases streams.len() - k,
{
    if 0 <= k < streams.len() && streams[k].0@ != a {
        lemma_position_range(streams, a, k + 1);
    }
}

} // verus!
