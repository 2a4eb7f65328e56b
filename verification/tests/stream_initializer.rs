use eventflux_rust::engine::config::stream_config::{FlatConfig, PropertySource};
use eventflux_rust::engine::stream::dependency_graph::DependencyGraph;
use eventflux_rust::engine::config::eventflux_context::EventFluxContext;
use eventflux_rust::engine::config::stream_config::{StreamType, StreamTypeConfig};
use eventflux_rust::engine::exception::EventFluxError;
use eventflux_rust::engine::extension::example_factories::{
    CsvSinkMapperFactory, HttpSinkFactory, JsonSourceMapperFactory, KafkaSourceFactory,
};
use eventflux_rust::engine::stream::stream_initializer::{
    build_dependency_graph, initialize_stream, topological_sort, InitializedStream,
};
use eventflux_rust::property_map::PropertyMap;
use eventflux_rust::query_api::definition::stream_definition::StreamDefinition;
use eventflux_rust::query_api::execution::input_stream::{InputStream, SingleInputStream};
use eventflux_rust::query_api::execution::query::{
    InsertIntoStreamAction, OutputStream, OutputStreamAction, Query, Selector,
};

fn set_of(names: &[&str]) -> Vec<String> {
    names.iter().map(|s| s.to_string()).collect()
}

fn pos(order: &[String], name: &str) -> usize {
    order.iter().position(|x| x == name).unwrap()
}

#[test]
fn test_topological_sort_linear() {
    let mut deps = DependencyGraph::new();
    deps.insert("B".to_string(), set_of(&["A"]));
    deps.insert("C".to_string(), set_of(&["B"]));
    deps.insert("D".to_string(), set_of(&["C"]));

    let order = topological_sort(&deps).unwrap();

    assert!(pos(&order, "A") < pos(&order, "B"));
    assert!(pos(&order, "B") < pos(&order, "C"));
    assert!(pos(&order, "C") < pos(&order, "D"));
}

#[test]
fn test_topological_sort_with_dlq() {
    let mut deps = DependencyGraph::new();
    deps.insert("Orders".to_string(), set_of(&["OrderErrors"]));
    deps.insert("Processed".to_string(), set_of(&["Orders"]));

    let order = topological_sort(&deps).unwrap();

    assert!(pos(&order, "OrderErrors") < pos(&order, "Orders"));
    assert!(pos(&order, "Orders") < pos(&order, "Processed"));
}

#[test]
fn test_topological_sort_multiple_dependencies() {
    let mut deps = DependencyGraph::new();
    deps.insert("C".to_string(), set_of(&["A", "B"]));

    let order = topological_sort(&deps).unwrap();

    assert!(pos(&order, "A") < pos(&order, "C"));
    assert!(pos(&order, "B") < pos(&order, "C"));
}

#[test]
fn test_topological_sort_diamond_dependency() {
    let mut deps = DependencyGraph::new();
    deps.insert("B".to_string(), set_of(&["A"]));
    deps.insert("C".to_string(), set_of(&["A"]));
    deps.insert("D".to_string(), set_of(&["B", "C"]));

    let order = topological_sort(&deps).unwrap();

    assert!(pos(&order, "A") < pos(&order, "B"));
    assert!(pos(&order, "A") < pos(&order, "C"));
    assert!(pos(&order, "B") < pos(&order, "D"));
    assert!(pos(&order, "C") < pos(&order, "D"));
}

#[test]
fn test_topological_sort_cycle_detection() {
    let mut deps = DependencyGraph::new();
    deps.insert("A".to_string(), set_of(&["C"]));
    deps.insert("B".to_string(), set_of(&["A"]));
    deps.insert("C".to_string(), set_of(&["B"]));

    let result = topological_sort(&deps);
    assert!(result.is_err());

    let err_msg = format!("{:?}", result.unwrap_err());
    assert!(err_msg.contains("cycle") || err_msg.contains("Cycle"));
}

#[test]
fn test_topological_sort_empty_graph() {
    let deps = DependencyGraph::new();
    let order = topological_sort(&deps).unwrap();
    assert!(order.is_empty());
}

#[test]
fn test_topological_sort_independent_nodes() {
    let mut deps = DependencyGraph::new();
    deps.insert("A".to_string(), Vec::new());
    deps.insert("B".to_string(), Vec::new());
    deps.insert("C".to_string(), Vec::new());

    let order = topological_sort(&deps).unwrap();
    assert_eq!(order.len(), 3);
    assert!(order.contains(&"A".to_string()));
    assert!(order.contains(&"B".to_string()));
    assert!(order.contains(&"C".to_string()));
}

fn query_a_into_b() -> Query {
    let input_stream = InputStream::Single(SingleInputStream::new_basic(
        "A".to_string(),
        false,
        false,
        None,
        Vec::new(),
    ));

    let output_stream = OutputStream {
        eventflux_element: Default::default(),
        action: OutputStreamAction::InsertInto(InsertIntoStreamAction {
            target_id: "B".to_string(),
            is_inner_stream: false,
            is_fault_stream: false,
        }),
        output_event_type: None,
    };

    Query {
        eventflux_element: Default::default(),
        input_stream: Some(input_stream),
        selector: Selector::new(),
        output_stream,
        output_rate: None,
        annotations: Vec::new(),
    }
}

#[test]
fn test_build_dependency_graph_query_only() {
    let mut parsed_streams = Vec::new();
    let stream_a = StreamDefinition::new("A".to_string());
    let stream_b = StreamDefinition::new("B".to_string());

    parsed_streams.push(("A".to_string(), (stream_a, FlatConfig::new())));
    parsed_streams.push(("B".to_string(), (stream_b, FlatConfig::new())));

    let queries = vec![query_a_into_b()];
    let deps = build_dependency_graph(&parsed_streams, &queries);

    assert_eq!(deps.len(), 1);
    assert!(deps.get("B").unwrap().contains(&"A".to_string()));
}

#[test]
fn test_build_dependency_graph_with_dlq() {
    let mut parsed_streams = Vec::new();

    let stream_orders = StreamDefinition::new("Orders".to_string());
    let stream_errors = StreamDefinition::new("OrderErrors".to_string());

    let mut config_orders = FlatConfig::new();
    config_orders.set("error.dlq.stream", "OrderErrors", PropertySource::TomlStream);

    parsed_streams.push(("Orders".to_string(), (stream_orders, config_orders)));
    parsed_streams.push(("OrderErrors".to_string(), (stream_errors, FlatConfig::new())));

    let queries = vec![];
    let deps = build_dependency_graph(&parsed_streams, &queries);

    assert_eq!(deps.len(), 1);
    assert!(deps.get("Orders").unwrap().contains(&"OrderErrors".to_string()));
}

#[test]
fn test_build_dependency_graph_combined() {
    let mut parsed_streams = Vec::new();

    let stream_a = StreamDefinition::new("A".to_string());
    let stream_b = StreamDefinition::new("B".to_string());
    let stream_errors = StreamDefinition::new("Errors".to_string());

    let mut config_b = FlatConfig::new();
    config_b.set("error.dlq.stream", "Errors", PropertySource::TomlStream);

    parsed_streams.push(("A".to_string(), (stream_a, FlatConfig::new())));
    parsed_streams.push(("B".to_string(), (stream_b, config_b)));
    parsed_streams.push(("Errors".to_string(), (stream_errors, FlatConfig::new())));

    let queries = vec![query_a_into_b()];
    let deps = build_dependency_graph(&parsed_streams, &queries);

    assert_eq!(deps.len(), 1);
    let b_deps = deps.get("B").unwrap();
    assert_eq!(b_deps.len(), 2);
    assert!(b_deps.contains(&"A".to_string()));
    assert!(b_deps.contains(&"Errors".to_string()));
}

#[test]
fn dependency_graph_self_loop_is_a_cycle() {
    let mut deps = DependencyGraph::new();
    deps.insert("A".to_string(), set_of(&["A"]));
    assert!(topological_sort(&deps).is_err());
}

#[test]
fn dependency_graph_insert_deduplicates() {
    let mut deps = DependencyGraph::new();
    deps.insert("A".to_string(), set_of(&["B", "B", "C"]));
    assert_eq!(deps.get("A").unwrap().len(), 2);
    let order = topological_sort(&deps).unwrap();
    assert_eq!(order.len(), 3);
}

fn expect_err(result: Result<InitializedStream, EventFluxError>) -> EventFluxError {
    match result {
        Err(e) => e,
        Ok(_) => panic!("expected an error"),
    }
}

#[test]
fn test_initialize_source_stream_success() {
    let mut context = EventFluxContext::new();
    context.add_source_factory("kafka".to_string(), Box::new(KafkaSourceFactory));
    context.add_source_mapper_factory("json".to_string(), Box::new(JsonSourceMapperFactory));

    let mut config = PropertyMap::new();
    config.insert("kafka.bootstrap.servers".to_string(), "localhost:9092".to_string());
    config.insert("kafka.topic".to_string(), "test-topic".to_string());

    let stream_config = StreamTypeConfig::new(
        StreamType::Source,
        Some("kafka".to_string()),
        Some("json".to_string()),
        config,
    )
    .unwrap();

    let result = initialize_stream(&context, &stream_config);
    assert!(result.is_ok());

    match result.unwrap() {
        InitializedStream::Source(source) => {
            assert_eq!(source.extension, "kafka");
            assert_eq!(source.format, "json");
        }
        _ => panic!("Expected Source stream"),
    }
}

#[test]
fn test_initialize_source_stream_extension_not_found() {
    let context = EventFluxContext::new();

    let stream_config = StreamTypeConfig::new(
        StreamType::Source,
        Some("nonexistent".to_string()),
        Some("json".to_string()),
        PropertyMap::new(),
    )
    .unwrap();

    let result = initialize_stream(&context, &stream_config);
    assert!(result.is_err());

    match expect_err(result) {
        EventFluxError::ExtensionNotFound { extension_type, name } => {
            assert_eq!(extension_type, "source");
            assert_eq!(name, "nonexistent");
        }
        e => panic!("Expected ExtensionNotFound error, got {:?}", e),
    }
}

#[test]
fn test_initialize_source_stream_unsupported_format() {
    let mut context = EventFluxContext::new();
    context.add_source_factory("kafka".to_string(), Box::new(KafkaSourceFactory));

    let stream_config = StreamTypeConfig::new(
        StreamType::Source,
        Some("kafka".to_string()),
        Some("xml".to_string()),
        PropertyMap::new(),
    )
    .unwrap();

    let result = initialize_stream(&context, &stream_config);
    assert!(result.is_err());

    match expect_err(result) {
        EventFluxError::Configuration { message, .. } => {
            assert!(message.contains("xml"));
            assert!(message.contains("kafka"));
        }
        e => panic!("Expected Configuration error for unsupported format, got {:?}", e),
    }
}

#[test]
fn test_initialize_source_stream_mapper_not_found() {
    let mut context = EventFluxContext::new();
    context.add_source_factory("kafka".to_string(), Box::new(KafkaSourceFactory));

    let mut config = PropertyMap::new();
    config.insert("kafka.bootstrap.servers".to_string(), "localhost:9092".to_string());
    config.insert("kafka.topic".to_string(), "test".to_string());

    let stream_config = StreamTypeConfig::new(
        StreamType::Source,
        Some("kafka".to_string()),
        Some("json".to_string()),
        config,
    )
    .unwrap();

    let result = initialize_stream(&context, &stream_config);
    assert!(result.is_err());

    match expect_err(result) {
        EventFluxError::ExtensionNotFound { extension_type, name } => {
            assert_eq!(extension_type, "source mapper");
            assert_eq!(name, "json");
        }
        e => panic!("Expected ExtensionNotFound for mapper, got {:?}", e),
    }
}

#[test]
fn test_initialize_sink_stream_success() {
    let mut context = EventFluxContext::new();
    context.add_sink_factory("http".to_string(), Box::new(HttpSinkFactory));
    context.add_sink_mapper_factory("json".to_string(), Box::new(CsvSinkMapperFactory));

    let mut config = PropertyMap::new();
    config.insert("http.url".to_string(), "http://localhost:8080/events".to_string());

    let stream_config = StreamTypeConfig::new(
        StreamType::Sink,
        Some("http".to_string()),
        Some("json".to_string()),
        config,
    )
    .unwrap();

    let result = initialize_stream(&context, &stream_config);
    assert!(result.is_ok());

    match result.unwrap() {
        InitializedStream::Sink(sink) => {
            assert_eq!(sink.extension, "http");
            assert_eq!(sink.format, "json");
        }
        _ => panic!("Expected Sink stream"),
    }
}

#[test]
fn test_initialize_internal_stream() {
    let context = EventFluxContext::new();

    let stream_config =
        StreamTypeConfig::new(StreamType::Internal, None, None, PropertyMap::new()).unwrap();

    let result = initialize_stream(&context, &stream_config);
    assert!(result.is_ok());

    match result.unwrap() {
        InitializedStream::Internal => {}
        _ => panic!("Expected Internal stream"),
    }
}

#[test]
fn test_initialize_source_stream_invalid_config() {
    let mut context = EventFluxContext::new();
    context.add_source_factory("kafka".to_string(), Box::new(KafkaSourceFactory));
    context.add_source_mapper_factory("json".to_string(), Box::new(JsonSourceMapperFactory));

    let config = PropertyMap::new();

    let stream_config = StreamTypeConfig::new(
        StreamType::Source,
        Some("kafka".to_string()),
        Some("json".to_string()),
        config,
    )
    .unwrap();

    let result = initialize_stream(&context, &stream_config);
    assert!(result.is_err());

    match expect_err(result) {
        EventFluxError::InvalidParameter { parameter, .. } => {
            if let Some(param) = parameter {
                assert!(param.contains("kafka.bootstrap.servers"));
            }
        }
        e => panic!("Expected InvalidParameter error for missing parameter, got {:?}", e),
    }
}

#[test]
fn initialize_stream_passes_on_the_factory_refusal() {
    let mut context = EventFluxContext::new();
    context.add_source_factory("kafka".to_string(), Box::new(KafkaSourceFactory));
    context.add_source_mapper_factory("json".to_string(), Box::new(JsonSourceMapperFactory));
    let mut config = PropertyMap::new();
    config.insert("kafka.bootstrap.servers".to_string(), "localhost:9092".to_string());
    let stream_config =
        StreamTypeConfig::new(StreamType::Source, Some("kafka".to_string()), Some("json".to_string()), config).unwrap();
    match expect_err(initialize_stream(&context, &stream_config)) {
        EventFluxError::InvalidParameter { message, parameter, .. } => {
            assert_eq!(parameter.as_deref(), Some("kafka.topic"));
            assert_eq!(message, "Missing required parameter: kafka.topic");
        }
        other => panic!("unexpected error: {:?}", other),
    }

    let mut sinks = EventFluxContext::new();
    sinks.add_sink_factory("http".to_string(), Box::new(HttpSinkFactory));
    sinks.add_sink_mapper_factory("json".to_string(), Box::new(CsvSinkMapperFactory));
    let mut sink_config = PropertyMap::new();
    sink_config.insert("http.url".to_string(), "http://localhost:8080/events".to_string());
    sink_config.insert("csv.header".to_string(), "maybe".to_string());
    let sink_stream =
        StreamTypeConfig::new(StreamType::Sink, Some("http".to_string()), Some("json".to_string()), sink_config).unwrap();
    match expect_err(initialize_stream(&sinks, &sink_stream)) {
        EventFluxError::InvalidParameter { message, parameter, .. } => {
            assert_eq!(parameter.as_deref(), Some("csv.header"));
            assert_eq!(message, "csv.header must be 'true' or 'false'");
        }
        other => panic!("unexpected error: {:?}", other),
    }
}
