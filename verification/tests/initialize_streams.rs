use eventflux_rust::engine::config::eventflux_context::EventFluxContext;
use eventflux_rust::engine::config::stream_config::{FlatConfig, PropertySource};
use eventflux_rust::engine::exception::EventFluxError;
use eventflux_rust::engine::extension::example_factories::{
    CsvSinkMapperFactory, HttpSinkFactory, JsonSourceMapperFactory, KafkaSourceFactory,
};
use eventflux_rust::engine::stream::stream_initializer::initialize_streams;
use eventflux_rust::query_api::definition::stream_definition::StreamDefinition;
use eventflux_rust::query_api::execution::input_stream::{InputStream, SingleInputStream};
use eventflux_rust::query_api::execution::query::{
    InsertIntoStreamAction, OutputStream, OutputStreamAction, Query, Selector,
};

fn query(from: &str, into: &str) -> Query {
    Query {
        eventflux_element: Default::default(),
        input_stream: Some(InputStream::Single(SingleInputStream::new_basic(
            from.to_string(),
            false,
            false,
            None,
            Vec::new(),
        ))),
        selector: Selector::new(),
        output_stream: OutputStream {
            eventflux_element: Default::default(),
            action: OutputStreamAction::InsertInto(InsertIntoStreamAction {
                target_id: into.to_string(),
                is_inner_stream: false,
                is_fault_stream: false,
            }),
            output_event_type: None,
        },
        output_rate: None,
        annotations: Vec::new(),
    }
}

fn config(pairs: &[(&str, &str)]) -> FlatConfig {
    let mut c = FlatConfig::new();
    for (k, v) in pairs {
        c.set(k, v, PropertySource::SqlWith);
    }
    c
}

fn context() -> EventFluxContext {
    let mut context = EventFluxContext::new();
    context.add_source_factory("kafka".to_string(), Box::new(KafkaSourceFactory));
    context.add_source_mapper_factory("json".to_string(), Box::new(JsonSourceMapperFactory));
    context.add_sink_factory("http".to_string(), Box::new(HttpSinkFactory));
    context.add_sink_mapper_factory("json".to_string(), Box::new(CsvSinkMapperFactory));
    context
}

fn stream(name: &str, cfg: FlatConfig) -> (String, (StreamDefinition, FlatConfig)) {
    (name.to_string(), (StreamDefinition::new(name.to_string()), cfg))
}

#[test]
fn initialize_streams_creates_handlers_in_dependency_order() {
    let streams = vec![
        stream("Out", config(&[("type", "sink"), ("extension", "http"), ("format", "json"), ("http.url", "http://localhost:8080/e")])),
        stream("In", config(&[("type", "SOURCE"), ("extension", "kafka"), ("format", "json"),
            ("kafka.bootstrap.servers", "localhost:9092"), ("kafka.topic", "t")])),
        stream("Unused", config(&[("type", "internal")])),
    ];
    let handlers = initialize_streams(streams, vec![query("In", "Out")], &context()).unwrap();
    assert_eq!(handlers.source_handlers.len(), 1);
    assert_eq!(handlers.source_handlers[0].0, "In");
    assert_eq!(handlers.source_handlers[0].1.stream_id(), "In");
    assert!(!handlers.source_handlers[0].1.is_running());
    assert_eq!(handlers.sink_handlers.len(), 1);
    assert_eq!(handlers.sink_handlers[0].1.stream_id(), "Out");
}

#[test]
fn initialize_streams_rejects_a_missing_dead_letter_stream() {
    let streams = vec![stream("In", config(&[("type", "internal"), ("error.dlq.stream", "Nowhere")]))];
    match initialize_streams(streams, Vec::new(), &context()) {
        Err(EventFluxError::Configuration { message, .. }) => {
            assert_eq!(message, "DLQ stream 'Nowhere' referenced by stream 'In' does not exist")
        }
        _ => panic!("expected a configuration error"),
    }
}

#[test]
fn initialize_streams_reports_invalid_configurations_and_cycles() {
    let streams = vec![stream("In", config(&[("type", "bogus")])), stream("Out", config(&[("type", "internal")]))];
    match initialize_streams(streams, vec![query("In", "Out")], &context()) {
        Err(EventFluxError::Configuration { message, .. }) => {
            assert!(message.starts_with("Invalid stream configuration for 'In': "))
        }
        _ => panic!("expected a configuration error"),
    }
    let streams = vec![stream("A", config(&[("type", "internal")])), stream("B", config(&[("type", "internal")]))];
    let r = initialize_streams(streams, vec![query("A", "B"), query("B", "A")], &context());
    match r {
        Err(EventFluxError::AppCreation { message }) => assert!(
            message == "Unexpected cycle detected during initialization: A"
                || message == "Unexpected cycle detected during initialization: B"
        ),
        _ => panic!("expected a cycle error"),
    }
}
