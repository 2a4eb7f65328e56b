use eventflux_rust::engine::exception::EventFluxError;
use eventflux_rust::engine::stream::handler::{
    start_all_sources, stop_all_sinks, stop_all_sources, SinkStreamHandler, SourceStreamHandler,
};
use eventflux_rust::engine::stream::input::input_handler::InputHandler;
use eventflux_rust::engine::event::Event;
use eventflux_rust::engine::stream::input::mapper::SourceMapper;
use eventflux_rust::engine::stream::mapper::csv_mapper::CsvSourceMapper;
use eventflux_rust::engine::stream::mapper::json_mapper::JsonMapOutcome;
use eventflux_rust::engine::stream::input::source::{Source, TimerSource};
use eventflux_rust::engine::stream::output::sink::{LogSink, Sink};

struct NoEvents;

impl SourceMapper for NoEvents {
    fn outcome(&self, _input: &[u8]) -> Option<JsonMapOutcome> {
        None
    }

    fn csv_reading(&self) -> Option<CsvSourceMapper> {
        None
    }

    fn map(&self, _input: &[u8]) -> Result<Vec<Event>, EventFluxError> {
        Ok(Vec::new())
    }
}

fn create_test_input_handler(stream_id: String) -> InputHandler {
    InputHandler::new(stream_id, 0)
}

#[test]
fn test_source_handler_creation() {
    let source = Box::new(TimerSource::new(100));
    let input_handler = create_test_input_handler("TestStream".to_string());
    let handler = SourceStreamHandler::new(source, None, input_handler, "TestStream".to_string());
    assert_eq!(handler.stream_id(), "TestStream");
    assert!(!handler.is_running());
}

#[test]
fn test_source_handler_start_stop() {
    let source = Box::new(TimerSource::new(100));
    let input_handler = create_test_input_handler("TestStream".to_string());
    let mut handler =
        SourceStreamHandler::new(source, None, input_handler, "TestStream".to_string());
    assert!(handler.start().is_ok());
    assert!(handler.is_running());
    // Starting again should fail
    assert!(handler.start().is_err());
    handler.stop();
    assert!(!handler.is_running());
}

#[test]
fn test_sink_handler_creation() {
    let sink = Box::new(LogSink::new());
    let handler = SinkStreamHandler::new(sink, None, "TestSink".to_string());
    assert_eq!(handler.stream_id(), "TestSink");
    assert!(!handler.is_running());
}

#[test]
fn test_sink_handler_start_stop() {
    let sink = Box::new(LogSink::new());
    let mut handler = SinkStreamHandler::new(sink, None, "TestSink".to_string());
    handler.start();
    assert!(handler.is_running());
    handler.stop();
    assert!(!handler.is_running());
}

#[test]
fn second_start_names_the_stream() {
    let mut handler = SourceStreamHandler::new(
        Box::new(TimerSource::new(5)),
        Some(Box::new(NoEvents)),
        create_test_input_handler("Orders".to_string()),
        "Orders".to_string(),
    );
    assert!(handler.mapper().is_some());
    handler.start().unwrap();
    match handler.start() {
        Err(EventFluxError::AppRuntime { message }) => {
            assert_eq!(message, "Source 'Orders' is already running")
        }
        _ => panic!("expected an app runtime error"),
    }
    assert!(handler.is_running());
    handler.stop();
    handler.stop();
    assert!(!handler.is_running());
    assert!(handler.start().is_ok());
}

#[test]
fn sink_start_twice_keeps_running() {
    let mut handler = SinkStreamHandler::new(Box::new(LogSink::new()), None, "Out".to_string());
    handler.start();
    handler.start();
    assert!(handler.is_running());
    assert!(handler.mapper().is_none());
}

#[test]
fn log_sink_counts_received_events() {
    let mut sink = LogSink::new();
    let events = vec![Event::new_with_data(1, vec![]), Event::new_with_data(2, vec![])];
    sink.receive_events(&events);
    sink.receive_events(&events[..1]);
    assert_eq!(sink.received, 3);
}

#[test]
fn sources_and_sinks_follow_start_and_stop() {
    let mut timer = TimerSource::new(10);
    let mut ih = create_test_input_handler("Ticks".to_string());
    timer.start(&mut ih);
    assert!(timer.running);
    timer.stop();
    assert!(!timer.running);
    let mut sink = LogSink::new();
    sink.start();
    assert!(sink.open);
    sink.stop();
    assert!(!sink.open);
}

fn timer_handler(id: &str) -> SourceStreamHandler {
    SourceStreamHandler::new(
        Box::new(TimerSource::new(5)),
        None,
        create_test_input_handler(id.to_string()),
        id.to_string(),
    )
}

#[test]
fn start_all_sources_reports_every_running_source() {
    let mut handlers = vec![timer_handler("A"), timer_handler("B"), timer_handler("C")];
    assert_eq!(start_all_sources(&mut handlers), Ok(()));
    assert!(handlers.iter().all(|h| h.is_running()));
    handlers.push(timer_handler("D"));
    match start_all_sources(&mut handlers) {
        Err(m) => assert_eq!(
            m,
            "Failed to start 3 source(s): Failed to start source 'A': App runtime error: Source 'A' is already running; \
             Failed to start source 'B': App runtime error: Source 'B' is already running; \
             Failed to start source 'C': App runtime error: Source 'C' is already running"
        ),
        Ok(()) => panic!("expected an error"),
    }
    assert!(handlers[3].is_running());
    stop_all_sources(&mut handlers);
    assert!(handlers.iter().all(|h| !h.is_running()));
}

#[test]
fn stop_all_sinks_stops_every_sink() {
    let mut handlers = vec![
        SinkStreamHandler::new(Box::new(LogSink::new()), None, "X".to_string()),
        SinkStreamHandler::new(Box::new(LogSink::new()), None, "Y".to_string()),
    ];
    handlers[0].start();
    stop_all_sinks(&mut handlers);
    assert!(!handlers[0].is_running());
    assert!(!handlers[1].is_running());
}
