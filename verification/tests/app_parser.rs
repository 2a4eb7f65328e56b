use eventflux_rust::engine::config::stream_config::{FlatConfig, PropertySource};
use eventflux_rust::engine::util::eventflux_app_parser::EventFluxAppParser;

fn with(entries: &[(&str, &str)]) -> FlatConfig {
    let mut c = FlatConfig::new();
    for (k, v) in entries {
        c.set(k, v, PropertySource::SqlWith);
    }
    c
}

#[test]
fn junction_uses_application_defaults_without_with_clause() {
    let c = EventFluxAppParser::stream_junction_config("S".to_string(), 1024, false, None);
    assert_eq!(c.stream_id, "S");
    assert_eq!(c.buffer_size, 1024);
    assert!(!c.is_async);
    assert_eq!(c.expected_throughput, None);
    assert_eq!(c.subscriber_count, None);
}

#[test]
fn with_clause_sets_buffer_workers_and_async() {
    let wc = with(&[("async.buffer_size", "256"), ("async.workers", "4"), ("async.enabled", "TRUE")]);
    let c = EventFluxAppParser::stream_junction_config("S".to_string(), 1024, false, Some(&wc));
    assert_eq!(c.buffer_size, 256);
    assert_eq!(c.expected_throughput, Some(40000));
    assert!(c.is_async);
}

#[test]
fn unreadable_with_values_are_ignored() {
    let wc = with(&[("async.buffer_size", "big"), ("async.workers", "-1"), ("async.enabled", "yes")]);
    let c = EventFluxAppParser::stream_junction_config("S".to_string(), 1024, true, Some(&wc));
    assert_eq!(c.buffer_size, 1024);
    assert_eq!(c.expected_throughput, None);
    assert!(c.is_async);
}

#[test]
fn async_false_does_not_turn_off_the_default() {
    let wc = with(&[("async.enabled", "false"), ("async.buffer_size", "+8")]);
    let c = EventFluxAppParser::stream_junction_config("S".to_string(), 64, true, Some(&wc));
    assert!(c.is_async);
    assert_eq!(c.buffer_size, 8);
}
