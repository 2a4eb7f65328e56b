use eventflux_rust::engine::stream::junction_factory::JunctionConfig;

#[test]
fn junction_config_defaults_to_synchronous() {
    let c = JunctionConfig::new("S".to_string());
    assert_eq!(c.stream_id, "S");
    assert_eq!(c.buffer_size, 4096);
    assert!(!c.is_async);
    assert_eq!(c.expected_throughput, None);
    assert_eq!(c.subscriber_count, None);
}

#[test]
fn junction_config_builders_set_one_field_each() {
    let c = JunctionConfig::new("HighPerfStream".to_string())
        .with_buffer_size(32768)
        .with_async(true)
        .with_expected_throughput(150000)
        .with_subscriber_count(3);
    assert_eq!(c.stream_id, "HighPerfStream");
    assert_eq!(c.buffer_size, 32768);
    assert!(c.is_async);
    assert_eq!(c.expected_throughput, Some(150000));
    assert_eq!(c.subscriber_count, Some(3));
    let d = c.with_async(false);
    assert!(!d.is_async);
    assert_eq!(d.buffer_size, 32768);
}
