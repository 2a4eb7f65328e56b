use eventflux_rust::engine::config::stream_config::{FlatConfig, PropertySource, StreamType, StreamTypeConfig};
use eventflux_rust::property_map::PropertyMap;

#[test]
fn test_property_source_priority_ordering() {
    assert!(PropertySource::SqlWith.priority() > PropertySource::TomlStream.priority());
    assert!(PropertySource::TomlStream.priority() > PropertySource::TomlApplication.priority());
    assert!(PropertySource::TomlApplication.priority() > PropertySource::RustDefault.priority());
}

#[test]
fn test_property_source_priority_values() {
    assert_eq!(PropertySource::RustDefault.priority(), 0);
    assert_eq!(PropertySource::TomlApplication.priority(), 1);
    assert_eq!(PropertySource::TomlStream.priority(), 2);
    assert_eq!(PropertySource::SqlWith.priority(), 3);
}

#[test]
fn test_property_source_descriptions() {
    assert_eq!(PropertySource::RustDefault.description(), "Rust default");
    assert_eq!(PropertySource::TomlApplication.description(), "TOML [application]");
    assert_eq!(PropertySource::TomlStream.description(), "TOML [streams.StreamName]");
    assert_eq!(PropertySource::SqlWith.description(), "SQL WITH clause");
}

#[test]
fn test_flat_config_creation() {
    let config = FlatConfig::new();
    assert!(config.is_empty());
    assert_eq!(config.len(), 0);
}

#[test]
fn test_flat_config_set_and_get() {
    let mut config = FlatConfig::new();
    config.set("key1", "value1", PropertySource::RustDefault);

    assert_eq!(config.get("key1"), Some(&"value1".to_string()));
    assert!(config.contains("key1"));
    assert_eq!(config.len(), 1);
}

#[test]
fn test_flat_config_priority_override() {
    let mut config = FlatConfig::new();
    config.set("buffer_size", "1024", PropertySource::RustDefault);
    assert_eq!(config.get("buffer_size"), Some(&"1024".to_string()));
    config.set("buffer_size", "2048", PropertySource::TomlApplication);
    assert_eq!(config.get("buffer_size"), Some(&"2048".to_string()));
    config.set("buffer_size", "4096", PropertySource::SqlWith);
    assert_eq!(config.get("buffer_size"), Some(&"4096".to_string()));
}

#[test]
fn test_flat_config_priority_no_override() {
    let mut config = FlatConfig::new();
    config.set("buffer_size", "4096", PropertySource::SqlWith);
    assert_eq!(config.get("buffer_size"), Some(&"4096".to_string()));
    config.set("buffer_size", "1024", PropertySource::RustDefault);
    assert_eq!(config.get("buffer_size"), Some(&"4096".to_string()));
    config.set("buffer_size", "2048", PropertySource::SqlWith);
    assert_eq!(config.get("buffer_size"), Some(&"4096".to_string()));
}

#[test]
fn test_flat_config_get_with_source() {
    let mut config = FlatConfig::new();
    config.set("key1", "value1", PropertySource::TomlStream);

    let result = config.get_with_source("key1");
    assert!(result.is_some());
    let (value, source) = result.unwrap();
    assert_eq!(value, &"value1".to_string());
    assert_eq!(source, PropertySource::TomlStream);
}

#[test]
fn test_flat_config_merge() {
    let mut config1 = FlatConfig::new();
    config1.set("key1", "value1", PropertySource::RustDefault);
    config1.set("key2", "value2", PropertySource::TomlApplication);

    let mut config2 = FlatConfig::new();
    config2.set("key2", "new_value2", PropertySource::SqlWith);
    config2.set("key3", "value3", PropertySource::TomlStream);

    config1.merge(&config2);

    assert_eq!(config1.get("key1"), Some(&"value1".to_string()));
    assert_eq!(config1.get("key2"), Some(&"new_value2".to_string()));
    assert_eq!(config1.get("key3"), Some(&"value3".to_string()));
}

#[test]
fn test_flat_config_prefix_filtering() {
    let mut config = FlatConfig::new();
    config.set("kafka_bootstrap_servers", "localhost:9092", PropertySource::SqlWith);
    config.set("kafka_topic", "events", PropertySource::SqlWith);
    config.set("type", "source", PropertySource::SqlWith);
    config.set("format", "json", PropertySource::SqlWith);

    let kafka_props: Vec<(String, String)> = config
        .get_properties_with_prefix("kafka_")
        .iter()
        .map(|(k, v)| (k.clone(), v.clone()))
        .collect();

    assert_eq!(kafka_props.len(), 2);
    assert!(kafka_props.iter().any(|(k, _)| k == "kafka_bootstrap_servers"));
    assert!(kafka_props.iter().any(|(k, _)| k == "kafka_topic"));
}

#[test]
fn test_flat_config_keys_iterator() {
    let mut config = FlatConfig::new();
    config.set("key1", "value1", PropertySource::RustDefault);
    config.set("key2", "value2", PropertySource::RustDefault);
    config.set("key3", "value3", PropertySource::RustDefault);

    let keys: Vec<String> = config.keys();
    assert_eq!(keys.len(), 3);
}

#[test]
fn test_stream_type_from_str() {
    assert_eq!(StreamType::from_str("source").unwrap(), StreamType::Source);
    assert_eq!(StreamType::from_str("Source").unwrap(), StreamType::Source);
    assert_eq!(StreamType::from_str("SOURCE").unwrap(), StreamType::Source);

    assert_eq!(StreamType::from_str("sink").unwrap(), StreamType::Sink);
    assert_eq!(StreamType::from_str("Sink").unwrap(), StreamType::Sink);

    assert_eq!(StreamType::from_str("internal").unwrap(), StreamType::Internal);
    assert_eq!(StreamType::from_str("Internal").unwrap(), StreamType::Internal);
}

#[test]
fn test_stream_type_from_str_invalid() {
    assert!(StreamType::from_str("invalid").is_err());
    assert!(StreamType::from_str("").is_err());
    assert!(StreamType::from_str("stream").is_err());
}

#[test]
fn test_stream_type_as_str() {
    assert_eq!(StreamType::Source.as_str(), "source");
    assert_eq!(StreamType::Sink.as_str(), "sink");
    assert_eq!(StreamType::Internal.as_str(), "internal");
}

#[test]
fn test_stream_type_requires_extension() {
    assert!(StreamType::Source.requires_extension());
    assert!(StreamType::Sink.requires_extension());
    assert!(!StreamType::Internal.requires_extension());
}

#[test]
fn test_stream_type_requires_format() {
    assert!(StreamType::Source.requires_format());
    assert!(StreamType::Sink.requires_format());
    assert!(!StreamType::Internal.requires_format());
}

#[test]
fn test_stream_type_config_source_valid() {
    let mut props = PropertyMap::new();
    props.insert("type".to_string(), "source".to_string());
    props.insert("extension".to_string(), "kafka".to_string());
    props.insert("format".to_string(), "json".to_string());

    let config = StreamTypeConfig::new(
        StreamType::Source,
        Some("kafka".to_string()),
        Some("json".to_string()),
        props,
    );

    assert!(config.is_ok());
    let config = config.unwrap();
    assert_eq!(config.stream_type, StreamType::Source);
    assert_eq!(config.extension().unwrap(), "kafka");
    assert_eq!(config.format().unwrap(), "json");
}

#[test]
fn test_stream_type_config_sink_valid() {
    let mut props = PropertyMap::new();
    props.insert("type".to_string(), "sink".to_string());
    props.insert("extension".to_string(), "log".to_string());
    props.insert("format".to_string(), "text".to_string());

    let config = StreamTypeConfig::new(
        StreamType::Sink,
        Some("log".to_string()),
        Some("text".to_string()),
        props,
    );

    assert!(config.is_ok());
    let config = config.unwrap();
    assert_eq!(config.stream_type, StreamType::Sink);
}

#[test]
fn test_stream_type_config_internal_valid() {
    let mut props = PropertyMap::new();
    props.insert("type".to_string(), "internal".to_string());

    let config = StreamTypeConfig::new(StreamType::Internal, None, None, props);

    assert!(config.is_ok());
}

#[test]
fn test_stream_type_config_source_missing_extension() {
    let props = PropertyMap::new();
    let config = StreamTypeConfig::new(StreamType::Source, None, Some("json".to_string()), props);

    assert!(config.is_err());
    assert!(config.unwrap_err().contains("missing required 'extension'"));
}

#[test]
fn test_stream_type_config_source_missing_format() {
    let props = PropertyMap::new();
    let config = StreamTypeConfig::new(StreamType::Source, Some("kafka".to_string()), None, props);

    assert!(config.is_err());
    assert!(config.unwrap_err().contains("missing required 'format'"));
}

#[test]
fn test_stream_type_config_internal_with_extension() {
    let props = PropertyMap::new();
    let config = StreamTypeConfig::new(StreamType::Internal, Some("kafka".to_string()), None, props);

    assert!(config.is_err());
    assert!(config.unwrap_err().contains("type='internal' but specifies 'extension'"));
}

#[test]
fn test_stream_type_config_internal_with_format() {
    let props = PropertyMap::new();
    let config = StreamTypeConfig::new(StreamType::Internal, None, Some("json".to_string()), props);

    assert!(config.is_err());
    assert!(config.unwrap_err().contains("type='internal' but specifies 'format'"));
}

#[test]
fn test_stream_type_config_from_flat_config() {
    let mut flat_config = FlatConfig::new();
    flat_config.set("type", "source", PropertySource::SqlWith);
    flat_config.set("extension", "kafka", PropertySource::SqlWith);
    flat_config.set("format", "json", PropertySource::SqlWith);
    flat_config.set("bootstrap_servers", "localhost:9092", PropertySource::SqlWith);

    let config = StreamTypeConfig::from_flat_config(&flat_config);
    assert!(config.is_ok());

    let config = config.unwrap();
    assert_eq!(config.stream_type, StreamType::Source);
    assert_eq!(config.extension().unwrap(), "kafka");
    assert_eq!(config.format().unwrap(), "json");
    assert_eq!(
        config.properties.get("bootstrap_servers"),
        Some(&"localhost:9092".to_string())
    );
}

#[test]
fn test_stream_type_config_from_flat_config_missing_type() {
    let flat_config = FlatConfig::new();
    let config = StreamTypeConfig::from_flat_config(&flat_config);

    assert!(config.is_err());
    assert!(config.unwrap_err().contains("missing required 'type'"));
}

#[test]
fn test_stream_type_config_get_properties_with_prefix() {
    let mut props = PropertyMap::new();
    props.insert("type".to_string(), "source".to_string());
    props.insert("extension".to_string(), "kafka".to_string());
    props.insert("format".to_string(), "json".to_string());
    props.insert("kafka_bootstrap_servers".to_string(), "localhost:9092".to_string());
    props.insert("kafka_topic".to_string(), "events".to_string());
    props.insert("redis_host".to_string(), "localhost".to_string());

    let config = StreamTypeConfig::new(
        StreamType::Source,
        Some("kafka".to_string()),
        Some("json".to_string()),
        props,
    )
    .unwrap();

    let kafka_props = config.get_properties_with_prefix("kafka_");
    assert_eq!(kafka_props.len(), 2);
    assert_eq!(kafka_props.get("kafka_bootstrap_servers"), Some(&"localhost:9092".to_string()));
    assert_eq!(kafka_props.get("kafka_topic"), Some(&"events".to_string()));

    let redis_props = config.get_properties_with_prefix("redis_");
    assert_eq!(redis_props.len(), 1);
}

#[test]
fn test_complete_configuration_flow() {
    let mut config = FlatConfig::new();
    config.set("buffer_size", "1024", PropertySource::RustDefault);
    config.set("timeout", "30000", PropertySource::RustDefault);
    config.set("buffer_size", "2048", PropertySource::TomlApplication);
    config.set("retry_count", "3", PropertySource::TomlApplication);
    config.set("type", "source", PropertySource::TomlStream);
    config.set("extension", "kafka", PropertySource::TomlStream);
    config.set("extension", "http", PropertySource::SqlWith);
    config.set("format", "json", PropertySource::SqlWith);

    assert_eq!(config.get("buffer_size"), Some(&"2048".to_string()));
    assert_eq!(config.get("timeout"), Some(&"30000".to_string()));
    assert_eq!(config.get("retry_count"), Some(&"3".to_string()));
    assert_eq!(config.get("type"), Some(&"source".to_string()));
    assert_eq!(config.get("extension"), Some(&"http".to_string()));
    assert_eq!(config.get("format"), Some(&"json".to_string()));
}

#[test]
fn test_with_capacity_optimization() {
    let config = FlatConfig::with_capacity(10);
    assert_eq!(config.len(), 0);
    assert!(config.is_empty());
}

#[test]
fn flat_config_merge_keeps_higher_priority_values() {
    let mut base = FlatConfig::new();
    base.set("k", "sql", PropertySource::SqlWith);
    let mut other = FlatConfig::new();
    other.set("k", "default", PropertySource::RustDefault);
    base.merge(&other);
    assert_eq!(base.get_with_source("k"), Some((&"sql".to_string(), PropertySource::SqlWith)));
}

#[test]
fn stream_type_invalid_message_names_input() {
    let e = StreamType::from_str("stream").unwrap_err();
    assert_eq!(e, "Invalid stream type 'stream'. Valid values: 'source', 'sink', 'internal'");
}

#[test]
fn stream_type_name_round_trips() {
    for t in [StreamType::Source, StreamType::Sink, StreamType::Internal] {
        assert_eq!(StreamType::from_str(t.as_str()).unwrap(), t);
        assert_eq!(StreamType::from_str(&t.as_str().to_uppercase()).unwrap(), t);
    }
}

#[test]
fn flat_config_len_counts_distinct_keys_over_sets_and_merges() {
    let mut config = FlatConfig::new();
    config.set("a", "1", PropertySource::TomlStream);
    config.set("b", "2", PropertySource::RustDefault);
    config.set("a", "3", PropertySource::RustDefault);
    config.set("a", "4", PropertySource::SqlWith);
    assert_eq!(config.len(), 2);
    let mut other = FlatConfig::new();
    other.set("b", "5", PropertySource::SqlWith);
    other.set("c", "6", PropertySource::RustDefault);
    config.merge(&other);
    assert_eq!(config.len(), 3);
    assert_eq!(config.keys().len(), 3);
    assert_eq!(config.properties().len(), 3);
}
