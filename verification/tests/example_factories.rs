use eventflux_rust::engine::exception::EventFluxError;
use eventflux_rust::engine::extension::example_factories::{
    CsvSinkMapperConfig, HttpSinkConfig, KafkaSourceConfig, KafkaSourceFactory,
};
use eventflux_rust::engine::extension::SourceFactory;
use eventflux_rust::property_map::PropertyMap;

#[test]
fn test_kafka_source_config_parse() {
    let mut config = PropertyMap::new();
    config.insert("kafka.bootstrap.servers".to_string(), "localhost:9092".to_string());
    config.insert("kafka.topic".to_string(), "test-topic".to_string());

    let parsed = KafkaSourceConfig::parse(&config).unwrap();
    assert_eq!(parsed.bootstrap_servers, vec!["localhost:9092"]);
    assert_eq!(parsed.topic, "test-topic");
    assert_eq!(parsed.consumer_group, "eventflux-test-topic");
    assert_eq!(parsed.timeout_ms, 30000);
}

#[test]
fn test_kafka_source_config_missing_required() {
    let config = PropertyMap::new();
    let result = KafkaSourceConfig::parse(&config);
    assert!(result.is_err());
    assert!(matches!(result.unwrap_err(), EventFluxError::InvalidParameter { .. }));
}

#[test]
fn test_kafka_source_config_empty_brokers() {
    let mut config = PropertyMap::new();
    config.insert("kafka.bootstrap.servers".to_string(), "".to_string());
    config.insert("kafka.topic".to_string(), "test".to_string());

    let result = KafkaSourceConfig::parse(&config);
    assert!(result.is_err());
}

#[test]
fn test_kafka_factory_supported_formats() {
    let factory = KafkaSourceFactory;
    assert!(factory.supported_formats().contains(&"json"));
    assert!(factory.supported_formats().contains(&"avro"));
    assert!(!factory.supported_formats().contains(&"xml"));
}

#[test]
fn test_http_sink_config_parse() {
    let mut config = PropertyMap::new();
    config.insert("http.url".to_string(), "http://localhost:8080/api".to_string());
    config.insert("http.method".to_string(), "POST".to_string());

    let parsed = HttpSinkConfig::parse(&config).unwrap();
    assert_eq!(parsed.url, "http://localhost:8080/api");
    assert_eq!(parsed.method, "POST");
    assert_eq!(parsed.timeout_secs, 30);
}

#[test]
fn test_http_sink_config_invalid_method() {
    let mut config = PropertyMap::new();
    config.insert("http.url".to_string(), "http://localhost:8080".to_string());
    config.insert("http.method".to_string(), "INVALID".to_string());

    let result = HttpSinkConfig::parse(&config);
    assert!(result.is_err());
}

#[test]
fn test_csv_sink_mapper_config_parse() {
    let mut config = PropertyMap::new();
    config.insert("csv.delimiter".to_string(), ";".to_string());
    config.insert("csv.header".to_string(), "false".to_string());

    let parsed = CsvSinkMapperConfig::parse(&config).unwrap();
    assert_eq!(parsed.delimiter, ";");
    assert_eq!(parsed.header, false);
}

#[test]
fn example_factories_test_csv_sink_mapper_invalid_delimiter() {
    let mut config = PropertyMap::new();
    config.insert("csv.delimiter".to_string(), ";;".to_string());

    let result = CsvSinkMapperConfig::parse(&config);
    assert!(result.is_err());
}

#[test]
fn test_factory_create_initialized() {
    let factory = KafkaSourceFactory;
    let mut config = PropertyMap::new();
    config.insert("kafka.bootstrap.servers".to_string(), "localhost:9092".to_string());
    config.insert("kafka.topic".to_string(), "test".to_string());

    let result = factory.create_initialized(&config);
    assert!(result.is_ok());
}

#[test]
fn test_factory_create_initialized_missing_params() {
    let factory = KafkaSourceFactory;
    let config = PropertyMap::new();

    let result = factory.create_initialized(&config);
    assert!(result.is_err());
    let err_msg = match result {
        Err(e) => e.to_string(),
        Ok(_) => panic!("expected an error"),
    };
    assert!(err_msg.contains("Missing required parameter"));
}

#[test]
fn kafka_broker_list_is_trimmed_and_filtered() {
    let mut config = PropertyMap::new();
    config.insert("kafka.bootstrap.servers".to_string(), " a:1 , ,b:2,".to_string());
    config.insert("kafka.topic".to_string(), "t".to_string());
    config.insert("kafka.timeout".to_string(), "500".to_string());
    config.insert("kafka.consumer.group".to_string(), "g".to_string());
    let parsed = KafkaSourceConfig::parse(&config).unwrap();
    assert_eq!(parsed.bootstrap_servers, vec!["a:1", "b:2"]);
    assert_eq!(parsed.timeout_ms, 500);
    assert_eq!(parsed.consumer_group, "g");
}

#[test]
fn kafka_invalid_timeout_is_rejected() {
    let mut config = PropertyMap::new();
    config.insert("kafka.bootstrap.servers".to_string(), "a:1".to_string());
    config.insert("kafka.topic".to_string(), "t".to_string());
    config.insert("kafka.timeout".to_string(), "soon".to_string());
    assert!(matches!(
        KafkaSourceConfig::parse(&config),
        Err(EventFluxError::InvalidParameter { .. })
    ));
}

#[test]
fn http_method_is_case_insensitive_and_uppercased() {
    let mut config = PropertyMap::new();
    config.insert("http.url".to_string(), "http://x".to_string());
    config.insert("http.method".to_string(), "put".to_string());
    let parsed = HttpSinkConfig::parse(&config).unwrap();
    assert_eq!(parsed.method, "PUT");
    let mut missing = PropertyMap::new();
    missing.insert("http.method".to_string(), "GET".to_string());
    assert!(HttpSinkConfig::parse(&missing).is_err());
}

#[test]
fn csv_header_must_be_boolean() {
    let mut config = PropertyMap::new();
    config.insert("csv.header".to_string(), "yes".to_string());
    assert!(CsvSinkMapperConfig::parse(&config).is_err());
    let defaults = CsvSinkMapperConfig::parse(&PropertyMap::new()).unwrap();
    assert_eq!(defaults.delimiter, ",");
    assert!(defaults.header);
}
