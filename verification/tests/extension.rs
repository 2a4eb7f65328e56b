use eventflux_rust::engine::config::eventflux_context::EventFluxContext;
use eventflux_rust::engine::extension::example_factories::{
    CsvSinkMapperFactory, HttpSinkFactory, JsonSourceMapperFactory, KafkaSourceFactory,
};
use eventflux_rust::engine::extension::{
    LogSinkFactory, SinkFactory, SinkMapperFactory, SourceFactory, SourceMapperFactory, TimerSourceFactory,
};
use eventflux_rust::property_map::PropertyMap;

#[test]
fn test_factory_registration() {
    let context = EventFluxContext::new();

    let factory = context.get_source_factory("timer");
    assert!(factory.is_some());
    assert_eq!(factory.unwrap().name(), "timer");

    let sink_factory = context.get_sink_factory("log");
    assert!(sink_factory.is_some());
    assert_eq!(sink_factory.unwrap().name(), "log");
}

#[test]
fn test_kafka_source_factory_registration() {
    let mut context = EventFluxContext::new();
    context.add_source_factory("kafka".to_string(), Box::new(KafkaSourceFactory));

    let factory = context.get_source_factory("kafka");
    assert!(factory.is_some());
    assert_eq!(factory.unwrap().name(), "kafka");
}

#[test]
fn test_format_support_validation() {
    let factory = TimerSourceFactory;
    assert!(factory.supported_formats().contains(&"json"));
    assert!(factory.supported_formats().contains(&"text"));
    assert!(!factory.supported_formats().contains(&"xml"));

    let kafka_factory = KafkaSourceFactory;
    assert!(kafka_factory.supported_formats().contains(&"json"));
    assert!(kafka_factory.supported_formats().contains(&"avro"));
    assert!(!kafka_factory.supported_formats().contains(&"xml"));
}

#[test]
fn test_create_initialized_missing_params() {
    let factory = KafkaSourceFactory;
    let config = PropertyMap::new();

    let result = factory.create_initialized(&config);
    assert!(result.is_err());

    let err = match result {
        Err(e) => e,
        Ok(_) => panic!("expected an error"),
    };
    let err_msg = err.to_string();
    assert!(err_msg.contains("Missing required parameter"));
}

#[test]
fn test_create_initialized_invalid_config() {
    let factory = KafkaSourceFactory;
    let mut config = PropertyMap::new();
    config.insert("kafka.bootstrap.servers".to_string(), "".to_string());
    config.insert("kafka.topic".to_string(), "test".to_string());

    let result = factory.create_initialized(&config);
    assert!(result.is_err());

    let err = match result {
        Err(e) => e,
        Ok(_) => panic!("expected an error"),
    };
    let err_msg = err.to_string();
    assert!(err_msg.contains("cannot be empty"));
}

#[test]
fn test_create_initialized_valid_config() {
    let factory = KafkaSourceFactory;
    let mut config = PropertyMap::new();
    config.insert("kafka.bootstrap.servers".to_string(), "localhost:9092".to_string());
    config.insert("kafka.topic".to_string(), "test-topic".to_string());

    let result = factory.create_initialized(&config);
    assert!(result.is_ok());
}

#[test]
fn test_timer_source_factory_interval_config() {
    let factory = TimerSourceFactory;
    let mut config = PropertyMap::new();
    config.insert("timer.interval".to_string(), "5000".to_string());

    let result = factory.create_initialized(&config);
    assert!(result.is_ok());
}

#[test]
fn test_timer_source_factory_invalid_interval() {
    let factory = TimerSourceFactory;
    let mut config = PropertyMap::new();
    config.insert("timer.interval".to_string(), "invalid".to_string());

    let result = factory.create_initialized(&config);
    assert!(result.is_err());
}

#[test]
fn test_http_sink_factory_format_support() {
    let factory = HttpSinkFactory;
    assert!(factory.supported_formats().contains(&"json"));
    assert!(factory.supported_formats().contains(&"xml"));
    assert!(!factory.supported_formats().contains(&"avro"));
}

#[test]
fn test_http_sink_factory_required_params() {
    let factory = HttpSinkFactory;
    assert_eq!(factory.required_parameters(), &["http.url"]);
}

#[test]
fn test_http_sink_factory_create() {
    let factory = HttpSinkFactory;
    let mut config = PropertyMap::new();
    config.insert("http.url".to_string(), "http://localhost:8080/events".to_string());

    let result = factory.create_initialized(&config);
    assert!(result.is_ok());
}

#[test]
fn test_json_source_mapper_factory() {
    let factory = JsonSourceMapperFactory;
    assert_eq!(factory.name(), "json");
    assert_eq!(factory.required_parameters(), &[] as &[&str]);

    let config = PropertyMap::new();
    let result = factory.create_initialized(&config);
    assert!(result.is_ok());
}

#[test]
fn test_csv_sink_mapper_factory() {
    let factory = CsvSinkMapperFactory;
    assert_eq!(factory.name(), "csv");

    let mut config = PropertyMap::new();
    config.insert("csv.delimiter".to_string(), ";".to_string());
    config.insert("csv.header".to_string(), "false".to_string());

    let result = factory.create_initialized(&config);
    assert!(result.is_ok());
}

#[test]
fn mod_test_csv_sink_mapper_invalid_delimiter() {
    let factory = CsvSinkMapperFactory;
    let mut config = PropertyMap::new();
    config.insert("csv.delimiter".to_string(), ";;".to_string());

    let result = factory.create_initialized(&config);
    assert!(result.is_err());
}

#[test]
fn test_factory_lookup_and_validation() {
    let mut context = EventFluxContext::new();
    context.add_source_factory("kafka".to_string(), Box::new(KafkaSourceFactory));
    context.add_source_mapper_factory("json".to_string(), Box::new(JsonSourceMapperFactory));

    let source_factory = context.get_source_factory("kafka");
    assert!(source_factory.is_some());
    let source_factory = source_factory.unwrap();

    let format = "json";
    assert!(source_factory.supported_formats().contains(&format));

    let mapper_factory = context.get_source_mapper_factory(format);
    assert!(mapper_factory.is_some());

    let mut source_config = PropertyMap::new();
    source_config.insert("kafka.bootstrap.servers".to_string(), "localhost:9092".to_string());
    source_config.insert("kafka.topic".to_string(), "test".to_string());

    let source = source_factory.create_initialized(&source_config);
    assert!(source.is_ok());

    let mapper_config = PropertyMap::new();
    let mapper = mapper_factory.unwrap().create_initialized(&mapper_config);
    assert!(mapper.is_ok());
}

#[test]
fn test_unsupported_format_detection() {
    let factory = KafkaSourceFactory;
    let format = "xml";
    assert!(!factory.supported_formats().contains(&format));
}

#[test]
fn test_sink_factory_parameters() {
    let factory = LogSinkFactory;
    assert_eq!(factory.required_parameters(), &[] as &[&str]);
    assert!(factory.optional_parameters().contains(&"log.prefix"));
    assert!(factory.optional_parameters().contains(&"log.level"));
}

#[test]
fn test_source_factory_parameters() {
    let factory = KafkaSourceFactory;
    assert!(factory.required_parameters().contains(&"kafka.bootstrap.servers"));
    assert!(factory.required_parameters().contains(&"kafka.topic"));
    assert!(factory.optional_parameters().contains(&"kafka.consumer.group"));
    assert!(factory.optional_parameters().contains(&"kafka.timeout"));
}

#[test]
fn test_factory_clone() {
    let factory = TimerSourceFactory;
    let cloned = factory.clone_box();
    assert_eq!(cloned.name(), "timer");
    assert_eq!(cloned.supported_formats(), factory.supported_formats());
}

#[test]
fn registering_a_name_again_replaces_the_factory() {
    let mut context = EventFluxContext::new();
    context.add_source_factory("timer".to_string(), Box::new(KafkaSourceFactory));
    assert_eq!(context.get_source_factory("timer").unwrap().name(), "kafka");
    assert!(context.get_source_factory("kafka").is_none());
}

#[test]
fn timer_factory_create_uses_defaults() {
    let factory = TimerSourceFactory;
    assert!(factory.create().is_some());
    assert!(KafkaSourceFactory.create().is_none());
    assert_eq!(TimerSourceFactory::parse_interval(&PropertyMap::new()).unwrap(), 1000);
}

#[test]
fn create_builds_from_an_empty_configuration_when_that_is_accepted() {
    assert!(TimerSourceFactory.create().is_some());
    assert!(LogSinkFactory.create().is_some());
    assert!(KafkaSourceFactory.create().is_none());
    assert!(HttpSinkFactory.create().is_none());
    assert!(JsonSourceMapperFactory.create().is_some());
    assert!(CsvSinkMapperFactory.create().is_some());
}
