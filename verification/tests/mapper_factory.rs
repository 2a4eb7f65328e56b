use eventflux_rust::engine::exception::EventFluxError;
use eventflux_rust::engine::event::AttributeValue;
use eventflux_rust::engine::stream::mapper::csv_mapper::CsvSourceMapper;
use eventflux_rust::engine::stream::mapper::factory::{
    CsvSourceMapperConfig, CsvSourceMapperFactory, JsonSinkMapperConfig, JsonSourceMapperFactory,
    MapperFactoryRegistry, SourceFactoryEntry, SourceMapperFactory,
};
use eventflux_rust::property_map::PropertyMap;

#[test]
fn test_json_source_factory_auto_mapping() {
    let config = PropertyMap::new();
    let factory = JsonSourceMapperFactory;
    let mapper = factory.create_initialized(&config).unwrap();
    let json_str = r#"{"orderId": "123", "amount": 100.0}"#;
    let events = mapper.map(json_str.as_bytes()).unwrap();
    assert_eq!(events.len(), 1);
    assert_eq!(events[0].data.len(), 2);
}

#[test]
fn test_json_source_factory_explicit_mapping() {
    let mut config = PropertyMap::new();
    config.insert("json.mapping.orderId".to_string(), "$.order.id".to_string());
    config.insert("json.mapping.amount".to_string(), "$.order.total".to_string());
    let factory = JsonSourceMapperFactory;
    let mapper = factory.create_initialized(&config).unwrap();
    let json_str = r#"{"order": {"id": "123", "total": 100.0}}"#;
    let events = mapper.map(json_str.as_bytes()).unwrap();
    assert_eq!(events.len(), 1);
    assert_eq!(events[0].data.len(), 2);
}

#[test]
fn json_factory_reads_prefixed_options() {
    let mut config = PropertyMap::new();
    config.insert("json.mapping.id".to_string(), "$.id".to_string());
    config.insert("json.ignore-parse-errors".to_string(), "TRUE".to_string());
    config.insert("json.date-format".to_string(), "%Y".to_string());
    config.insert("other".to_string(), "x".to_string());
    let m = JsonSourceMapperFactory.create_json_mapper(&config).unwrap();
    assert_eq!(m.mappings.len(), 1);
    assert_eq!(m.mappings.get("id").map(|s| s.as_str()), Some("$.id"));
    assert!(m.ignore_parse_errors);
    assert_eq!(m.date_format.as_deref(), Some("%Y"));
    assert_eq!(JsonSourceMapperFactory.format_name(), "json");
}

#[test]
fn json_sink_config_reads_template_and_pretty_print() {
    let mut config = PropertyMap::new();
    config.insert("json.template".to_string(), "{\"id\":\"{{field_0}}\"}".to_string());
    config.insert("json.pretty-print".to_string(), "yes".to_string());
    let c = JsonSinkMapperConfig::parse(&config).unwrap();
    assert!(!c.pretty_print);
    let m = c.into_mapper();
    assert_eq!(m.template.as_deref(), Some("{\"id\":\"{{field_0}}\"}"));
}

#[test]
fn registry_reports_unknown_formats() {
    let registry = MapperFactoryRegistry::new();
    let config = PropertyMap::new();
    let json_source = registry.create_source_mapper("json", &config).unwrap();
    assert!(json_source.map(r#"{"test": 1}"#.as_bytes()).is_ok());
    match registry.create_source_mapper("unknown", &config) {
        Err(EventFluxError::Configuration { message, config_key }) => {
            assert_eq!(message, "Unknown source mapper format: unknown");
            assert_eq!(config_key.as_deref(), Some("format"));
        }
        _ => panic!("expected a configuration error"),
    }
    assert!(registry.create_sink_mapper("json", &config).is_err());
}

#[test]
fn test_csv_source_factory() {
    let mut config = PropertyMap::new();
    config.insert("csv.delimiter".to_string(), ",".to_string());
    config.insert("csv.has-header".to_string(), "false".to_string());
    let factory = CsvSourceMapperFactory;
    let mapper = factory.create_initialized(&config).unwrap();
    let csv_str = "123,100.0,customer1";
    let events = mapper.map(csv_str.as_bytes()).unwrap();
    assert_eq!(events.len(), 1);
    assert_eq!(events[0].data.len(), 3);
}

#[test]
fn test_registry() {
    let registry = MapperFactoryRegistry::new();
    let config = PropertyMap::new();
    let json_source = registry.create_source_mapper("json", &config).unwrap();
    assert!(json_source.map(r#"{"test": 1}"#.as_bytes()).is_ok());
    let csv_source = registry.create_source_mapper("csv", &config).unwrap();
    assert!(csv_source.map("1,2,3".as_bytes()).is_ok());
    assert!(registry.create_source_mapper("unknown", &config).is_err());
}

#[test]
fn csv_config_reads_mappings_and_flags() {
    let mut config = PropertyMap::new();
    config.insert("csv.mapping.id".to_string(), "0".to_string());
    config.insert("csv.mapping.name".to_string(), "2".to_string());
    config.insert("csv.delimiter".to_string(), ";x".to_string());
    config.insert("csv.has-header".to_string(), "true".to_string());
    let c = CsvSourceMapperConfig::parse(&config).unwrap();
    assert_eq!(c.mappings.len(), 2);
    assert!(c.mappings.contains(&("id".to_string(), 0)));
    assert!(c.mappings.contains(&("name".to_string(), 2)));
    assert_eq!(c.delimiter, ';');
    assert!(c.has_header);
    assert!(!c.ignore_parse_errors);
}

#[test]
fn csv_config_defaults() {
    let c = CsvSourceMapperConfig::parse(&PropertyMap::new()).unwrap();
    assert!(c.mappings.is_empty());
    assert_eq!(c.delimiter, ',');
    assert!(!c.has_header);
    assert!(!c.ignore_parse_errors);
}

#[test]
fn csv_config_refuses_a_bad_column_index() {
    let mut config = PropertyMap::new();
    config.insert("csv.mapping.amount".to_string(), "x1".to_string());
    match CsvSourceMapperConfig::parse(&config) {
        Err(EventFluxError::Configuration { message, config_key }) => {
            assert_eq!(message, "Invalid column index for amount: 'x1' (invalid digit found in string)");
            assert_eq!(config_key.as_deref(), Some("csv.mapping.amount"));
        }
        _ => panic!("expected a configuration error"),
    }
    assert!(CsvSourceMapperFactory.create_initialized(&config).is_err());
}

#[test]
fn csv_mapper_skips_header_and_blank_lines() {
    let mut m = CsvSourceMapper::new();
    m.set_has_header(true);
    let events = m.map_at("a,b\n1,2\n\n3,4\n".as_bytes(), 7).unwrap();
    assert_eq!(events.len(), 2);
    assert_eq!(events[0].timestamp, 7);
    assert_eq!(events[0].data, vec![AttributeValue::String("1".to_string()), AttributeValue::String("2".to_string())]);
    assert_eq!(events[1].data, vec![AttributeValue::String("3".to_string()), AttributeValue::String("4".to_string())]);
}

#[test]
fn csv_mapper_picks_mapped_columns() {
    let mut m = CsvSourceMapper::with_mappings(vec![("b".to_string(), 1), ("z".to_string(), 5)]);
    m.set_delimiter(';');
    let events = m.map_at("x;y;z".as_bytes(), 0).unwrap();
    assert_eq!(events.len(), 1);
    assert_eq!(events[0].data, vec![AttributeValue::String("y".to_string()), AttributeValue::Null]);
}

#[test]
fn csv_mapper_rejects_invalid_utf8_unless_told_to_ignore() {
    let mut m = CsvSourceMapper::new();
    assert!(m.map_at(&[0xff, 0xfe], 0).is_err());
    m.set_ignore_parse_errors(true);
    assert_eq!(m.map_at(&[0xff, 0xfe], 0).unwrap().len(), 0);
}

#[test]
fn registry_serves_each_format_with_its_factory() {
    let mut registry = MapperFactoryRegistry::new();
    let mut bad = PropertyMap::new();
    bad.insert("csv.mapping.a".to_string(), "x".to_string());
    assert!(registry.create_source_mapper("csv", &bad).is_err());
    assert!(registry.create_source_mapper("json", &bad).is_ok());
    registry.register_source_factory(SourceFactoryEntry(Box::new(JsonSourceMapperFactory)));
    let json = registry.create_source_mapper("json", &PropertyMap::new()).unwrap();
    let events = json.map(r#"{"a": "1"}"#.as_bytes()).unwrap();
    assert_eq!(events.len(), 1);
    let csv = registry.create_source_mapper("csv", &PropertyMap::new()).unwrap();
    assert_eq!(csv.map("1,2\n3,4".as_bytes()).unwrap().len(), 2);
}

#[test]
fn registry_csv_mapper_reads_with_configured_settings() {
    let registry = MapperFactoryRegistry::new();
    let mut config = PropertyMap::new();
    config.insert("csv.delimiter".to_string(), ";".to_string());
    config.insert("csv.has-header".to_string(), "TRUE".to_string());
    config.insert("csv.mapping.second".to_string(), "1".to_string());
    let mapper = registry.create_source_mapper("csv", &config).unwrap();
    let events = mapper.map("h1;h2\na;b\n".as_bytes()).unwrap();
    assert_eq!(events.len(), 1);
    assert_eq!(events[0].data, vec![AttributeValue::String("b".to_string())]);
    let empty = registry.create_source_mapper("csv", &PropertyMap::new()).unwrap();
    assert_eq!(empty.map("a,b".as_bytes()).unwrap()[0].data.len(), 2);
}
