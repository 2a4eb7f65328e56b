use eventflux_rust::engine::event::AttributeValue;
use eventflux_rust::engine::exception::EventFluxError;
use eventflux_rust::engine::stream::input::mapper::SourceMapper;
use eventflux_rust::engine::stream::mapper::json_mapper::{render_template, JsonSinkMapper, JsonSourceMapper};
use eventflux_rust::property_map::PropertyMap;

fn message_of(e: &EventFluxError) -> String {
    match e {
        EventFluxError::MappingFailed { message } => message.clone(),
        _ => panic!("expected a mapping failure"),
    }
}

#[test]
fn test_auto_mapping() {
    let json_str = r#"{"orderId": "123", "amount": 100.0}"#;
    let mapper = JsonSourceMapper::new();
    let events = mapper.map(json_str.as_bytes()).unwrap();
    assert_eq!(events.len(), 1);
    assert_eq!(events[0].data.len(), 2);
}

#[test]
fn test_explicit_mapping() {
    let json_str = r#"{"order": {"id": "123", "total": 100.0}}"#;
    let mut mappings = PropertyMap::new();
    mappings.insert("orderId".to_string(), "$.order.id".to_string());
    mappings.insert("amount".to_string(), "$.order.total".to_string());
    let mapper = JsonSourceMapper::with_mappings(mappings);
    let events = mapper.map(json_str.as_bytes()).unwrap();
    assert_eq!(events.len(), 1);
    assert_eq!(events[0].data.len(), 2);
}

#[test]
fn test_all_or_nothing_mapping_policy() {
    let mapper1 = JsonSourceMapper::new();
    assert!(mapper1.mappings.is_empty());
    let mut mappings = PropertyMap::new();
    mappings.insert("field1".to_string(), "$.field1".to_string());
    let mapper2 = JsonSourceMapper::with_mappings(mappings);
    assert!(!mapper2.mappings.is_empty());
}

#[test]
fn test_ignore_parse_errors_enabled() {
    let mut mapper = JsonSourceMapper::new();
    mapper.set_ignore_parse_errors(true);
    let result = mapper.map(b"invalid json{{{");
    assert!(result.is_ok());
    assert_eq!(result.unwrap().len(), 0);
}

#[test]
fn test_ignore_parse_errors_disabled() {
    let mapper = JsonSourceMapper::new();
    let result = mapper.map(b"invalid json{{{");
    assert!(result.is_err());
    assert!(result.unwrap_err().to_string().contains("JSON parse error"));
}

#[test]
fn test_date_format_parsing() {
    let mut mapper = JsonSourceMapper::new();
    mapper.set_date_format(Some("%Y-%m-%d %H:%M:%S".to_string()));
    let json_str = r#"{"timestamp": "2025-10-19 12:34:56", "value": 100}"#;
    let events = mapper.map(json_str.as_bytes()).unwrap();
    assert_eq!(events.len(), 1);
    assert!(matches!(events[0].data[0], AttributeValue::Long(_)));
    assert!(matches!(events[0].data[1], AttributeValue::Int(100)));
}

#[test]
fn test_date_format_parsing_fallback() {
    let mut mapper = JsonSourceMapper::new();
    mapper.set_date_format(Some("%Y-%m-%d".to_string()));
    let json_str = r#"{"timestamp": "not a date", "value": 100}"#;
    let events = mapper.map(json_str.as_bytes()).unwrap();
    assert_eq!(events.len(), 1);
    assert!(matches!(
        events[0].data[0],
        AttributeValue::String(ref s) if s == "not a date"
    ));
}

#[test]
fn test_max_input_size_limit() {
    let mut mapper = JsonSourceMapper::new();
    mapper.set_max_input_size(100);
    let large_json = format!(r#"{{"data": "{}"}}"#, "x".repeat(200));
    let result = mapper.map(large_json.as_bytes());
    assert!(result.is_err());
    assert!(result.unwrap_err().to_string().contains("exceeds maximum allowed"));
}

#[test]
fn test_max_nesting_depth_limit() {
    let mut mapper = JsonSourceMapper::new();
    mapper.set_max_nesting_depth(3);
    let mut mappings = PropertyMap::new();
    mappings.insert("field".to_string(), "$.a.b.c.d.e".to_string());
    mapper = JsonSourceMapper::with_mappings(mappings);
    mapper.set_max_nesting_depth(3);
    let json_str = r#"{"a": {"b": {"c": {"d": {"e": "value"}}}}}"#;
    let result = mapper.map(json_str.as_bytes());
    assert!(result.is_err());
    assert!(result.unwrap_err().to_string().contains("nesting depth"));
}

#[test]
fn test_large_input_within_limit() {
    let mut mapper = JsonSourceMapper::new();
    mapper.set_max_input_size(1024 * 1024);
    let json = format!(r#"{{"data": "{}"}}"#, "x".repeat(1000));
    let result = mapper.map(json.as_bytes());
    assert!(result.is_ok());
}

#[test]
fn auto_mapping_orders_fields_by_name() {
    let mapper = JsonSourceMapper::new();
    let events = mapper
        .map_at(br#"{"zeta": true, "alpha": 3000000000, "mid": null, "list": [1, 2]}"#, 42)
        .unwrap();
    assert_eq!(events.len(), 1);
    assert_eq!(events[0].timestamp, 42);
    assert_eq!(
        events[0].data,
        vec![
            AttributeValue::Long(3000000000),
            AttributeValue::String("[1,2]".to_string()),
            AttributeValue::Null,
            AttributeValue::Bool(true),
        ]
    );
}

#[test]
fn auto_mapping_needs_an_object() {
    let mapper = JsonSourceMapper::new();
    let e = mapper.map_at(b"[1, 2]", 0).unwrap_err();
    assert_eq!(message_of(&e), "JSON root must be an object for auto-mapping");
}

#[test]
fn explicit_mapping_reads_array_elements_in_name_order() {
    let mut mappings = PropertyMap::new();
    mappings.insert("second".to_string(), "$.order.items[1].name".to_string());
    mappings.insert("first".to_string(), "$.order.items[0].price".to_string());
    let mapper = JsonSourceMapper::with_mappings(mappings);
    let json = br#"{"order": {"items": [{"name": "item1", "price": 10.5}, {"name": "item2", "price": 20}]}}"#;
    let events = mapper.map_at(json, 7).unwrap();
    assert_eq!(
        events[0].data,
        vec![AttributeValue::Double(10.5f64.to_bits()), AttributeValue::String("item2".to_string())]
    );
}

#[test]
fn explicit_mapping_errors_name_the_problem() {
    let doc = br#"{"order": {"items": [1]}}"#;
    let cases = [
        ("order.id", "Invalid JSONPath 'order.id'. Must start with '$.'"),
        ("$.order.missing", "Field 'missing' not found in JSON"),
        ("$.order.items[4]", "Array index 4 out of bounds"),
        ("$.order.items[x]", "Invalid array index in path: items[x]"),
        ("$.a.b.c.d.e.f", "JSONPath nesting depth 6 exceeds maximum allowed 5"),
    ];
    for (path, expected) in cases {
        let mut mappings = PropertyMap::new();
        mappings.insert("f".to_string(), path.to_string());
        let mut mapper = JsonSourceMapper::with_mappings(mappings);
        mapper.set_max_nesting_depth(5);
        let e = mapper.map_at(doc, 0).unwrap_err();
        assert_eq!(message_of(&e), expected);
    }
}

#[test]
fn input_size_message_is_exact() {
    let mut mapper = JsonSourceMapper::new();
    mapper.set_max_input_size(4);
    let e = mapper.map_at(b"{\"a\":1}", 0).unwrap_err();
    assert_eq!(message_of(&e), "Input size 7 bytes exceeds maximum allowed 4 bytes");
}

#[test]
fn date_format_gives_utc_milliseconds() {
    let mut mapper = JsonSourceMapper::new();
    mapper.set_date_format(Some("%Y-%m-%d %H:%M:%S".to_string()));
    let events = mapper.map_at(br#"{"t": "1970-01-01 00:00:01"}"#, 0).unwrap();
    assert_eq!(events[0].data, vec![AttributeValue::Long(1000)]);
}

#[test]
fn json_sink_mapper_settings() {
    let mut m = JsonSinkMapper::with_template("{{field_0}}".to_string());
    assert_eq!(m.template.as_deref(), Some("{{field_0}}"));
    assert!(!m.pretty_print);
    m.set_pretty_print(true);
    assert!(m.pretty_print);
    assert!(JsonSinkMapper::new().template.is_none());
}

#[test]
fn test_template_rendering() {
    let template = r#"{"eventType":"ORDER","id":"{{field_0}}","amount":{{field_1}}}"#;
    let texts = vec!["order-1".to_string(), 100.0f64.to_string()];
    let rendered = render_template(template, 123, &texts).unwrap();
    assert!(rendered.contains("\"id\":\"order-1\""));
    assert!(rendered.contains("\"amount\":100"));
}

#[test]
fn test_json_sink_template() {
    let template = r#"{"id":"{{field_0}}","value":{{field_1}}}"#.to_string();
    let mapper = JsonSinkMapper::with_template(template);
    let texts = vec!["test-id".to_string(), 99.5f64.to_string()];
    let result = render_template(mapper.template.as_ref().unwrap(), 123, &texts).unwrap();
    let json_str = String::from_utf8(result.into_bytes()).unwrap();
    assert!(json_str.contains("\"id\":\"test-id\""));
    assert!(json_str.contains("\"value\":99.5"));
}

#[test]
fn template_fills_timestamp_and_every_field() {
    let template = "{{_timestamp}}|{{field_0}}|{{field_1}}|{{field_0}}|{{field_2}}";
    let texts = vec!["a".to_string(), "-7".to_string()];
    let rendered = render_template(template, -42, &texts).unwrap();
    assert_eq!(rendered, "-42|a|-7|a|{{field_2}}");
}

#[test]
fn template_without_placeholders_is_unchanged() {
    let rendered = render_template("plain text", 5, &Vec::new()).unwrap();
    assert_eq!(rendered, "plain text");
}
