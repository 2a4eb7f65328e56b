use eventflux_rust::engine::source_support::ErrorConfigBuilder;
use eventflux_rust::property_map::PropertyMap;

#[test]
fn error_config_builder_without_error_properties_is_not_configured() {
    let properties = PropertyMap::new();
    let builder = ErrorConfigBuilder::from_properties(&properties);
    assert!(!builder.is_configured());
}

#[test]
fn error_config_builder_keeps_error_properties_only() {
    let mut properties = PropertyMap::new();
    properties.insert("error.log-level".to_string(), "warn".to_string());
    properties.insert("kafka.topic".to_string(), "t".to_string());
    assert!(!ErrorConfigBuilder::from_properties(&properties).is_configured());
    properties.insert("error.strategy".to_string(), "drop".to_string());
    assert!(ErrorConfigBuilder::from_properties(&properties).is_configured());
}
