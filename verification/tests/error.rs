use eventflux_rust::engine::error::EventFluxError;

#[test]
fn test_configuration_error() {
    let error = EventFluxError::configuration("test error");
    assert!(matches!(error, EventFluxError::Configuration { .. }));
}

#[test]
fn test_extension_not_found_error() {
    let error = EventFluxError::extension_not_found("source", "kafka");
    assert!(matches!(error, EventFluxError::ExtensionNotFound { .. }));
}

#[test]
fn test_missing_parameter_error() {
    let error = EventFluxError::missing_parameter("kafka.brokers");
    assert!(matches!(error, EventFluxError::MissingParameter { .. }));
}

#[test]
fn test_unsupported_format_error() {
    let error = EventFluxError::unsupported_format("xml", "kafka");
    assert!(matches!(error, EventFluxError::UnsupportedFormat { .. }));
}

#[test]
fn error_display_texts() {
    assert_eq!(EventFluxError::configuration("bad").to_string(), "Configuration error: bad");
    assert_eq!(
        EventFluxError::extension_not_found("source", "kafka").to_string(),
        "Extension 'source:kafka' not found"
    );
    assert_eq!(
        EventFluxError::unsupported_format("xml", "kafka").to_string(),
        "Format 'xml' not supported by extension 'kafka'"
    );
    assert_eq!(
        EventFluxError::missing_parameter("kafka.brokers").to_string(),
        "Missing required parameter: kafka.brokers"
    );
    assert_eq!(
        EventFluxError::invalid_parameter_with_details("must be positive", "timeout", "integer").to_string(),
        "Invalid parameter 'Some(\"timeout\")': must be positive"
    );
    assert_eq!(
        EventFluxError::invalid_parameter("oops").to_string(),
        "Invalid parameter 'None': oops"
    );
    assert_eq!(EventFluxError::other("plain").to_string(), "plain");
}
