//! Error type of the runtime, with one constructor per kind of failure and the
//! text that each error displays.

use vstd::prelude::*;
use crate::text::{owned, concat, debug_string, debug_str};

verus! {

/// What can go wrong in the runtime.
#[allow(inconsistent_fields)]
#[derive(Debug)]
pub enum EventFluxError {
    Configuration { message: String, config_key: Option<String> },
    InvalidParameter { message: String, parameter: Option<String>, expected: Option<String> },
    ExtensionNotFound { extension_type: String, name: String },
    /// `source` holds the text of the underlying error, when there is one.
    ConnectionUnavailable { message: String, source: Option<String> },
    InitializationFailed { message: String, component: Option<String> },
    ValidationFailed { message: String, field: Option<String> },
    UnsupportedFormat { format: String, extension: String },
    MissingParameter { parameter: String },
    /// `source` holds the text of the underlying error, when there is one.
    Runtime { message: String, source: Option<String> },
    /// The text of an I/O error.
    IoError(String),
    Other(String),
}

/// `{:?}` of an optional string.
pub open spec fn debug_opt(o: Option<String>) -> Seq<char> {
    match o {
        Some(s) => "Some("@ + debug_str(s@) + ")"@,
        None => "None"@,
    }
}

fn debug_opt_string(o: &Option<String>) -> (r: String)
    ensures
        r@ == debug_opt(*o),
{
    match o {
        Some(s) => {
            let inner = debug_string(s.as_str());
            let head = concat("Some(", inner.as_str());
            concat(head.as_str(), ")")
        },
        None => owned("None"),
    }
}

impl EventFluxError {
    /// The text the error displays.
    pub open spec fn text(&self) -> Seq<char> {
        match self {
            EventFluxError::Configuration { message, .. } => "Configuration error: "@ + message@,
            EventFluxError::InvalidParameter { message, parameter, .. } =>
                "Invalid parameter '"@ + debug_opt(*parameter) + "': "@ + message@,
            EventFluxError::ExtensionNotFound { extension_type, name } =>
                "Extension '"@ + extension_type@ + ":"@ + name@ + "' not found"@,
            EventFluxError::ConnectionUnavailable { message, .. } => "Connection unavailable: "@ + message@,
            EventFluxError::InitializationFailed { message, .. } => "Initialization failed: "@ + message@,
            EventFluxError::ValidationFailed { message, .. } => "Validation failed: "@ + message@,
            EventFluxError::UnsupportedFormat { format, extension } =>
                "Format '"@ + format@ + "' not supported by extension '"@ + extension@ + "'"@,
            EventFluxError::MissingParameter { parameter } => "Missing required parameter: "@ + parameter@,
            EventFluxError::Runtime { message, .. } => "Runtime error: "@ + message@,
            EventFluxError::IoError(s) => "IO error: "@ + s@,
            EventFluxError::Other(s) => s@,
        }
    }

    /// The text the error displays.
    pub fn to_string(&self) -> (r: String)
        ensures
            r@ == self.text(),
    {
        match self {
            EventFluxError::Configuration { message, .. } => concat("Configuration error: ", message.as_str()),
            EventFluxError::InvalidParameter { message, parameter, .. } => {
                let p = debug_opt_string(parameter);
                let a = concat("Invalid parameter '", p.as_str());
                let b = concat(a.as_str(), "': ");
                concat(b.as_str(), message.as_str())
            },
            EventFluxError::ExtensionNotFound { extension_type, name } => {
                let a = concat("Extension '", extension_type.as_str());
                let b = concat(a.as_str(), ":");
                let c = concat(b.as_str(), name.as_str());
                concat(c.as_str(), "' not found")
            },
            EventFluxError::ConnectionUnavailable { message, .. } => concat("Connection unavailable: ", message.as_str()),
            EventFluxError::InitializationFailed { message, .. } => concat("Initialization failed: ", message.as_str()),
            EventFluxError::ValidationFailed { message, .. } => concat("Validation failed: ", message.as_str()),
            EventFluxError::UnsupportedFormat { format, extension } => {
                let a = concat("Format '", format.as_str());
                let b = concat(a.as_str(), "' not supported by extension '");
                let c = concat(b.as_str(), extension.as_str());
                concat(c.as_str(), "'")
            },
            EventFluxError::MissingParameter { parameter } => concat("Missing required parameter: ", parameter.as_str()),
            EventFluxError::Runtime { message, .. } => concat("Runtime error: ", message.as_str()),
            EventFluxError::IoError(s) => concat("IO error: ", s.as_str()),
            EventFluxError::Other(s) => owned(s.as_str()),
        }
    }

    /// A configuration error.
    pub fn configuration(message: &str) -> (r: Self)
        ensures
            r matches EventFluxError::Configuration { message: m, config_key: k } && m@ == message@ && k is None,
    {
        EventFluxError::Configuration { message: owned(message), config_key: None }
    }

    /// A configuration error about one key.
    pub fn configuration_with_key(message: &str, config_key: &str) -> (r: Self)
        ensures
            r matches EventFluxError::Configuration { message: m, config_key: Some(k) } && m@ == message@ && k@ == config_key@,
    {
        EventFluxError::Configuration { message: owned(message), config_key: Some(owned(config_key)) }
    }

    /// An invalid-parameter error.
    pub fn invalid_parameter(message: &str) -> (r: Self)
        ensures
            r matches EventFluxError::InvalidParameter { message: m, parameter: p, expected: e }
                && m@ == message@ && p is None && e is None,
    {
        EventFluxError::InvalidParameter { message: owned(message), parameter: None, expected: None }
    }

    /// An invalid-parameter error naming the parameter and what was expected.
    pub fn invalid_parameter_with_details(message: &str, parameter: &str, expected: &str) -> (r: Self)
        ensures
            r matches EventFluxError::InvalidParameter { message: m, parameter: Some(p), expected: Some(e) }
                && m@ == message@ && p@ == parameter@ && e@ == expected@,
    {
        EventFluxError::InvalidParameter {
            message: owned(message),
            parameter: Some(owned(parameter)),
            expected: Some(owned(expected)),
        }
    }

    /// An extension of the given kind and name is not registered.
    pub fn extension_not_found(extension_type: &str, name: &str) -> (r: Self)
        ensures
            r matches EventFluxError::ExtensionNotFound { extension_type: t, name: n } && t@ == extension_type@ && n@ == name@,
    {
        EventFluxError::ExtensionNotFound { extension_type: owned(extension_type), name: owned(name) }
    }

    /// A connection cannot be made.
    pub fn connection_unavailable(message: &str) -> (r: Self)
        ensures
            r matches EventFluxError::ConnectionUnavailable { message: m, source: s } && m@ == message@ && s is None,
    {
        EventFluxError::ConnectionUnavailable { message: owned(message), source: None }
    }

    /// A connection cannot be made, because of the error whose text is `source`.
    pub fn connection_unavailable_with_source(message: &str, source: String) -> (r: Self)
        ensures
            r matches EventFluxError::ConnectionUnavailable { message: m, source: Some(s) } && m@ == message@ && s@ == source@,
    {
        EventFluxError::ConnectionUnavailable { message: owned(message), source: Some(source) }
    }

    /// Initialization failed.
    pub fn initialization_failed(message: &str) -> (r: Self)
        ensures
            r matches EventFluxError::InitializationFailed { message: m, component: c } && m@ == message@ && c is None,
    {
        EventFluxError::InitializationFailed { message: owned(message), component: None }
    }

    /// Initialization of a named component failed.
    pub fn initialization_failed_with_component(message: &str, component: &str) -> (r: Self)
        ensures
            r matches EventFluxError::InitializationFailed { message: m, component: Some(c) } && m@ == message@ && c@ == component@,
    {
        EventFluxError::InitializationFailed { message: owned(message), component: Some(owned(component)) }
    }

    /// Validation failed.
    pub fn validation_failed(message: &str) -> (r: Self)
        ensures
            r matches EventFluxError::ValidationFailed { message: m, field: f } && m@ == message@ && f is None,
    {
        EventFluxError::ValidationFailed { message: owned(message), field: None }
    }

    /// An extension does not support a format.
    pub fn unsupported_format(format: &str, extension: &str) -> (r: Self)
        ensures
            r matches EventFluxError::UnsupportedFormat { format: f, extension: e } && f@ == format@ && e@ == extension@,
    {
        EventFluxError::UnsupportedFormat { format: owned(format), extension: owned(extension) }
    }

    /// A required parameter is missing.
    pub fn missing_parameter(parameter: &str) -> (r: Self)
        ensures
            r matches EventFluxError::MissingParameter { parameter: p } && p@ == parameter@,
    {
        EventFluxError::MissingParameter { parameter: owned(parameter) }
    }

    /// A runtime error.
    pub fn runtime(message: &str) -> (r: Self)
        ensures
            r matches EventFluxError::Runtime { message: m, source: s } && m@ == message@ && s is None,
    {
        EventFluxError::Runtime { message: owned(message), source: None }
    }

    /// An error that displays exactly `message`.
    pub fn other(message: &str) -> (r: Self)
        ensures
            r matches EventFluxError::Other(m) && m@ == message@,
    {
        EventFluxError::Other(owned(message))
    }
}

} // verus!
