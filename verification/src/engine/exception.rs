//! Error type of extension factories, stream initialization and mappers.

use vstd::prelude::*;
use crate::text::{owned, concat};

verus! {

/// What can go wrong while building or running an application.
#[allow(inconsistent_fields)]
#[derive(Debug)]
pub enum EventFluxError {
    Configuration { message: String, config_key: Option<String> },
    InvalidParameter { message: String, parameter: Option<String>, expected: Option<String> },
    ExtensionNotFound { extension_type: String, name: String },
    MappingFailed { message: String },
    AppCreation { message: String },
    AppRuntime { message: String },
    ConnectionUnavailable { message: String },
    Other(String),
}

impl EventFluxError {
    /// The text the error displays.
    pub open spec fn text(&self) -> Seq<char> {
        match self {
            EventFluxError::Configuration { message, .. } => "Configuration error: "@ + message@,
            EventFluxError::InvalidParameter { message, .. } => "Invalid parameter: "@ + message@,
            EventFluxError::ExtensionNotFound { extension_type, name } =>
                "Extension not found: "@ + extension_type@ + " '"@ + name@ + "'"@,
            EventFluxError::MappingFailed { message } => "Mapping failed: "@ + message@,
            EventFluxError::AppCreation { message } => "App creation error: "@ + message@,
            EventFluxError::AppRuntime { message } => "App runtime error: "@ + message@,
            EventFluxError::ConnectionUnavailable { message } => "Connection unavailable: "@ + message@,
            EventFluxError::Other(s) => s@,
        }
    }

    /// The text the error displays.
    pub fn to_string(&self) -> (r: String)
        ensures
            r@ == self.text(),
    {
        match self {
            EventFluxError::Configuration { message, .. } => concat("Configuration error: ", message.as_str()),
            EventFluxError::InvalidParameter { message, .. } => concat("Invalid parameter: ", message.as_str()),
            EventFluxError::ExtensionNotFound { extension_type, name } => {
                let a = concat("Extension not found: ", extension_type.as_str());
                let b = concat(a.as_str(), " '");
                let c = concat(b.as_str(), name.as_str());
                concat(c.as_str(), "'")
            },
            EventFluxError::MappingFailed { message } => concat("Mapping failed: ", message.as_str()),
            EventFluxError::AppCreation { message } => concat("App creation error: ", message.as_str()),
            EventFluxError::AppRuntime { message } => concat("App runtime error: ", message.as_str()),
            EventFluxError::ConnectionUnavailable { message } => concat("Connection unavailable: ", message.as_str()),
            EventFluxError::Other(s) => owned(s.as_str()),
        }
    }

    /// A configuration error.
    pub fn configuration(message: &str) -> (r: Self)
        ensures
            r matches EventFluxError::Configuration { message: m, config_key: k } && m@ == message@ && k is None,
    {
        EventFluxError::Configuration { message: owned(message), config_key: None }
    }

    /// A configuration error about one key.
    pub fn configuration_with_key(message: &str, config_key: &str) -> (r: Self)
        ensures
            r matches EventFluxError::Configuration { message: m, config_key: Some(k) } && m@ == message@ && k@ == config_key@,
    {
        EventFluxError::Configuration { message: owned(message), config_key: Some(owned(config_key)) }
    }

    /// An invalid-parameter error naming the parameter and what was expected.
    pub fn invalid_parameter_with_details(message: &str, parameter: &str, expected: &str) -> (r: Self)
        ensures
            r matches EventFluxError::InvalidParameter { message: m, parameter: Some(p), expected: Some(e) }
                && m@ == message@ && p@ == parameter@ && e@ == expected@,
    {
        EventFluxError::InvalidParameter {
            message: owned(message),
            parameter: Some(owned(parameter)),
            expected: Some(owned(expected)),
        }
    }

    /// A required parameter is missing: an invalid-parameter error that names it.
    pub fn missing_parameter(parameter: &str) -> (r: Self)
        ensures
            r matches EventFluxError::InvalidParameter { message: m, parameter: Some(p), expected: e }
                && m@ == "Missing required parameter: "@ + parameter@ && p@ == parameter@ && e is None,
    {
        EventFluxError::InvalidParameter {
            message: concat("Missing required parameter: ", parameter),
            parameter: Some(owned(parameter)),
            expected: None,
        }
    }

    /// An extension does not support a format: a configuration error naming both.
    pub fn unsupported_format(format: &str, extension: &str) -> (r: Self)
        ensures
            r matches EventFluxError::Configuration { message: m, config_key: k }
                && m@ == "Format '"@ + format@ + "' is not supported by extension '"@ + extension@ + "'"@
                && k is None,
    {
        let a = concat("Format '", format);
        let b = concat(a.as_str(), "' is not supported by extension '");
        let c = concat(b.as_str(), extension);
        EventFluxError::Configuration { message: concat(c.as_str(), "'"), config_key: None }
    }

    /// An extension of the given kind and name is not registered.
    pub fn extension_not_found(extension_type: &str, name: &str) -> (r: Self)
        ensures
            r matches EventFluxError::ExtensionNotFound { extension_type: t, name: n } && t@ == extension_type@ && n@ == name@,
    {
        EventFluxError::ExtensionNotFound { extension_type: owned(extension_type), name: owned(name) }
    }

    /// Building the application failed.
    pub fn app_creation(message: &str) -> (r: Self)
        ensures
            r matches EventFluxError::AppCreation { message: m } && m@ == message@,
    {
        EventFluxError::AppCreation { message: owned(message) }
    }

    /// Running the application failed.
    pub fn app_runtime(message: &str) -> (r: Self)
        ensures
            r matches EventFluxError::AppRuntime { message: m } && m@ == message@,
    {
        EventFluxError::AppRuntime { message: owned(message) }
    }

    /// Mapping between events and bytes failed.
    pub fn mapping_failed(message: &str) -> (r: Self)
        ensures
            r matches EventFluxError::MappingFailed { message: m } && m@ == message@,
    {
        EventFluxError::MappingFailed { message: owned(message) }
    }
}

} // verus!
