//! Errors of the SQL compiler.

use vstd::prelude::*;

verus! {

/// Schema lookups and registrations that fail.
#[derive(Debug, Clone, PartialEq, Eq)]
pub enum CatalogError {
    DuplicateStream(String),
    UnknownStream(String),
    UnknownRelation(String),
    /// Stream (or table) name and column name.
    UnknownColumn(String, String),
}

/// Type checking failures.
#[derive(Debug, Clone, PartialEq, Eq)]
pub enum TypeError {
    ConversionFailed(String),
}

/// Failures of the streaming-extension preprocessor.
#[derive(Debug, Clone, PartialEq, Eq)]
pub enum PreprocessorError {
    WindowParseFailed(String),
    InvalidWindowParams(String),
    InvalidWindowType(String),
}

} // verus!
