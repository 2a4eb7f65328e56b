pub mod catalog;
pub mod error;
pub mod preprocessor;
pub mod type_inference;
pub use catalog::SqlCatalog;
