pub mod engine;
pub mod number;
pub mod ordering;
pub mod property_map;
pub mod query_api;
pub mod sql_compiler;
pub mod text;
