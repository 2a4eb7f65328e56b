pub mod annotation;
pub mod attribute;
pub mod function_definition;
pub mod stream_definition;
