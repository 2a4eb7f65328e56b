pub mod definition;
pub mod eventflux_app;
pub mod eventflux_element;
pub mod execution;
pub mod expression;
