pub mod factory;
pub mod csv_mapper;
pub mod json_mapper;
pub mod json_value;
