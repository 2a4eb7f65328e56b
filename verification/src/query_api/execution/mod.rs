pub mod execution_element;
pub mod input_stream;
pub mod on_demand_query;
pub mod query;
