pub mod mapper;
pub mod sink;
