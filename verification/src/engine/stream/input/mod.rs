pub mod input_handler;
pub mod mapper;
pub mod source;
