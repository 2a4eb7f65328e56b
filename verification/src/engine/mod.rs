pub mod app_settings;
pub mod config;
pub mod error;
pub mod event;
pub mod exception;
pub mod executor;
pub mod extension;
pub mod partition;
pub mod query;
pub mod source_support;
pub mod stream;
pub mod table;
pub mod util;
