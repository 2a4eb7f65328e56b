pub mod eventflux_app_context;
pub mod eventflux_context;
pub mod stream_config;
