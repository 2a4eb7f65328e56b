pub mod snapshot;
pub mod eventflux_app_parser;
