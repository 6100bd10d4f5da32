//! A URL shortener: configuration, short-code generation, the shortening
//! and resolution protocol against a key-value store, and click statistics.

pub mod bindings;
pub mod text;
pub mod env_loader;
pub mod shortener;
pub mod stats;
pub mod geo_locate_ip;
