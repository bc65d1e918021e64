//! Plugin system for extensibility: version compatibility checking,
//! dependency resolution with cycle detection, and the registry state that
//! decides registration, initialization order and shutdown order.

pub mod api;
pub mod registry;

pub use api::PLUGIN_API_VERSION;
pub use registry::PluginRegistry;
