//! Verified module-graph and plugin-driver logic of a JavaScript bundler.
pub mod text;
pub mod module;
pub mod exported_names;
pub mod hmr;
pub mod sourcemap;
pub mod plugin_driver;
pub mod manifest;
