//! The core of the hexerator hex editor: the plugin interface, the example plugin, the
//! editor's view arithmetic, the selection pattern fill and the data-source attributes.
pub mod app;
pub mod hello;
pub mod pattern_fill;
pub mod plugin_api;
pub mod source;
pub mod text;
