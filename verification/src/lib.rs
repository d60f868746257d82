//! Nyarix: the runtime model of a modular network stack.
//!
//! The library holds the parts of the runtime that decide things: module
//! capabilities and API compatibility, the packet model, the flow graph's
//! topology and validation, package layout and signing, and the loader's
//! dependency ordering, version resolution and conflict reporting.

pub mod text;
pub mod base;
pub mod module_api;
pub mod versions;
pub mod packet;
pub mod errors;
pub mod package;
pub mod loader;
pub mod graph;
pub mod config;
