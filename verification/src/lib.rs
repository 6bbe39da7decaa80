//! Layered git configuration: per-scope stores, path resolution, and an
//! override-aware merged view across the System, Global and Local scopes.

pub mod scope;
pub mod entry;
pub mod merge;
pub mod store;
pub mod api;
