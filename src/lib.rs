//! Plugin manager for a Core Lightning node: repository registry, plugin
//! install strategies, persisted snapshot and host configuration editing.
pub mod host_conf;
pub mod error;
pub mod plugin;
pub mod repository;
pub mod manager;
pub mod laws;
