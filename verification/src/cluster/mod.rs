//! Cluster routing, topology and health types.
pub mod admin;
pub mod bus;
pub mod commands;
pub mod config;
pub mod meta;
pub mod metaraft;
pub mod slot;
pub mod types;
