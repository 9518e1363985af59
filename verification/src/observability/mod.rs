//! Logging, metrics and tracing support.
pub mod logging;
pub mod metrics;
pub mod tracing_setup;
