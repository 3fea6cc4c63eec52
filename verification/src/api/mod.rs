//! What the exporter publishes.
pub mod handlers;
pub mod metrics;
