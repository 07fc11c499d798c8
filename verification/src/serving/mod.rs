//! Serving: batching, dispatch, model lifecycle, caching and telemetry.

pub mod batch;
pub mod batch_laws;
pub mod dispatch;
pub mod stats;
pub mod cache;
pub mod download_gate;
pub mod registry;
pub mod lease;
pub mod loader;
