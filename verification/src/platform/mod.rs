//! The machine: device families, device metrics and host metrics.

pub mod devices;
pub mod family;
pub mod host;
