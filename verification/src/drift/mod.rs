//! Drift detection and the report it produces.

pub mod types;
pub mod detector;
pub mod properties;
