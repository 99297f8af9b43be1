//! Statistical analysis and multi-sensor fusion for anomaly detection over
//! windows of sensor samples, in fixed-point arithmetic.

pub mod anomaly;
pub mod classification;
pub mod complexity;
pub mod config;
pub mod correlation;
pub mod detection;
pub mod engine;
pub mod entropy;
pub mod fixed;
pub mod fusion;
pub mod patterns;
pub mod secure_memory;
pub mod sensors;
pub mod signal;
pub mod statistics;
