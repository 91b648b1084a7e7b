//! Verified core of the "four corners" disk benchmark: device-list parsing,
//! latency sampling and the arithmetic that plans each benchmark run.

pub mod device_laws;
pub mod devices;
pub mod engine;
pub mod fill;
pub mod metrics;
pub mod plan;
pub mod text;
