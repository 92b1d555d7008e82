//! Monitoring: what the operating system reports of processes, and the loop that turns it into
//! measurements.

pub mod metrics;
pub mod network;
pub mod sampling;
pub mod ticks;
