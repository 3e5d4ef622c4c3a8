//! Reachability monitoring core: per-target latency samples, their rolling
//! statistics over trailing windows, a fixed-resolution recent history, the
//! retention of a sample stream and the decisions of the probe loop.
mod clock;
pub mod metrics;
pub mod aggregate;
pub mod decode;
pub mod registry;
pub mod probe;
pub mod stream;
