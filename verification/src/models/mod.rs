//! The models that a simulation is made of.
pub mod fee;
pub mod latency;
pub mod queue;
