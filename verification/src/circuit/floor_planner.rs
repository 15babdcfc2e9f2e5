//! Floor planners: strategies that decide where the regions of a circuit
//! go.

pub mod v1;

pub use v1::V1;
