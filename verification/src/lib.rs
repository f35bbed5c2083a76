//! Pointer chasing over single-cycle permutations: the access pattern, its
//! memory layouts and the traversal loop of a memory-latency benchmark.

pub mod address;
pub mod aligned;
pub mod batch;
pub mod config;
pub mod cycle;
pub mod generator;
pub mod latency;
pub mod layout;
pub mod measure;
pub mod plan;
pub mod sweep;
