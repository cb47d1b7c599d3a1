//! The units of work and the compute nodes they carry.

pub mod subgraph;
