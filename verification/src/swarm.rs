//! The containers that hold units of work, and the pool of them.

pub mod tornado;
