//! Turning a task into units of work, and driving the units through the pool.

pub mod distribution;
pub mod enhanced_processor;
pub mod model_decomposer;
pub mod prompt_processor;
