//! Wingbeat: a swarm engine that splits a task into units of work, spreads
//! them over a pool of containers and lets the units in each container meet.
//!
//! A task is a model of layers or a prompt of words. It is cut into units of
//! work ([`Subgraph`]), which are handed in turn to the containers
//! ([`Tornado`]) of a pool ([`TornadoSwarm`]). Each step of the simulation
//! moves the containers and reports which of their units connect; in the end
//! the results are put together in the order of the task.
//!
//! The library computes with whole numbers throughout. An affinity counts
//! millionths of the unit interval; lengths, velocities and time steps count
//! thousandths. Nothing in it locks or waits: a caller that shares a pool
//! between tasks puts it behind a lock of its own.

pub mod computation;
pub mod inference;
pub mod orchestrator;
pub mod swarm;
pub mod text;
pub mod trusted;
pub mod units;

pub use computation::enhanced_processor::EnhancedProcessor;
pub use computation::model_decomposer::{DecompositionStrategy, LayerType, ModelDecomposer};
pub use computation::prompt_processor::PromptProcessor;
pub use inference::layer_ops::LayerFactory;
pub use inference::tokenizer::{
    BPETokenizer, SimpleTokenizer, Token, Tokenizer, TokenizerFactory,
};
pub use swarm::tornado::{Tornado, TornadoSwarm, Vec3};
pub use units::subgraph::Subgraph;
