//! Orchestration core of a one-shot state sync: the decisions of the engine
//! that fetches the state of one target block from a peer and hands the block
//! to the import pipeline, as pure steps from state and event to effects.

pub mod types;
pub mod policy;
pub mod pending_responses;
pub mod schema;
pub mod wire;
pub mod codec;
pub mod peer;
pub mod engine;
