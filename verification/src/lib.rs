//! Verified core logic of the TraitClaw agent framework: message models,
//! token estimation, tool registries, context pruning, chunking, grounding,
//! retry backoff and the decision logic of the agent loop.

pub mod message;
mod text;
pub mod token_counting;
pub mod registry;
pub mod types;
pub mod chunker;
pub mod context;
pub mod time;
pub mod retry;
pub mod agent_loop;
pub mod streaming;
pub mod structured;
pub mod mcp;
pub mod rag;
pub mod transformers;
pub mod store;
pub mod memory;
pub mod steering;
pub mod eval;
pub mod models;
pub mod token_counter;
