//! # temporal-agent-rs
//!
//! Durable AI agent execution on top of [Temporal](https://temporal.io) using
//! [AutoAgents](https://github.com/liquidos-ai/AutoAgents) for the provider and
//! tool abstractions.
//!
//! ## Pattern
//!
//! The library runs a ReAct loop: ask the model, run the tools it calls for,
//! show it the results, ask again. [`AgentWorkflow`] holds that loop as a state
//! machine without I/O. Every model call and every tool call is an [`Action`]
//! that a worker performs and records, so a run that was interrupted resumes
//! from its recorded events without paying for earlier turns.
//!
//! ## Modules
//!
//! - [`state`]: the conversation and what crosses between loop and activities.
//! - [`llm`]: requests to a provider, and the parser of its replies.
//! - [`memory`]: when a history is compacted, and to what.
//! - [`workflow`]: the loop; [`replay`] states what holds of whole runs.
//! - [`tool`], [`activities`], [`builder`]: the worker's side.
//! - [`error`], [`json`], [`fields`], [`text`]: what the others rest on.

pub mod activities;
pub mod builder;
pub mod error;
pub mod fields;
pub mod json;
pub mod llm;
pub mod memory;
pub mod prelude;
pub mod replay;
pub mod state;
pub mod text;
pub mod tool;
pub mod workflow;

pub use crate::activities::AgentActivities;
pub use crate::builder::AgentWorkerBuilder;
pub use crate::error::AgentError;
pub use crate::memory::{MemoryProvider, SlidingWindowMemory};
pub use crate::state::{
    AgentInput, AgentOutput, AgentState, LlmChatInput, LlmResponse, Message, Role, StopReason,
    ToolCall, ToolResult, ToolSchema,
};
pub use crate::tool::{ToolRegistry, ToolRegistryBuilder};
pub use crate::workflow::{Action, AgentWorkflow};

// Pipeline composition, and the cache and fallback layers. The retry layer is
// left out: retrying belongs to the activity's retry policy.
pub use autoagents_llm::optim::{
    default_is_fallbackable, CacheConfig, CacheLayer, ChatCacheKeyMode, FallbackConfig,
    FallbackLayer,
};
pub use autoagents_llm::pipeline::PipelineBuilder;
