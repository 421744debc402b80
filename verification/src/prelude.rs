//! What most users touch when they wire an agent worker, and a handful of
//! AutoAgents items ([`ToolT`], [`LLMProvider`], [`ToolRuntime`],
//! [`ToolCallError`], [`StructuredOutputFormat`]) that show up in their code.
//! These re-exports are intentional public surface: a breaking change to them is
//! a breaking change to this crate.

pub use crate::activities::AgentActivities;
pub use crate::builder::AgentWorkerBuilder;
pub use crate::error::AgentError;
pub use crate::memory::{MemoryProvider, SlidingWindowMemory};
pub use crate::state::{
    AgentInput, AgentOutput, AgentState, LlmResponse, Message, Role, StopReason, ToolCall,
    ToolResult, ToolSchema,
};
pub use crate::tool::{ToolRegistry, ToolRegistryBuilder};
pub use crate::workflow::{Action, AgentWorkflow};

pub use autoagents_core::tool::{ToolCallError, ToolRuntime, ToolT};
pub use autoagents_llm::chat::StructuredOutputFormat;
pub use autoagents_llm::optim::{
    default_is_fallbackable, CacheConfig, CacheLayer, ChatCacheKeyMode, FallbackConfig,
    FallbackLayer,
};
pub use autoagents_llm::pipeline::PipelineBuilder;
pub use autoagents_llm::LLMProvider;
