use std::sync::Arc;

use temporal_agent_rs::prelude::{
    default_is_fallbackable, AgentInput, CacheConfig, CacheLayer, ChatCacheKeyMode, FallbackConfig,
    FallbackLayer, LLMProvider, MemoryProvider, PipelineBuilder, SlidingWindowMemory,
    StructuredOutputFormat, ToolCallError, ToolT,
};

#[allow(dead_code)]
fn takes_traits(_: &dyn LLMProvider, _: &dyn ToolT, _: &ToolCallError, _: &FallbackLayer) {}

#[test]
fn prelude_exports_memory() {
    let _: SlidingWindowMemory = SlidingWindowMemory::default();
    let _: Arc<dyn MemoryProvider> = Arc::new(SlidingWindowMemory::default());
}

#[test]
fn prelude_exports_pipeline() {
    let _: CacheConfig = CacheConfig::default();
    let _: CacheLayer = CacheLayer::with_defaults();
    let _: ChatCacheKeyMode = ChatCacheKeyMode::UserPromptOnly;
    let _: FallbackConfig = FallbackConfig {
        fallbackable: default_is_fallbackable,
    };
    let _ = PipelineBuilder::new;
}

#[test]
fn prelude_exports_output_format() {
    let format = StructuredOutputFormat {
        name: "n".into(),
        description: None,
        schema: None,
        strict: None,
    };
    let input = AgentInput {
        output_schema: Some(format),
        ..AgentInput::default()
    };
    assert!(input.output_schema.is_some());
}
