use temporal_agent_rs::activities::{tool_outcome, AgentActivities};
use temporal_agent_rs::builder::{AgentWorkerBuilder, WorkerMemory};
use temporal_agent_rs::error::AgentError;
use temporal_agent_rs::memory::{MemoryProvider, SlidingWindowMemory};
use temporal_agent_rs::state::{AgentInput, AgentState, LlmChatInput, Message, ToolCall, ToolSchema};
use temporal_agent_rs::tool::ToolRegistry;

fn value(text: &str) -> serde_json::Value {
    serde_json::from_str(text).unwrap()
}

fn schema(name: &str, description: &str) -> ToolSchema {
    ToolSchema {
        name: name.into(),
        description: description.into(),
        args_schema: value("{\"type\":\"object\"}"),
    }
}

fn call(name: &str) -> ToolCall {
    ToolCall {
        id: "c9".into(),
        name: name.into(),
        args: value("{}"),
    }
}

#[test]
fn registry_finds_tools_by_name() {
    let registry = ToolRegistry::builder()
        .add(schema("add", "adds"), 1)
        .add(schema("mul", "multiplies"), 2)
        .build();
    assert_eq!(registry.get("add"), Some(&1));
    assert_eq!(registry.get("mul"), Some(&2));
    assert_eq!(registry.get("Add"), None);
    assert_eq!(registry.get(""), None);
    assert_eq!(registry.names(), vec!["add", "mul"]);
}

#[test]
fn later_registration_overwrites() {
    let registry = ToolRegistry::builder()
        .add(schema("add", "old"), 1)
        .add(schema("mul", "multiplies"), 2)
        .add(schema("add", "new"), 3)
        .build();
    assert_eq!(registry.get("add"), Some(&3));
    assert_eq!(registry.get("mul"), Some(&2));
    let schemas = registry.to_schemas();
    assert_eq!(
        schemas,
        vec![schema("add", "new"), schema("mul", "multiplies")]
    );
}

#[test]
fn equal_registrations_give_equal_catalogs() {
    let first = ToolRegistry::builder()
        .add(schema("z", "last letter"), 1)
        .add(schema("a", "first letter"), 2)
        .add(schema("z", "again"), 3)
        .build();
    let second = ToolRegistry::builder()
        .add(schema("z", "last letter"), 10)
        .add(schema("a", "first letter"), 20)
        .add(schema("z", "again"), 30)
        .build();
    assert_eq!(first.to_schemas(), second.to_schemas());
    assert_eq!(first.names(), vec!["z", "a"]);
}

#[test]
fn copied_registry_has_the_same_tools() {
    let registry = ToolRegistry::builder()
        .add(schema("add", "adds"), "one".to_string())
        .build();
    let copy = registry.clone();
    assert_eq!(copy.get("add"), Some(&"one".to_string()));
    assert_eq!(copy.to_schemas(), registry.to_schemas());
    let activities = AgentActivities::new(5, registry);
    let shared = activities.clone();
    assert_eq!(shared.llm, 5);
    assert_eq!(shared.tools.names(), vec!["add"]);
}

#[test]
fn empty_registry_has_no_tools() {
    let registry: ToolRegistry<u8> = ToolRegistry::default();
    assert!(registry.names().is_empty());
    assert!(registry.to_schemas().is_empty());
    assert_eq!(registry.get("add"), None);
}

#[test]
fn unregistered_tool_is_an_error() {
    let activities = AgentActivities::new(
        "provider",
        ToolRegistry::builder().add(schema("add", "adds"), 7).build(),
    );
    assert_eq!(activities.llm, "provider");
    assert_eq!(*activities.resolve_tool(&call("add")).unwrap(), 7);
    match activities.resolve_tool(&call("sub")) {
        Err(AgentError::ToolNotFound(name)) => assert_eq!(name, "sub"),
        other => panic!("expected ToolNotFound, got {other:?}"),
    }
}

#[test]
fn tool_failure_is_a_result() {
    let failed = tool_outcome(&call("add"), Err("boom".into()));
    assert_eq!(failed.call_id, "c9");
    assert_eq!(failed.output, serde_json::Value::Null);
    assert_eq!(failed.error, Some("boom".to_string()));
    assert_eq!(Message::tool_result(&failed).content, "ERROR: boom");
    let done = tool_outcome(&call("add"), Ok(value("{\"sum\":3}")));
    assert_eq!(done.call_id, "c9");
    assert_eq!(done.output, value("{\"sum\":3}"));
    assert_eq!(done.error, None);
}

#[test]
fn activity_asks_with_the_whole_input() {
    let activities: AgentActivities<(), ()> = AgentActivities::new((), ToolRegistry::default());
    let request = activities.llm_chat(LlmChatInput {
        messages: vec![Message::system("s"), Message::user("u")],
        tools: vec![schema("add", "adds")],
        output_schema: None,
    });
    assert_eq!(request.messages.len(), 2);
    assert_eq!(request.messages[1].content, "u");
    assert_eq!(request.tools[0].function.description, "adds");
    assert!(request.output_schema.is_none());
}

#[test]
fn builder_defaults() {
    let builder: AgentWorkerBuilder<&str, u8, u8, SlidingWindowMemory> =
        AgentWorkerBuilder::new("client");
    assert!(!builder.has_llm());
    let builder = builder.llm(1);
    assert!(builder.has_llm());
    let plan = builder.plan();
    assert_eq!(plan.client, "client");
    assert_eq!(plan.queue, "agents");
    assert_eq!(plan.activities.llm, 1);
    assert!(plan.catalog.is_empty());
    match plan.memory {
        WorkerMemory::Default(window) => {
            assert_eq!(window.compact_threshold(), 200);
            assert_eq!(window.keep_recent(), 20);
        }
        WorkerMemory::Custom(_) => panic!("expected the default memory"),
    }
}

#[test]
fn builder_keeps_its_settings() {
    let window = SlidingWindowMemory::new()
        .with_keep_recent(1)
        .with_compact_threshold(2);
    let plan = AgentWorkerBuilder::new(())
        .llm("first")
        .llm("second")
        .tool(schema("add", "adds"), 1)
        .tool(schema("mul", "multiplies"), 2)
        .queue("math")
        .memory(window)
        .plan();
    assert_eq!(plan.queue, "math");
    assert_eq!(plan.activities.llm, "second");
    assert_eq!(plan.activities.tools.get("mul"), Some(&2));
    assert_eq!(
        plan.catalog,
        vec![schema("add", "adds"), schema("mul", "multiplies")]
    );
    let mut state = AgentState::new(AgentInput::default());
    assert!(!plan.memory.should_compact(&state));
    state.history.push(Message::user("again"));
    assert!(plan.memory.should_compact(&state));
    assert_eq!(plan.memory.compact(&state).user_message, "again");
}
