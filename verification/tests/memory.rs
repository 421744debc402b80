use std::sync::atomic::{AtomicBool, Ordering};
use std::sync::Arc;

use autoagents_llm::chat::StructuredOutputFormat;
use temporal_agent_rs::memory::{
    compact_sliding_window, truncate, MemoryProvider, SlidingWindowMemory,
    DEFAULT_COMPACT_THRESHOLD, DEFAULT_KEEP_RECENT,
};
use temporal_agent_rs::state::{AgentInput, AgentState, Message, ToolCall, ToolResult};

fn value(text: &str) -> serde_json::Value {
    serde_json::from_str(text).unwrap()
}

fn sample_schema() -> StructuredOutputFormat {
    StructuredOutputFormat {
        name: "weather_report".into(),
        description: Some("Structured weather observation".into()),
        schema: Some(value(
            r#"{
                "type": "object",
                "properties": {
                    "city": { "type": "string" },
                    "temperature_c": { "type": "number" }
                },
                "required": ["city", "temperature_c"]
            }"#,
        )),
        strict: Some(true),
    }
}

fn populated_state(turns: u32, schema: Option<StructuredOutputFormat>) -> AgentState {
    let mut state = AgentState::new(AgentInput {
        system_prompt: "sys".into(),
        user_message: "u0".into(),
        max_turns: 50,
        output_schema: schema,
        ..AgentInput::default()
    });
    for i in 1..turns {
        state.history.push(Message::user(format!("u{i}")));
        state.history.push(Message::assistant_text(format!("a{i}")));
    }
    state
}

#[test]
fn sliding_window_default_uses_published_constants() {
    let m = SlidingWindowMemory::default();
    assert_eq!(m.compact_threshold(), DEFAULT_COMPACT_THRESHOLD);
    assert_eq!(m.keep_recent(), DEFAULT_KEEP_RECENT);
}

#[test]
fn published_constants_are_200_and_20() {
    assert_eq!(DEFAULT_COMPACT_THRESHOLD, 200);
    assert_eq!(DEFAULT_KEEP_RECENT, 20);
    assert_eq!(SlidingWindowMemory::new().compact_threshold(), 200);
    assert_eq!(SlidingWindowMemory::new().keep_recent(), 20);
}

#[test]
fn sliding_window_should_compact_at_threshold_boundary() {
    // Lower keep_recent first so the threshold stays above it.
    let m = SlidingWindowMemory::new()
        .with_keep_recent(3)
        .with_compact_threshold(10);
    let mut state = AgentState::new(AgentInput::default());
    // AgentState::new seeds 2 messages (system + user); top up to 10.
    while state.history.len() < 10 {
        state.history.push(Message::user("x"));
    }
    assert!(
        !m.should_compact(&state),
        "len == threshold must not trigger"
    );
    state.history.push(Message::user("x"));
    assert!(m.should_compact(&state), "len > threshold must trigger");
}

#[test]
fn sliding_window_does_not_compact_short_history() {
    let m = SlidingWindowMemory::default();
    let empty = AgentState::default();
    assert!(!m.should_compact(&empty));
    let small = AgentState::new(AgentInput {
        system_prompt: "sys".into(),
        user_message: "hi".into(),
        max_turns: 5,
        output_schema: None,
        ..AgentInput::default()
    });
    assert!(!m.should_compact(&small));
}

#[test]
fn sliding_window_compact_preserves_system_prompt_and_recent_user() {
    let state = populated_state(30, None);
    let m = SlidingWindowMemory::new()
        .with_compact_threshold(50)
        .with_keep_recent(10);
    let compacted = m.compact(&state);
    assert!(compacted.system_prompt.starts_with("sys"));
    assert!(compacted
        .system_prompt
        .contains("Prior conversation summary"));
    assert_eq!(compacted.max_turns, state.input.max_turns);
    assert_eq!(compacted.user_message, "u29");
}

#[test]
fn sliding_window_compact_preserves_output_schema() {
    let schema = sample_schema();
    let state = populated_state(30, Some(schema.clone()));
    let m = SlidingWindowMemory::new()
        .with_compact_threshold(50)
        .with_keep_recent(10);
    let compacted = m.compact(&state);
    assert_eq!(compacted.output_schema, Some(schema));
}

#[test]
fn sliding_window_compact_with_custom_keep_recent() {
    // Assistant messages with tool calls are summarized by the tools' names.
    let mut state = AgentState::new(AgentInput {
        system_prompt: "sys".into(),
        user_message: "u0".into(),
        max_turns: 50,
        output_schema: None,
        ..AgentInput::default()
    });
    state
        .history
        .push(Message::assistant_with_tools(vec![ToolCall {
            id: "c1".into(),
            name: "search".into(),
            args: value("{}"),
        }]));
    for i in 1..20 {
        state.history.push(Message::user(format!("u{i}")));
        state.history.push(Message::assistant_text(format!("a{i}")));
    }
    let m = SlidingWindowMemory::new()
        .with_compact_threshold(100)
        .with_keep_recent(5);
    let compacted = m.compact(&state);
    assert!(
        compacted
            .system_prompt
            .contains("assistant: called tools [search]"),
        "summary should mention dropped tool call, got: {}",
        compacted.system_prompt
    );
}

#[test]
fn truncate_respects_utf8_char_boundary() {
    // 'é' is 2 bytes; slicing at byte 2 would split it and panic.
    let t = truncate("héllo world", 2);
    assert_eq!(t, "h…");
    // Already short: returned unchanged.
    assert_eq!(truncate("hi", 10), "hi");
    // Emoji boundary (4 bytes for 🦀).
    assert_eq!(truncate("🦀rust", 2), "…");
}

#[test]
fn truncate_at_its_limits() {
    assert_eq!(truncate("abc", 3), "abc");
    assert_eq!(truncate("abcd", 3), "abc…");
    assert_eq!(truncate("", 0), "");
    assert_eq!(truncate("a", 0), "…");
    assert_eq!(truncate("éé", 3), "é…");
    assert_eq!(truncate("€uro", 3), "€…");
    assert_eq!(truncate("🦀rust", 4), "🦀…");
    for max in 0..12 {
        assert!(truncate("héllo 🦀 world", max).len() <= max + 3);
    }
}

#[derive(Debug, Default)]
struct PassthroughMemory {
    invoked: AtomicBool,
}

impl MemoryProvider for PassthroughMemory {
    fn should_compact(&self, _state: &AgentState) -> bool {
        self.invoked.store(true, Ordering::SeqCst);
        false
    }

    fn compact(&self, state: &AgentState) -> AgentInput {
        state.input.clone()
    }
}

#[test]
fn custom_memory_provider_compiles_as_arc_dyn() {
    // Compile-only: the trait stays dyn-compatible.
    let _: Arc<dyn MemoryProvider> = Arc::new(PassthroughMemory::default());
}

#[test]
fn custom_memory_provider_is_invoked_via_arc_dyn() {
    let provider: Arc<dyn MemoryProvider> = Arc::new(PassthroughMemory::default());
    let state = AgentState::default();
    assert!(!provider.should_compact(&state));
    // Downcast not possible through `dyn`, but the side effect on the
    // inner struct is observable via a separate Arc to the same impl.
    let owned = Arc::new(PassthroughMemory::default());
    let typed: Arc<dyn MemoryProvider> = owned.clone();
    let _ = typed.should_compact(&state);
    assert!(owned.invoked.load(Ordering::SeqCst));
}

#[test]
fn shared_window_behaves_like_the_window() {
    let window = SlidingWindowMemory::new()
        .with_keep_recent(1)
        .with_compact_threshold(3);
    let shared: Arc<dyn MemoryProvider> = Arc::new(window.clone());
    let state = populated_state(2, None);
    assert!(window.should_compact(&state));
    assert!(shared.should_compact(&state));
    assert_eq!(
        shared.compact(&state).system_prompt,
        window.compact(&state).system_prompt
    );
}

#[test]
fn summary_has_this_exact_form() {
    let mut state = AgentState::new(AgentInput {
        system_prompt: "sys".into(),
        user_message: "question".into(),
        max_turns: 7,
        output_schema: None,
        ..AgentInput::default()
    });
    state.history.push(Message::assistant_with_tools(vec![
        ToolCall {
            id: "1".into(),
            name: "add".into(),
            args: value("{}"),
        },
        ToolCall {
            id: "2".into(),
            name: "mul".into(),
            args: value("{}"),
        },
    ]));
    state.history.push(Message::tool_result(&ToolResult {
        call_id: "1".into(),
        output: value("[3]"),
        error: None,
    }));
    state.history.push(Message::tool_result(&ToolResult {
        call_id: "2".into(),
        output: value("null"),
        error: Some("no".into()),
    }));
    state.history.push(Message::assistant_text("done"));
    state.history.push(Message::system("not mentioned"));
    state.history.push(Message::user("more"));
    let next = compact_sliding_window(&state, 1);
    assert_eq!(
        next.system_prompt,
        "sys\n\n[Prior conversation summary, 7 messages dropped]\n\
         user: question\n\
         assistant: called tools [add, mul]\n\
         tool: [3]\n\
         tool: ERROR: no\n\
         assistant: done"
    );
    assert_eq!(next.user_message, "more");
    assert_eq!(next.max_turns, 7);
    assert!(next.output_schema.is_none());
    assert_eq!(next.recent, vec![Message::user("more")]);
}

#[test]
fn summary_quotes_long_messages_in_part() {
    let mut state = AgentState::new(AgentInput::default());
    state.history.clear();
    state.history.push(Message::user("u".repeat(201)));
    state.history.push(Message::assistant_text("a".repeat(200)));
    state.history.push(Message::tool_result(&ToolResult {
        call_id: "1".into(),
        output: value("null"),
        error: Some("e".repeat(200)),
    }));
    let next = compact_sliding_window(&state, 0);
    let expected = format!(
        "\n\n[Prior conversation summary, 3 messages dropped]\nuser: {}…\nassistant: {}\ntool: ERROR: {}…",
        "u".repeat(200),
        "a".repeat(200),
        "e".repeat(113)
    );
    assert_eq!(next.system_prompt, expected);
}

#[test]
fn dropped_count_is_a_plain_decimal() {
    let state = populated_state(61, None);
    assert_eq!(state.history.len(), 122);
    let next = compact_sliding_window(&state, 2);
    assert!(next
        .system_prompt
        .starts_with("sys\n\n[Prior conversation summary, 120 messages dropped]\nuser: u0\n"));
}

#[test]
fn nothing_older_than_the_window_leaves_the_prompt() {
    let state = populated_state(3, None);
    let next = compact_sliding_window(&state, state.history.len());
    assert_eq!(next.system_prompt, "sys");
    assert_eq!(next.user_message, "u2");
    assert_eq!(next.recent, state.history);
    let more = compact_sliding_window(&state, usize::MAX);
    assert_eq!(more.system_prompt, "sys");
    assert_eq!(more.recent, state.history);
}

#[test]
fn dropping_only_system_messages_leaves_the_prompt() {
    let state = AgentState::new(AgentInput {
        system_prompt: "sys".into(),
        user_message: "hi".into(),
        max_turns: 1,
        output_schema: None,
        ..AgentInput::default()
    });
    let next = compact_sliding_window(&state, 1);
    assert_eq!(next.system_prompt, "sys");
    assert_eq!(next.user_message, "hi");
}

#[test]
fn history_without_user_message_carries_none() {
    let mut state = AgentState::default();
    assert_eq!(compact_sliding_window(&state, 0).user_message, "");
    state.history.push(Message::assistant_text("a"));
    assert_eq!(compact_sliding_window(&state, 0).user_message, "");
    assert_eq!(
        compact_sliding_window(&state, 0).system_prompt,
        "\n\n[Prior conversation summary, 1 messages dropped]\nassistant: a"
    );
}

#[test]
fn last_messages_are_preserved_verbatim() {
    let window = SlidingWindowMemory::new()
        .with_keep_recent(3)
        .with_compact_threshold(5);
    let mut state = populated_state(3, None);
    state.history.push(Message::assistant_text("zzz"));
    assert!(window.should_compact(&state));
    let next = window.compact(&state);
    assert_eq!(
        next.recent,
        vec![
            Message::user("u2"),
            Message::assistant_text("a2"),
            Message::assistant_text("zzz"),
        ]
    );
    let following = AgentState::new(next);
    assert_eq!(following.history.len(), 2);
    let conversation = following.conversation();
    assert_eq!(conversation.len(), 4);
    assert_eq!(conversation[0], following.history[0]);
    assert_eq!(conversation[1..], state.history[4..]);
    assert!(!window.should_compact(&following));
}

#[test]
fn tightest_window_does_not_compact_at_once() {
    for threshold in 2..30 {
        let window = SlidingWindowMemory::new()
            .with_keep_recent(0)
            .with_compact_threshold(threshold)
            .with_keep_recent(threshold - 1);
        let mut state = populated_state(1, None);
        for i in 0..40 {
            state.history.push(Message::assistant_text(format!("a{i}")));
            if window.should_compact(&state) {
                let kept = state.history[state.history.len() + 1 - threshold..].to_vec();
                state = AgentState::new(window.compact(&state));
                assert_eq!(state.input.recent, kept);
                assert!(!window.should_compact(&state));
            }
        }
    }
}

#[test]
fn carried_user_message_is_not_sent_twice() {
    let mut state = AgentState::new(AgentInput {
        system_prompt: "sys".into(),
        user_message: "u".into(),
        max_turns: 5,
        ..AgentInput::default()
    });
    state.history.push(Message::assistant_text("a"));
    state.history.push(Message::user("v"));
    let next = AgentState::new(compact_sliding_window(&state, 2));
    let texts: Vec<String> = next.conversation().into_iter().map(|m| m.content).collect();
    assert_eq!(
        texts,
        vec![
            "sys\n\n[Prior conversation summary, 2 messages dropped]\nuser: u",
            "a",
            "v"
        ]
    );
    // Not among the kept ones, it comes first.
    let mut state = next;
    state.history.push(Message::assistant_text("b"));
    let next = AgentState::new(compact_sliding_window(&state, 1));
    let texts: Vec<String> = next.conversation().into_iter().map(|m| m.content).collect();
    assert_eq!(texts[1..], ["v".to_string(), "b".to_string()]);
    assert!(texts[0].ends_with(
        "[Prior conversation summary, 3 messages dropped]\nassistant: a\nuser: v"
    ));
}

#[test]
fn window_keeps_no_messages_where_none_are_asked_for() {
    let state = populated_state(3, None);
    let next = compact_sliding_window(&state, 0);
    assert!(next.recent.is_empty());
    assert_eq!(AgentState::new(next).history.len(), 2);
}

#[test]
fn checked_setters_refuse_what_would_always_compact() {
    let window = SlidingWindowMemory::new();
    assert!(window.clone().try_with_keep_recent(200).is_none());
    assert!(window.clone().try_with_compact_threshold(20).is_none());
    let kept = window.clone().try_with_keep_recent(199).unwrap();
    assert_eq!((kept.compact_threshold(), kept.keep_recent()), (200, 199));
    assert!(!kept.should_compact(&AgentState::new(kept.compact(&populated_state(120, None)))));
    let short = window.try_with_compact_threshold(21).unwrap();
    assert_eq!((short.compact_threshold(), short.keep_recent()), (21, 20));
}
