use temporal_agent_rs::state::{
    AgentInput, AgentState, LlmChatInput, LlmResponse, Message, Role, ToolCall, ToolResult,
    ToolSchema,
};

fn value(text: &str) -> serde_json::Value {
    serde_json::from_str(text).unwrap()
}

#[test]
fn agent_state_seeds_system_and_user() {
    let s = AgentState::new(AgentInput {
        system_prompt: "be helpful".into(),
        user_message: "hi".into(),
        max_turns: 5,
        output_schema: None,
        ..AgentInput::default()
    });
    assert_eq!(s.history.len(), 2);
    assert_eq!(s.history[0].role, Role::System);
    assert_eq!(s.history[1].role, Role::User);
    assert_eq!(s.turn, 0);
    assert_eq!(s.history[0].content, "be helpful");
    assert_eq!(s.history[1].content, "hi");
    assert_eq!(s.tool_calls_executed, 0);
    assert!(s.pending_user_messages.is_empty());
    assert_eq!(s.input.max_turns, 5);
}

#[test]
fn messages_are_built_by_role() {
    let m = Message::assistant_with_tools(vec![ToolCall {
        id: "c1".into(),
        name: "add".into(),
        args: value("{\"a\":1,\"b\":2}"),
    }]);
    assert_eq!(m.role, Role::Assistant);
    assert_eq!(m.content, "");
    assert_eq!(m.tool_calls.len(), 1);
    assert_eq!(m.tool_call_id, None);
    assert_eq!(m.clone(), m);
    assert_eq!(Message::system("x").role, Role::System);
    assert_eq!(Message::assistant_text("x").role, Role::Assistant);
    assert!(Message::user("x").tool_calls.is_empty());
}

#[test]
fn tool_result_shows_output_or_failure() {
    let ok = Message::tool_result(&ToolResult {
        call_id: "7".into(),
        output: value("{ \"sum\" : 3 }"),
        error: None,
    });
    assert_eq!(ok.role, Role::Tool);
    assert_eq!(ok.content, "{\"sum\":3}");
    assert_eq!(ok.tool_call_id, Some("7".to_string()));
    let failed = Message::tool_result(&ToolResult {
        call_id: "8".into(),
        output: value("null"),
        error: Some("boom".into()),
    });
    assert_eq!(failed.content, "ERROR: boom");
    assert_eq!(failed.tool_call_id, Some("8".to_string()));
}

#[test]
fn copies_are_equal() {
    let result = ToolResult {
        call_id: "1".into(),
        output: value("[1]"),
        error: Some("e".into()),
    };
    assert_eq!(result.clone(), result);
    let input = LlmChatInput {
        messages: vec![Message::user("hello")],
        tools: vec![ToolSchema {
            name: "noop".into(),
            description: "does nothing".into(),
            args_schema: value("{\"type\":\"object\"}"),
        }],
        output_schema: None,
    };
    let copy = input.clone();
    assert_eq!(copy.messages, input.messages);
    assert_eq!(copy.tools, input.tools);
    assert!(copy.output_schema.is_none());
    let response = LlmResponse::Final {
        answer: "a".into(),
    };
    assert!(matches!(response.clone(), LlmResponse::Final { answer } if answer == "a"));
    let state = AgentState::default();
    assert!(state.clone().history.is_empty());
    assert_eq!(state.input.max_turns, 0);
}

#[test]
fn kept_messages_are_part_of_the_conversation() {
    let kept = vec![
        Message::assistant_text("earlier"),
        Message::tool_result(&ToolResult {
            call_id: "1".into(),
            output: value("1"),
            error: None,
        }),
    ];
    let mut s = AgentState::new(AgentInput {
        system_prompt: "sys".into(),
        user_message: "q".into(),
        recent: kept.clone(),
        ..AgentInput::default()
    });
    assert_eq!(s.history.len(), 2);
    assert_eq!(s.input.clone().recent, kept);
    s.history.push(Message::assistant_text("now"));
    let conversation = s.conversation();
    assert_eq!(conversation.len(), 5);
    assert_eq!(conversation[..2], s.history[..2]);
    assert_eq!(conversation[2..4], kept[..]);
    assert_eq!(conversation[4], Message::assistant_text("now"));
}

#[test]
fn first_run_has_its_history_as_conversation() {
    let mut s = AgentState::default();
    assert!(s.conversation().is_empty());
    s.history.push(Message::system("only"));
    assert_eq!(s.conversation(), s.history);
    let mut s = AgentState::new(AgentInput::default());
    s.history.push(Message::user(""));
    assert_eq!(s.conversation(), s.history);
}
