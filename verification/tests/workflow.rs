use std::sync::Arc;

use autoagents_llm::chat::StructuredOutputFormat;
use temporal_agent_rs::activities::tool_outcome;
use temporal_agent_rs::memory::{MemoryProvider, SlidingWindowMemory};
use temporal_agent_rs::state::{
    AgentInput, AgentOutput, LlmChatInput, LlmResponse, Role, StopReason, ToolCall, ToolSchema,
};
use temporal_agent_rs::workflow::{
    Action, ActivityLimits, AgentWorkflow, ACTIVITY_MAX_RETRIES, LLM_HEARTBEAT_SECS,
    LLM_TIMEOUT_SECS, TOOL_TIMEOUT_SECS,
};

fn value(text: &str) -> serde_json::Value {
    serde_json::from_str(text).unwrap()
}

fn input(max_turns: u32) -> AgentInput {
    AgentInput {
        system_prompt: "sys".into(),
        user_message: "q".into(),
        max_turns,
        output_schema: None,
        recent: vec![],
    }
}

fn call(id: &str) -> ToolCall {
    ToolCall {
        id: id.into(),
        name: "add".into(),
        args: value("{\"a\":1}"),
    }
}

fn use_tools(ids: &[&str]) -> LlmResponse {
    LlmResponse::UseTools {
        calls: ids.iter().map(|id| call(id)).collect(),
    }
}

fn answer(text: &str) -> LlmResponse {
    LlmResponse::Final {
        answer: text.into(),
    }
}

fn asked(action: Action) -> LlmChatInput {
    match action {
        Action::CallLlm(request) => request,
        other => panic!("expected CallLlm, got {other:?}"),
    }
}

fn running(action: Action) -> ToolCall {
    match action {
        Action::CallTool(call) => call,
        other => panic!("expected CallTool, got {other:?}"),
    }
}

fn finished(action: Action) -> AgentOutput {
    match action {
        Action::Finish(output) => output,
        other => panic!("expected Finish, got {other:?}"),
    }
}

fn continued(action: Action) -> AgentInput {
    match action {
        Action::ContinueAsNew(next) => next,
        other => panic!("expected ContinueAsNew, got {other:?}"),
    }
}

fn catalog() -> Vec<ToolSchema> {
    vec![ToolSchema {
        name: "add".into(),
        description: "adds".into(),
        args_schema: value("{}"),
    }]
}

#[test]
fn answer_on_the_first_turn() {
    let memory = SlidingWindowMemory::default();
    let tools = catalog();
    let mut run = AgentWorkflow::default();
    let request = asked(run.start(input(5), &memory, &tools));
    assert_eq!(request.messages.len(), 2);
    assert_eq!(request.messages[0].content, "sys");
    assert_eq!(request.messages[1].content, "q");
    assert_eq!(request.tools, tools);
    assert!(request.output_schema.is_none());
    let out = finished(run.on_llm_response(answer("42"), &memory, &tools));
    assert_eq!(out.final_answer, "42");
    assert_eq!(out.stop_reason, StopReason::FinalAnswer);
    assert_eq!(out.turns_used, 0);
    assert_eq!(out.tool_calls, 0);
    let state = run.get_state();
    assert_eq!(state.history.len(), 3);
    assert_eq!(state.history[2].role, Role::Assistant);
    assert_eq!(state.history[2].content, "42");
}

#[test]
fn tools_run_one_after_the_other() {
    let memory = SlidingWindowMemory::default();
    let tools = catalog();
    let mut run = AgentWorkflow::default();
    run.start(input(5), &memory, &tools);
    let first = running(run.on_llm_response(use_tools(&["1", "2"]), &memory, &tools));
    assert_eq!(first, call("1"));
    assert_eq!(run.turn_count(), 0);
    let done = tool_outcome(&first, Ok(value("{\"sum\":3}")));
    let second = running(run.on_tool_result(&done, &memory, &tools));
    assert_eq!(second, call("2"));
    assert_eq!(run.get_state().tool_calls_executed, 1);
    let failed = tool_outcome(&second, Err("boom".into()));
    let request = asked(run.on_tool_result(&failed, &memory, &tools));
    assert_eq!(run.turn_count(), 1);
    let contents: Vec<&str> = request.messages.iter().map(|m| m.content.as_str()).collect();
    assert_eq!(contents, vec!["sys", "q", "", "{\"sum\":3}", "ERROR: boom"]);
    assert_eq!(request.messages[2].tool_calls, vec![call("1"), call("2")]);
    assert_eq!(request.messages[3].tool_call_id, Some("1".to_string()));
    assert_eq!(request.messages[4].tool_call_id, Some("2".to_string()));
    let out = finished(run.on_llm_response(answer("done"), &memory, &tools));
    assert_eq!(out.stop_reason, StopReason::FinalAnswer);
    assert_eq!(out.turns_used, 1);
    assert_eq!(out.tool_calls, 2);
}

#[test]
fn cap_on_turns_ends_the_run() {
    let memory = SlidingWindowMemory::default();
    let tools = catalog();
    let mut run = AgentWorkflow::default();
    run.start(input(2), &memory, &tools);
    for turn in 0..2 {
        assert_eq!(run.turn_count(), turn);
        let call = running(run.on_llm_response(use_tools(&["1"]), &memory, &tools));
        let action = run.on_tool_result(&tool_outcome(&call, Ok(value("1"))), &memory, &tools);
        if turn == 0 {
            asked(action);
        } else {
            let out = finished(action);
            assert_eq!(out.final_answer, "[max turns reached]");
            assert_eq!(out.stop_reason, StopReason::MaxTurnsReached);
            assert_eq!(out.turns_used, 2);
            assert_eq!(out.tool_calls, 2);
        }
    }
}

#[test]
fn cap_of_zero_asks_nothing() {
    let memory = SlidingWindowMemory::default();
    let mut run = AgentWorkflow::default();
    let out = finished(run.start(input(0), &memory, &vec![]));
    assert_eq!(out.stop_reason, StopReason::MaxTurnsReached);
    assert_eq!(out.turns_used, 0);
    assert_eq!(out.tool_calls, 0);
}

#[test]
fn reply_without_calls_still_takes_a_turn() {
    let memory = SlidingWindowMemory::default();
    let mut run = AgentWorkflow::default();
    run.start(input(2), &memory, &vec![]);
    let request = asked(run.on_llm_response(use_tools(&[]), &memory, &vec![]));
    assert_eq!(request.messages.len(), 3);
    assert_eq!(run.turn_count(), 1);
    assert_eq!(run.get_state().tool_calls_executed, 0);
}

#[test]
fn user_messages_wait_for_the_next_turn() {
    let memory = SlidingWindowMemory::default();
    let mut run = AgentWorkflow::default();
    run.start(input(5), &memory, &vec![]);
    run.add_user_message("first".into());
    assert_eq!(run.get_state().history.len(), 2);
    assert_eq!(run.get_state().pending_user_messages, vec!["first"]);
    let call = running(run.on_llm_response(use_tools(&["1"]), &memory, &vec![]));
    run.add_user_message("second".into());
    assert_eq!(run.get_state().history.len(), 3);
    let result = tool_outcome(&call, Ok(value("1")));
    let request = asked(run.on_tool_result(&result, &memory, &vec![]));
    let contents: Vec<&str> = request.messages.iter().map(|m| m.content.as_str()).collect();
    assert_eq!(contents, vec!["sys", "q", "", "1", "first", "second"]);
    assert_eq!(request.messages[4].role, Role::User);
    assert!(run.get_state().pending_user_messages.is_empty());
}

#[test]
fn user_message_after_the_end_stays_pending() {
    let memory = SlidingWindowMemory::default();
    let mut run = AgentWorkflow::default();
    run.start(input(5), &memory, &vec![]);
    run.on_llm_response(answer("bye"), &memory, &vec![]);
    run.add_user_message("late".into());
    assert_eq!(run.get_state().history.len(), 3);
    assert_eq!(run.get_state().pending_user_messages, vec!["late"]);
}

#[test]
fn starting_resets_the_state() {
    let memory = SlidingWindowMemory::default();
    let mut run = AgentWorkflow::default();
    assert!(run.get_state().history.is_empty());
    run.add_user_message("early".into());
    let request = asked(run.start(input(1), &memory, &vec![]));
    assert_eq!(request.messages.len(), 2);
    assert!(run.get_state().pending_user_messages.is_empty());
}

#[test]
fn every_request_carries_the_schema() {
    let schema = StructuredOutputFormat {
        name: "expression".into(),
        description: None,
        schema: Some(value("{\"type\":\"object\"}")),
        strict: Some(true),
    };
    let memory = SlidingWindowMemory::default();
    let mut run = AgentWorkflow::default();
    let start = AgentInput {
        output_schema: Some(schema.clone()),
        ..input(5)
    };
    assert_eq!(
        asked(run.start(start, &memory, &vec![])).output_schema,
        Some(schema.clone())
    );
    let call = running(run.on_llm_response(use_tools(&["1"]), &memory, &vec![]));
    let result = tool_outcome(&call, Ok(value("1")));
    assert_eq!(
        asked(run.on_tool_result(&result, &memory, &vec![])).output_schema,
        Some(schema)
    );
}

#[test]
fn long_history_continues_as_new() {
    let memory = SlidingWindowMemory::new()
        .with_keep_recent(1)
        .with_compact_threshold(3);
    let mut run = AgentWorkflow::default();
    run.start(input(5), &memory, &vec![]);
    let call = running(run.on_llm_response(use_tools(&["1"]), &memory, &vec![]));
    let result = tool_outcome(&call, Ok(value("7")));
    let next = continued(run.on_tool_result(&result, &memory, &vec![]));
    assert_eq!(
        next.system_prompt,
        "sys\n\n[Prior conversation summary, 3 messages dropped]\n\
         user: q\nassistant: called tools [add]"
    );
    assert_eq!(next.user_message, "q");
    assert_eq!(next.max_turns, 5);
    assert_eq!(next.recent.len(), 1);
    assert_eq!(next.recent[0].content, "7");
    // The run that follows asks the model again, from its first turn.
    let mut following = AgentWorkflow::default();
    let request = asked(following.start(next, &memory, &vec![]));
    assert_eq!(request.messages.len(), 3);
    assert_eq!(request.messages[2].content, "7");
    assert_eq!(request.messages[2].tool_call_id, Some("1".to_string()));
    assert_eq!(following.turn_count(), 0);
}

#[test]
fn cap_comes_before_compaction() {
    let memory = SlidingWindowMemory::new()
        .with_keep_recent(0)
        .with_compact_threshold(1);
    let mut capped = AgentWorkflow::default();
    assert_eq!(
        finished(capped.start(input(0), &memory, &vec![])).stop_reason,
        StopReason::MaxTurnsReached
    );
    // Every run begins with two messages, so a threshold of one is always passed.
    let mut run = AgentWorkflow::default();
    continued(run.start(input(1), &memory, &vec![]));
}

#[test]
fn memory_can_be_a_trait_object() {
    let memory: Arc<dyn MemoryProvider> = Arc::new(SlidingWindowMemory::default());
    let mut run = AgentWorkflow::default();
    asked(run.start(input(1), &*memory, &vec![]));
    finished(run.on_llm_response(answer("a"), &memory, &vec![]));
}

#[test]
fn feeding_recorded_events_again_gives_the_same_actions() {
    let memory = SlidingWindowMemory::default();
    let tools = catalog();
    let mut actions: Vec<String> = Vec::new();
    for _ in 0..2 {
        let mut run = AgentWorkflow::default();
        let mut log = vec![format!("{:?}", run.start(input(3), &memory, &tools))];
        log.push(format!(
            "{:?}",
            run.on_llm_response(use_tools(&["1"]), &memory, &tools)
        ));
        run.add_user_message("hint".into());
        let result = tool_outcome(&call("1"), Ok(value("2")));
        log.push(format!("{:?}", run.on_tool_result(&result, &memory, &tools)));
        log.push(format!(
            "{:?}",
            run.on_llm_response(answer("end"), &memory, &tools)
        ));
        if actions.is_empty() {
            actions = log;
        } else {
            assert_eq!(actions, log);
        }
    }
    assert_eq!(actions.len(), 4);
}

#[test]
fn activity_timeouts() {
    assert_eq!(LLM_TIMEOUT_SECS, 120);
    assert_eq!(LLM_HEARTBEAT_SECS, 30);
    assert_eq!(TOOL_TIMEOUT_SECS, 3600);
    assert_eq!(ACTIVITY_MAX_RETRIES, 3);
}

#[test]
fn actions_have_their_limits() {
    let memory = SlidingWindowMemory::default();
    let mut run = AgentWorkflow::default();
    let ask = run.start(input(5), &memory, &vec![]);
    assert_eq!(
        ask.limits(),
        Some(ActivityLimits {
            timeout_secs: 120,
            heartbeat_secs: Some(30),
            max_retries: 3,
        })
    );
    let tool = run.on_llm_response(use_tools(&["1"]), &memory, &vec![]);
    assert_eq!(
        tool.limits(),
        Some(ActivityLimits {
            timeout_secs: 3600,
            heartbeat_secs: None,
            max_retries: 3,
        })
    );
    let mut capped = AgentWorkflow::default();
    assert_eq!(capped.start(input(0), &memory, &vec![]).limits(), None);
}
