use temporal_agent_rs::error::AgentError;

#[test]
fn only_provider_and_other_errors_are_retryable() {
    assert!(AgentError::Llm("x".into()).is_retryable());
    assert!(AgentError::Other("x".into()).is_retryable());
    assert!(!AgentError::ToolNotFound("x".into()).is_retryable());
    assert!(!AgentError::ResponseParse("x".into()).is_retryable());
    let serde = serde_json::from_str::<serde_json::Value>("{").unwrap_err();
    assert!(!AgentError::from(serde).is_retryable());
}

#[test]
fn messages_name_the_origin() {
    assert_eq!(
        AgentError::Llm("down".into()).message(),
        "LLM provider error: down"
    );
    assert_eq!(
        AgentError::ToolNotFound("add".into()).message(),
        "tool 'add' not registered with this worker"
    );
    assert_eq!(
        AgentError::ResponseParse("why".into()).message(),
        "could not parse LLM response: why"
    );
    assert_eq!(AgentError::Other("as is".into()).message(), "as is");
    let serde = serde_json::from_str::<serde_json::Value>("[1,").unwrap_err();
    let expected = format!("serde error: {serde}");
    assert_eq!(AgentError::from(serde).message(), expected);
}
