use autoagents_llm::chat::StructuredOutputFormat;
use temporal_agent_rs::error::AgentError;
use temporal_agent_rs::fields::gives_field_twice;
use temporal_agent_rs::llm::{
    chat_request, chat_response, decide_response, extract_fence, parse_response,
    text_outside_fence, to_autoagents_messages, to_autoagents_tools, tool_calls_from_json,
    tool_calls_from_value, ChatReply, NativeToolCall,
};
use temporal_agent_rs::state::{LlmResponse, Message, Role, ToolCall, ToolResult, ToolSchema};

fn value(text: &str) -> serde_json::Value {
    serde_json::from_str(text).unwrap()
}

fn call(id: &str, name: &str, args: &str) -> ToolCall {
    ToolCall {
        id: id.into(),
        name: name.into(),
        args: value(args),
    }
}

fn native(id: &str, name: &str, arguments: &str) -> NativeToolCall {
    NativeToolCall {
        id: id.into(),
        name: name.into(),
        arguments: arguments.into(),
    }
}

fn answer_of(response: Result<LlmResponse, AgentError>) -> String {
    match response {
        Ok(LlmResponse::Final { answer }) => answer,
        other => panic!("expected Final, got {other:?}"),
    }
}

fn calls_of(response: Result<LlmResponse, AgentError>) -> Vec<ToolCall> {
    match response {
        Ok(LlmResponse::UseTools { calls }) => calls,
        other => panic!("expected UseTools, got {other:?}"),
    }
}

fn parse_error_of(response: Result<LlmResponse, AgentError>) -> String {
    match response {
        Err(AgentError::ResponseParse(detail)) => detail,
        other => panic!("expected ResponseParse, got {other:?}"),
    }
}

#[test]
fn parses_final_answer() {
    let r = parse_response("The answer is 42.").unwrap();
    let LlmResponse::Final { answer } = r else {
        unreachable!("expected Final, got {r:?}");
    };
    assert_eq!(answer, "The answer is 42.");
}

#[test]
fn parses_tool_calls_fence() {
    let text = "I'll use add.\n```tool_calls\n[{\"id\":\"1\",\"name\":\"add\",\"args\":{\"a\":1,\"b\":2}}]\n```";
    let r = parse_response(text).unwrap();
    let LlmResponse::UseTools { calls } = r else {
        unreachable!("expected UseTools, got {r:?}");
    };
    assert_eq!(calls.len(), 1);
    assert_eq!(calls[0].name, "add");
    assert_eq!(calls[0].id, "1");
}

#[test]
fn rejects_empty_response() {
    assert!(parse_response("").is_err());
    assert!(parse_response("   ").is_err());
}

#[test]
fn converts_tool_schema_to_llm_tool() {
    let schemas = vec![ToolSchema {
        name: "add".into(),
        description: "Add two numbers".into(),
        args_schema: value(r#"{"type": "object"}"#),
    }];
    let tools = to_autoagents_tools(&schemas);
    assert_eq!(tools.len(), 1);
    assert_eq!(tools[0].function.name, "add");
    assert_eq!(tools[0].tool_type, "function");
    assert_eq!(tools[0].function.description, "Add two numbers");
    assert_eq!(tools[0].function.parameters, schemas[0].args_schema);
}

#[test]
fn parsed_tool_calls_carry_their_arguments_in_order() {
    let calls = calls_of(parse_response(
        "```tool_calls\n[{\"args\":{\"a\":[1,null]},\"id\":\"x\",\"name\":\"f\",\"extra\":0},[\"y\",\"g\",2]]```",
    ));
    assert_eq!(
        calls,
        vec![call("x", "f", "{\"a\":[1,null]}"), call("y", "g", "2")]
    );
}

#[test]
fn final_answer_is_trimmed() {
    assert_eq!(answer_of(parse_response(" \n\t hi there \u{a0}\u{3000}\n")), "hi there");
    assert_eq!(answer_of(parse_response("\u{200b}x")), "\u{200b}x");
    assert_eq!(answer_of(parse_response("\u{85}x\u{2028}")), "x");
}

#[test]
fn blank_reply_is_a_parse_error() {
    assert_eq!(parse_error_of(parse_response("")), "empty LLM response");
    assert_eq!(parse_error_of(parse_response(" \n ")), "empty LLM response");
}

#[test]
fn empty_list_of_calls_leaves_what_is_outside() {
    assert_eq!(
        answer_of(parse_response("Done.\n```tool_calls\n[]\n```")),
        "Done."
    );
    assert_eq!(
        answer_of(parse_response("none\n```tool_calls\n[]\n``` at all \n")),
        "none\n at all"
    );
    assert_eq!(
        parse_error_of(parse_response(" ```tool_calls\n[ ]\n``` \n")),
        "empty LLM response"
    );
}

#[test]
fn text_outside_a_fence() {
    assert_eq!(text_outside_fence("é```x\n1```ü", "x"), "éü");
    assert_eq!(text_outside_fence("a```x\n```b```x\n```", "x"), "ab```x\n```");
    assert_eq!(text_outside_fence("no fence", "x"), "no fence");
    assert_eq!(text_outside_fence("```x\nopen", "x"), "```x\nopen");
}

#[test]
fn string_literals_are_escaped() {
    let message = Message::assistant_with_tools(vec![call(
        "a\"b\\c/\u{8}\t\n\u{c}\r\u{0}\u{1f}\u{7f}é🦀`",
        "n",
        "0",
    )]);
    assert_eq!(
        to_autoagents_messages(&[message])[0].content,
        "\n```tool_calls\n[{\"id\":\"a\\\"b\\\\c/\\b\\t\\n\\f\\r\\u0000\\u001f\u{7f}é🦀`\",\
         \"name\":\"n\",\"args\":0}]\n```"
    );
}

#[test]
fn reply_is_decided_by_what_was_decoded() {
    let reply = ChatReply {
        tool_calls: None,
        text: Some("ok\n```tool_calls\n[1]\n```".into()),
    };
    assert_eq!(reply.fenced_json(), Some("[1]\n"));
    let calls = vec![call("1", "f", "{}")];
    assert_eq!(calls_of(reply.decide(Some(Ok(calls.clone())))), calls);
    assert_eq!(answer_of(reply.decide(Some(Ok(vec![])))), "ok");
    assert_eq!(
        parse_error_of(reply.decide(Some(Err("why".into())))),
        "tool_calls JSON: why"
    );
    let with_native = ChatReply {
        tool_calls: Some(vec![native("1", "f", "")]),
        text: Some("```tool_calls\n[]\n```".into()),
    };
    assert_eq!(with_native.fenced_json(), None);
    assert_eq!(calls_of(with_native.decide(None)), calls);
    let silent = ChatReply {
        tool_calls: None,
        text: None,
    };
    assert_eq!(silent.fenced_json(), None);
}

#[test]
fn broken_fences_are_part_of_the_answer() {
    assert_eq!(answer_of(parse_response("```tool_calls")), "```tool_calls");
    assert_eq!(
        answer_of(parse_response("```tool_calls\n[]")),
        "```tool_calls\n[]"
    );
    assert_eq!(
        answer_of(parse_response("```json\n[]\n```")),
        "```json\n[]\n```"
    );
}

#[test]
fn bad_json_in_the_fence_is_a_parse_error() {
    let detail = parse_error_of(parse_response("```tool_calls\n[oops]\n```"));
    let parse_error = serde_json::from_str::<serde_json::Value>("[oops]\n").unwrap_err();
    assert_eq!(detail, format!("tool_calls JSON: {parse_error}"));
}

#[test]
fn json_that_lists_no_calls_is_a_parse_error() {
    for (body, expected) in [
        ("{}", "expected an array of tool calls"),
        ("[{\"name\":\"f\",\"args\":1}]", "missing field `id`"),
        ("[{\"id\":\"1\",\"args\":1}]", "missing field `name`"),
        ("[{\"id\":\"1\",\"name\":\"f\"}]", "missing field `args`"),
        ("[{\"id\":1,\"name\":\"f\",\"args\":1}]", "field `id` is not a string"),
        ("[{\"id\":\"1\",\"name\":null,\"args\":1}]", "field `name` is not a string"),
        ("[[\"1\",\"f\"]]", "missing field `args`"),
        ("[[\"1\",\"f\",0,0]]", "unexpected element after `args`"),
        ("[7]", "missing field `id`"),
    ] {
        let detail = parse_error_of(parse_response(&format!("```tool_calls\n{body}\n```")));
        assert_eq!(detail, format!("tool_calls JSON: {expected}"));
        assert_eq!(tool_calls_from_json(body), Err(expected.to_string()));
        assert_eq!(tool_calls_from_value(&value(body)), Err(expected.to_string()));
    }
}

#[test]
fn field_given_twice_is_rejected() {
    for body in [
        "[{\"id\":\"1\",\"id\":\"2\",\"name\":\"f\",\"args\":1}]",
        "[{\"id\":\"1\",\"name\":\"f\",\"args\":1,\"name\" \n :\"f\"}]",
        "[{\"id\":\"1\",\"args\":{\"x\":[]},\"name\":\"f\",\"\\u0061rgs\":1}]",
        "[[\"1\",\"f\",0],{\"id\":\"1\",\"name\":\"f\",\"args\":1,\"id\":\"1\"}]",
    ] {
        assert_eq!(
            parse_error_of(parse_response(&format!("```tool_calls\n{body}\n```"))),
            "tool_calls JSON: duplicate field"
        );
        assert!(gives_field_twice(body));
    }
    for body in [
        "[{\"id\":\"1\",\"name\":\"f\",\"args\":1},{\"id\":\"1\",\"name\":\"f\",\"args\":1}]",
        "[{\"id\":\"id\",\"name\":\"name\",\"args\":\"args\"}]",
        "[{\"id\":\"1\",\"x\":1,\"x\":2,\"name\":\"f\",\"args\":{\"id\":1,\"args\":{\"id\":2}}}]",
        "[{\"id\":\"\\\",{[\\\"id\\\":\",\"name\":\"f\",\"args\":[\"id\",\"id\"]}]",
    ] {
        calls_of(parse_response(&format!("```tool_calls\n{body}\n```")));
        assert!(!gives_field_twice(body));
    }
}

#[test]
fn first_bad_call_decides() {
    assert_eq!(
        tool_calls_from_json(
            "[{\"id\":\"1\",\"name\":\"f\",\"args\":1},{\"id\":\"2\"},{\"name\":\"g\"}]"
        ),
        Err("missing field `name`".to_string())
    );
}

#[test]
fn decoded_calls_decide_over_the_text() {
    let calls = vec![call("1", "f", "{}")];
    assert_eq!(
        calls_of(decide_response("text", Some(Ok(calls.clone())))),
        calls
    );
    assert_eq!(answer_of(decide_response(" text ", Some(Ok(vec![])))), "text");
    assert_eq!(answer_of(decide_response(" text ", None)), "text");
    assert_eq!(
        parse_error_of(decide_response("text", Some(Err("why".into())))),
        "tool_calls JSON: why"
    );
}

#[test]
fn fence_is_the_first_of_its_tag() {
    assert_eq!(
        extract_fence("a ```x\none``` ```x\ntwo```", "x"),
        Some(("a ", "one"))
    );
    assert_eq!(
        extract_fence("```y\n1``` ```x trailing\n2\n```", "x"),
        Some(("```y\n1``` ", "2\n"))
    );
    assert_eq!(extract_fence("é```x\nü```", "x"), Some(("é", "ü")));
    assert_eq!(extract_fence("```x\n```", "x"), Some(("", "")));
    assert_eq!(extract_fence("```x body```", "x"), None);
    assert_eq!(extract_fence("no fence", "x"), None);
    assert_eq!(extract_fence("```xs\nbody```", "x"), Some(("", "body")));
}

#[test]
fn messages_keep_role_and_text() {
    let messages = vec![
        Message::system("s"),
        Message::user("u"),
        Message::assistant_text("a"),
        Message::tool_result(&ToolResult {
            call_id: "1".into(),
            output: value("{\"b\":1}"),
            error: None,
        }),
    ];
    let out = to_autoagents_messages(&messages);
    assert_eq!(out.len(), 4);
    assert_eq!((out[0].role, out[0].content.as_str()), (Role::System, "s"));
    assert_eq!((out[1].role, out[1].content.as_str()), (Role::User, "u"));
    assert_eq!((out[2].role, out[2].content.as_str()), (Role::Assistant, "a"));
    assert_eq!((out[3].role, out[3].content.as_str()), (Role::Tool, "{\"b\":1}"));
}

#[test]
fn tool_calls_are_rendered_as_a_fence() {
    let mut message = Message::assistant_with_tools(vec![
        call("1", "ad\"d", "{\"a\": 1}"),
        call("2", "neg", "[]"),
    ]);
    message.content = "Using tools.".into();
    let out = to_autoagents_messages(&[message]);
    assert_eq!(out[0].role, Role::Assistant);
    assert_eq!(
        out[0].content,
        "Using tools.\n```tool_calls\n[{\"id\":\"1\",\"name\":\"ad\\\"d\",\"args\":{\"a\":1}},\
         {\"id\":\"2\",\"name\":\"neg\",\"args\":[]}]\n```"
    );
}

#[test]
fn rendered_tool_calls_are_read_back() {
    let calls = vec![
        call("c-1", "add \u{1F980}\n\\", "{\"a\":1,\"b\":[true,null,\"x\"]}"),
        call("c-2", "neg", "-3"),
    ];
    let message = Message::assistant_with_tools(calls.clone());
    let out = to_autoagents_messages(&[message]);
    assert_eq!(calls_of(parse_response(&out[0].content)), calls);
}

#[test]
fn native_calls_come_before_text() {
    let reply = ChatReply {
        tool_calls: Some(vec![
            native("1", "add", "{\"a\":1}"),
            native("2", "now", "  \n"),
            native("3", "none", ""),
        ]),
        text: Some("ignored".into()),
    };
    assert_eq!(
        calls_of(chat_response(Ok(reply))),
        vec![
            call("1", "add", "{\"a\":1}"),
            call("2", "now", "{}"),
            call("3", "none", "{}"),
        ]
    );
}

#[test]
fn bad_native_arguments_are_a_parse_error() {
    let reply = ChatReply {
        tool_calls: Some(vec![native("1", "ok", "{}"), native("2", "bad", "{nope")]),
        text: None,
    };
    let parse_error = serde_json::from_str::<serde_json::Value>("{nope").unwrap_err();
    assert_eq!(
        parse_error_of(chat_response(Ok(reply))),
        format!("tool 'bad' arguments not valid JSON: {parse_error}")
    );
}

#[test]
fn reply_without_native_calls_goes_by_its_text() {
    let none = ChatReply {
        tool_calls: None,
        text: Some(" fine ".into()),
    };
    assert_eq!(answer_of(chat_response(Ok(none))), "fine");
    let empty = ChatReply {
        tool_calls: Some(vec![]),
        text: Some("```tool_calls\n[[\"1\",\"f\",{}]]\n```".into()),
    };
    assert_eq!(calls_of(chat_response(Ok(empty))), vec![call("1", "f", "{}")]);
    let silent = ChatReply {
        tool_calls: None,
        text: None,
    };
    assert_eq!(parse_error_of(chat_response(Ok(silent))), "empty LLM response");
}

#[test]
fn provider_error_is_passed_on() {
    match chat_response(Err("rate limit".into())) {
        Err(AgentError::Llm(detail)) => assert_eq!(detail, "rate limit"),
        other => panic!("expected Llm, got {other:?}"),
    }
}

#[test]
fn request_carries_messages_tools_and_schema() {
    let schema = StructuredOutputFormat {
        name: "n".into(),
        description: None,
        schema: Some(value("{\"type\":\"object\"}")),
        strict: None,
    };
    let tools = vec![ToolSchema {
        name: "t".into(),
        description: "d".into(),
        args_schema: value("{}"),
    }];
    let request = chat_request(&[Message::user("q")], &tools, Some(schema.clone()));
    assert_eq!(request.messages.len(), 1);
    assert_eq!(request.messages[0].content, "q");
    assert_eq!(request.tools.len(), 1);
    assert_eq!(request.tools[0].function.name, "t");
    assert_eq!(request.output_schema, Some(schema));
    assert!(chat_request(&[], &[], None).output_schema.is_none());
}
