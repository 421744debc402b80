//! The conversation as a provider sees it, and the parser that turns a
//! provider's reply into an [`LlmResponse`].
//!
//! The types of this module hold what a provider's request and reply consist
//! of as plain values; the worker converts them where it calls the provider.

use autoagents_llm::chat::StructuredOutputFormat;
use serde_json::Value;
use vstd::prelude::*;

use crate::error::{AgentError, AgentErrorView};
use crate::fields::{gives_field_twice, repeats_field};
use crate::json::{
    copy_value, empty_object, error_text, holds_call, holds_calls, json_empty_object, json_escaped,
    json_escaped_char, json_field, json_items, json_parse, json_quoted, json_str, json_text,
    parse_json, quoted_text, survives, value_field, value_items, value_str, value_text,
};
use crate::state::{
    call_views, message_views, schema_views, text_view, LlmResponse, LlmResponseView, Message,
    MessageView, Role, ToolCall, ToolCallView, ToolSchema, ToolSchemaView,
};
use crate::text::{
    chars_of, find, find_from, is_white_space, join, joined, law_joining_is_associative,
    law_joining_one_part, law_trimming_cuts_white_space_only, lemma_find_from_is_first,
    lemma_find_from_unique, lemma_trimmed_ends, lemma_trimmed_keeps, string_views, trim, trimmed,
};

verus! {

/// A message of the request to a provider. Its content is always text.
#[derive(Debug)]
pub struct ChatMessage {
    pub role: Role,
    pub content: String,
}

/// Contents of a [`ChatMessage`].
#[verifier::ext_equal]
pub struct ChatMessageView {
    pub role: Role,
    pub content: Seq<char>,
}

impl View for ChatMessage {
    type V = ChatMessageView;

    open spec fn view(&self) -> ChatMessageView {
        ChatMessageView { role: self.role, content: self.content@ }
    }
}

/// The contents of each message of a request.
pub open spec fn chat_views(messages: Seq<ChatMessage>) -> Seq<ChatMessageView> {
    Seq::new(messages.len(), |i: int| messages[i]@)
}

/// A function that a provider may offer to the model.
#[derive(Debug)]
pub struct FunctionTool {
    pub name: String,
    pub description: String,
    pub parameters: Value,
}

/// A tool that a provider may offer to the model.
#[derive(Debug)]
pub struct Tool {
    pub tool_type: String,
    pub function: FunctionTool,
}

/// Contents of a [`Tool`].
#[verifier::ext_equal]
pub struct ToolView {
    pub tool_type: Seq<char>,
    pub name: Seq<char>,
    pub description: Seq<char>,
    pub parameters: Value,
}

impl View for Tool {
    type V = ToolView;

    open spec fn view(&self) -> ToolView {
        ToolView {
            tool_type: self.tool_type@,
            name: self.function.name@,
            description: self.function.description@,
            parameters: self.function.parameters,
        }
    }
}

/// The contents of each tool of a request.
pub open spec fn tool_views(tools: Seq<Tool>) -> Seq<ToolView> {
    Seq::new(tools.len(), |i: int| tools[i]@)
}

/// The JSON text of a tool call.
pub open spec fn call_json(call: ToolCallView) -> Seq<char> {
    "{\"id\":"@ + json_quoted(call.id) + ",\"name\":"@ + json_quoted(call.name) + ",\"args\":"@
        + json_text(call.args) + "}"@
}

/// The JSON text of a list of tool calls.
pub open spec fn calls_json(calls: Seq<ToolCallView>) -> Seq<char> {
    "["@ + joined(Seq::new(calls.len(), |i: int| call_json(calls[i])), ","@) + "]"@
}

/// The content of a message as a provider sees it. Tool calls follow the text as
/// a fenced JSON block, so that providers without native tool calls see them.
pub open spec fn rendered(message: MessageView) -> Seq<char> {
    if message.tool_calls.len() == 0 {
        message.content
    } else {
        message.content + "\n```tool_calls\n"@ + calls_json(message.tool_calls) + "\n```"@
    }
}

fn call_text(call: &ToolCall) -> (r: String)
    ensures
        r@ == call_json(call@),
{
    let mut out = "{\"id\":".to_owned();
    if let Ok(id) = quoted_text(call.id.as_str()) {
        out.append(id.as_str());
    }
    out.append(",\"name\":");
    if let Ok(name) = quoted_text(call.name.as_str()) {
        out.append(name.as_str());
    }
    out.append(",\"args\":");
    out.append(value_text(&call.args).as_str());
    out.append("}");
    out
}

fn calls_text(calls: &Vec<ToolCall>) -> (r: String)
    ensures
        r@ == calls_json(call_views(calls@)),
{
    let mut parts: Vec<String> = Vec::new();
    let mut i: usize = 0;
    while i < calls.len()
        invariant
            i <= calls.len(),
            parts.len() == i,
            forall|j: int| 0 <= j < i ==> parts@[j]@ == call_json(#[trigger] calls@[j]@),
        decreases calls.len() - i,
    {
        parts.push(call_text(&calls[i]));
        i = i + 1;
    }
    assert(string_views(parts@) =~= Seq::new(
        call_views(calls@).len(),
        |i: int| call_json(call_views(calls@)[i]),
    ));
    "[".to_owned().concat(join(&parts, ",").as_str()).concat("]")
}

fn render_content(m: &Message) -> (r: String)
    ensures
        r@ == rendered(m@),
{
    if m.tool_calls.len() == 0 {
        m.content.clone()
    } else {
        m.content.clone().concat("\n```tool_calls\n").concat(
            calls_text(&m.tool_calls).as_str(),
        ).concat("\n```")
    }
}

/// Converts messages to the shape of a provider's request.
pub fn to_autoagents_messages(messages: &[Message]) -> (r: Vec<ChatMessage>)
    ensures
        chat_views(r@) == message_views(messages@).map_values(
            |m: MessageView| ChatMessageView { role: m.role, content: rendered(m) },
        ),
{
    let mut out: Vec<ChatMessage> = Vec::new();
    let mut i: usize = 0;
    while i < messages.len()
        invariant
            i <= messages.len(),
            out.len() == i,
            forall|j: int|
                0 <= j < i ==> (#[trigger] out@[j])@ == (ChatMessageView {
                    role: messages@[j].role,
                    content: rendered(messages@[j]@),
                }),
        decreases messages.len() - i,
    {
        out.push(ChatMessage { role: messages[i].role, content: render_content(&messages[i]) });
        i = i + 1;
    }
    assert(chat_views(out@) =~= message_views(messages@).map_values(
        |m: MessageView| ChatMessageView { role: m.role, content: rendered(m) },
    ));
    out
}

/// A tool schema as a provider advertises it.
pub open spec fn advertised(schema: ToolSchemaView) -> ToolView {
    ToolView {
        tool_type: "function"@,
        name: schema.name,
        description: schema.description,
        parameters: schema.args_schema,
    }
}

/// Converts tool schemas to the tools of a provider's request.
pub fn to_autoagents_tools(schemas: &[ToolSchema]) -> (r: Vec<Tool>)
    ensures
        tool_views(r@) == schema_views(schemas@).map_values(|s: ToolSchemaView| advertised(s)),
{
    let mut out: Vec<Tool> = Vec::new();
    let mut i: usize = 0;
    while i < schemas.len()
        invariant
            i <= schemas.len(),
            out.len() == i,
            forall|j: int| 0 <= j < i ==> (#[trigger] out@[j])@ == advertised(schemas@[j]@),
        decreases schemas.len() - i,
    {
        out.push(
            Tool {
                tool_type: "function".to_owned(),
                function: FunctionTool {
                    name: schemas[i].name.clone(),
                    description: schemas[i].description.clone(),
                    parameters: copy_value(&schemas[i].args_schema),
                },
            },
        );
        i = i + 1;
    }
    assert(tool_views(out@) =~= schema_views(schemas@).map_values(
        |s: ToolSchemaView| advertised(s),
    ));
    out
}

/// Where the first fenced block with this tag stands: the index of its opener,
/// and those of the beginning and the end of its body.
///
/// A block opens with three backticks and the tag, its body starts on the next
/// line, and it ends before the next three backticks.
pub open spec fn fence_span(text: Seq<char>, tag: Seq<char>) -> Option<(int, int, int)> {
    let opener = "```"@ + tag;
    match find_from(text, opener, 0) {
        None => None,
        Some(start) => match find_from(text, "\n"@, start + opener.len()) {
            None => None,
            Some(newline) => match find_from(text, "```"@, newline + 1) {
                None => None,
                Some(end) => Some((start, newline + 1, end)),
            },
        },
    }
}

/// The text before the first fenced block with this tag, and the block's body.
pub open spec fn fence(text: Seq<char>, tag: Seq<char>) -> Option<(Seq<char>, Seq<char>)> {
    match fence_span(text, tag) {
        None => None,
        Some((start, body, end)) => Some((text.take(start), text.subrange(body, end))),
    }
}

/// What is outside the first fenced block with this tag: the text before its
/// opener and the text after its closing backticks. The whole text where there
/// is no such block.
pub open spec fn outside_fence(text: Seq<char>, tag: Seq<char>) -> Seq<char> {
    match fence_span(text, tag) {
        None => text,
        Some((start, _, end)) => text.take(start) + text.skip(end + 3),
    }
}

fn find_fence(text: &str, tag: &str) -> (r: Option<(usize, usize, usize)>)
    ensures
        match r {
            Some((start, body, end)) => {
                &&& fence_span(text@, tag@) == Some((start as int, body as int, end as int))
                &&& start <= body <= end
                &&& end + 3 <= text@.len()
            },
            None => fence_span(text@, tag@) is None,
        },
{
    proof {
        reveal_strlit("\n");
        reveal_strlit("```");
        lemma_find_from_is_first(text@, "```"@ + tag@, 0);
    }
    let chars = chars_of(text);
    let opener = chars_of("```".to_owned().concat(tag).as_str());
    let start: usize = match find(&chars, &opener, 0) {
        Some(at) => at,
        None => return None,
    };
    let newline: usize = match find(&chars, &chars_of("\n"), start + opener.len()) {
        Some(at) => at,
        None => return None,
    };
    proof {
        lemma_find_from_is_first(text@, "\n"@, start + opener.len());
        lemma_find_from_is_first(text@, "```"@, newline + 1);
    }
    match find(&chars, &chars_of("```"), newline + 1) {
        Some(end) => Some((start, newline + 1, end)),
        None => None,
    }
}

/// Finds the first fenced block tagged `tag`: the text before it and its body.
pub fn extract_fence<'a>(text: &'a str, tag: &str) -> (r: Option<(&'a str, &'a str)>)
    ensures
        match r {
            Some((before, body)) => fence(text@, tag@) == Some((before@, body@)),
            None => fence(text@, tag@) is None,
        },
{
    match find_fence(text, tag) {
        Some((start, body, end)) => {
            let before = text.substring_char(0, start);
            assert(before@ =~= text@.take(start as int));
            Some((before, text.substring_char(body, end)))
        },
        None => None,
    }
}

/// What is outside the first fenced block tagged `tag`.
pub fn text_outside_fence(text: &str, tag: &str) -> (r: String)
    ensures
        r@ == outside_fence(text@, tag@),
{
    match find_fence(text, tag) {
        Some((start, _, end)) => {
            let length: usize = chars_of(text).len();
            let before = text.substring_char(0, start);
            let after = text.substring_char(end + 3, length);
            assert(before@ =~= text@.take(start as int));
            assert(after@ =~= text@.skip(end + 3));
            before.to_owned().concat(after)
        },
        None => text.to_owned(),
    }
}

/// A text that a tool call holds under `key`, out of the JSON value found there.
pub open spec fn call_text_part(value: Option<Value>, key: Seq<char>) -> Result<
    Seq<char>,
    Seq<char>,
> {
    match value {
        None => Err("missing field `"@ + key + "`"@),
        Some(v) => match json_str(v) {
            None => Err("field `"@ + key + "` is not a string"@),
            Some(text) => Ok(text),
        },
    }
}

/// A tool call out of the JSON values found for its parts.
pub open spec fn call_of_parts(
    id: Option<Value>,
    name: Option<Value>,
    args: Option<Value>,
) -> Result<ToolCallView, Seq<char>> {
    match call_text_part(id, "id"@) {
        Err(detail) => Err(detail),
        Ok(id) => match call_text_part(name, "name"@) {
            Err(detail) => Err(detail),
            Ok(name) => match args {
                None => Err("missing field `args`"@),
                Some(args) => Ok(ToolCallView { id, name, args }),
            },
        },
    }
}

/// The item at an index, where there is one.
pub open spec fn item_at(items: Seq<Value>, i: int) -> Option<Value> {
    if 0 <= i < items.len() {
        Some(items[i])
    } else {
        None
    }
}

/// The tool call that a JSON value stands for, or what is wrong with it: an
/// object with the fields `id`, `name` and `args`, or an array of the three.
/// Other fields are ignored.
pub open spec fn call_of_value(value: Value) -> Result<ToolCallView, Seq<char>> {
    match json_items(value) {
        Some(items) => if items.len() > 3 {
            Err("unexpected element after `args`"@)
        } else {
            call_of_parts(item_at(items, 0), item_at(items, 1), item_at(items, 2))
        },
        None => call_of_parts(
            json_field(value, "id"@),
            json_field(value, "name"@),
            json_field(value, "args"@),
        ),
    }
}

/// The tool calls that JSON values stand for, or what is wrong with the first
/// that stands for none.
pub open spec fn calls_of_items(items: Seq<Value>) -> Result<Seq<ToolCallView>, Seq<char>>
    decreases items.len(),
{
    if items.len() == 0 {
        Ok(Seq::empty())
    } else {
        match calls_of_items(items.drop_last()) {
            Err(detail) => Err(detail),
            Ok(before) => match call_of_value(items.last()) {
                Err(detail) => Err(detail),
                Ok(call) => Ok(before.push(call)),
            },
        }
    }
}

/// The list of tool calls that a JSON value stands for, or what is wrong with
/// it.
pub open spec fn calls_of_value(value: Value) -> Result<Seq<ToolCallView>, Seq<char>> {
    match json_items(value) {
        None => Err("expected an array of tool calls"@),
        Some(items) => calls_of_items(items),
    }
}

/// The list of tool calls that a JSON text stands for, or what is wrong with it.
/// A call may give none of its fields twice; in a text that is just what is
/// printed of these calls, none does.
pub open spec fn calls_of_json(text: Seq<char>) -> Result<Seq<ToolCallView>, Seq<char>> {
    match json_parse(text) {
        Err(detail) => Err(detail),
        Ok(value) => match calls_of_value(value) {
            Err(detail) => Err(detail),
            Ok(calls) => if text != calls_json(calls) + "\n"@ && repeats_field(text) {
                Err("duplicate field"@)
            } else {
                Ok(calls)
            },
        },
    }
}

/// The contents of decoded tool calls.
pub open spec fn decoded_view(decoded: Result<Vec<ToolCall>, String>) -> Result<
    Seq<ToolCallView>,
    Seq<char>,
> {
    match decoded {
        Ok(calls) => Ok(call_views(calls@)),
        Err(detail) => Err(detail@),
    }
}

/// The contents of a parsed reply.
pub open spec fn response_view(response: Result<LlmResponse, AgentError>) -> Result<
    LlmResponseView,
    AgentErrorView,
> {
    match response {
        Ok(response) => Ok(response@),
        Err(error) => Err(error@),
    }
}

/// The optional value behind an optional reference.
pub open spec fn behind(value: Option<&Value>) -> Option<Value> {
    match value {
        Some(v) => Some(*v),
        None => None,
    }
}

fn text_part(value: Option<&Value>, key: &str) -> (r: Result<String, String>)
    ensures
        match r {
            Ok(text) => call_text_part(behind(value), key@) == Ok::<Seq<char>, Seq<char>>(text@),
            Err(detail) => call_text_part(behind(value), key@) == Err::<Seq<char>, Seq<char>>(
                detail@,
            ),
        },
{
    match value {
        None => Err("missing field `".to_owned().concat(key).concat("`")),
        Some(v) => match value_str(v) {
            None => Err("field `".to_owned().concat(key).concat("` is not a string")),
            Some(text) => Ok(text.to_owned()),
        },
    }
}

fn call_from_parts(id: Option<&Value>, name: Option<&Value>, args: Option<&Value>) -> (r: Result<
    ToolCall,
    String,
>)
    ensures
        match r {
            Ok(call) => call_of_parts(behind(id), behind(name), behind(args)) == Ok::<
                ToolCallView,
                Seq<char>,
            >(call@),
            Err(detail) => call_of_parts(behind(id), behind(name), behind(args)) == Err::<
                ToolCallView,
                Seq<char>,
            >(detail@),
        },
{
    let id = match text_part(id, "id") {
        Ok(id) => id,
        Err(detail) => return Err(detail),
    };
    let name = match text_part(name, "name") {
        Ok(name) => name,
        Err(detail) => return Err(detail),
    };
    match args {
        None => Err("missing field `args`".to_owned()),
        Some(args) => Ok(ToolCall { id, name, args: copy_value(args) }),
    }
}

fn item(items: &Vec<Value>, i: usize) -> (r: Option<&Value>)
    ensures
        behind(r) == item_at(items@, i as int),
{
    if i < items.len() {
        Some(&items[i])
    } else {
        None
    }
}

fn call_from_value(value: &Value) -> (r: Result<ToolCall, String>)
    ensures
        match r {
            Ok(call) => call_of_value(*value) == Ok::<ToolCallView, Seq<char>>(call@),
            Err(detail) => call_of_value(*value) == Err::<ToolCallView, Seq<char>>(detail@),
        },
{
    match value_items(value) {
        Some(items) => if items.len() > 3 {
            Err("unexpected element after `args`".to_owned())
        } else {
            call_from_parts(item(items, 0), item(items, 1), item(items, 2))
        },
        None => call_from_parts(
            value_field(value, "id"),
            value_field(value, "name"),
            value_field(value, "args"),
        ),
    }
}

/// Reads a list of tool calls out of a JSON value.
pub fn tool_calls_from_value(value: &Value) -> (r: Result<Vec<ToolCall>, String>)
    ensures
        decoded_view(r) == calls_of_value(*value),
{
    let items = match value_items(value) {
        Some(items) => items,
        None => return Err("expected an array of tool calls".to_owned()),
    };
    let mut calls: Vec<ToolCall> = Vec::new();
    let mut i: usize = 0;
    assert(call_views(calls@) =~= Seq::empty());
    while i < items.len()
        invariant
            i <= items.len(),
            calls_of_items(items@.take(i as int)) == Ok::<Seq<ToolCallView>, Seq<char>>(
                call_views(calls@),
            ),
            calls_of_value(*value) == calls_of_items(items@),
        decreases items.len() - i,
    {
        assert(items@.take(i + 1).drop_last() =~= items@.take(i as int));
        let ghost before = calls@;
        match call_from_value(&items[i]) {
            Ok(call) => {
                calls.push(call);
                assert(call_views(calls@) =~= call_views(before).push(call@));
            },
            Err(detail) => {
                proof {
                    lemma_first_bad_item(items@, i + 1);
                }
                return Err(detail);
            },
        }
        i = i + 1;
    }
    assert(items@.take(i as int) =~= items@);
    Ok(calls)
}

/// What is wrong with some of the first items is wrong with all of them.
proof fn lemma_first_bad_item(items: Seq<Value>, n: int)
    requires
        0 <= n <= items.len(),
        calls_of_items(items.take(n)) is Err,
    ensures
        calls_of_items(items) == calls_of_items(items.take(n)),
    decreases items.len() - n,
{
    if n == items.len() {
        assert(items.take(n) =~= items);
    } else {
        assert(items.take(n + 1).drop_last() =~= items.take(n));
        lemma_first_bad_item(items, n + 1);
    }
}

/// Objects that hold calls stand for those calls.
proof fn lemma_held_calls(items: Seq<Value>, calls: Seq<ToolCallView>)
    requires
        items.len() == calls.len(),
        forall|i: int| 0 <= i < calls.len() ==> holds_call(items[i], #[trigger] calls[i]),
    ensures
        calls_of_items(items) == Ok::<Seq<ToolCallView>, Seq<char>>(calls),
    decreases items.len(),
{
    if items.len() == 0 {
        assert(calls =~= Seq::empty());
    } else {
        assert forall|i: int| 0 <= i < calls.len() - 1 implies holds_call(
            items.drop_last()[i],
            #[trigger] calls.drop_last()[i],
        ) by {
            assert(holds_call(items[i], calls[i]));
        }
        lemma_held_calls(items.drop_last(), calls.drop_last());
        assert(holds_call(items.last(), calls[calls.len() - 1]));
        assert(calls.drop_last().push(calls.last()) =~= calls);
    }
}

/// Whether the arguments of each call are read back as they were printed.
pub open spec fn all_survive(calls: Seq<ToolCallView>) -> bool {
    forall|i: int| 0 <= i < calls.len() ==> survives((#[trigger] calls[i]).args)
}

/// Reads a list of tool calls out of a JSON text. What was printed of tool calls
/// is read back as those calls.
pub fn tool_calls_from_json(text: &str) -> (r: Result<Vec<ToolCall>, String>)
    ensures
        decoded_view(r) == calls_of_json(text@),
        forall|calls: Seq<ToolCallView>|
            text@ == #[trigger] calls_json(calls) + "\n"@ && all_survive(calls) ==> decoded_view(r)
                == Ok::<Seq<ToolCallView>, Seq<char>>(calls),
{
    match parse_json(text) {
        Ok(value) => {
            proof {
                assert forall|calls: Seq<ToolCallView>|
                    text@ == #[trigger] calls_json(calls) + "\n"@ && all_survive(
                        calls,
                    ) implies calls_of_json(text@) == Ok::<Seq<ToolCallView>, Seq<char>>(
                    calls,
                ) by {
                    assert(holds_calls(value, calls));
                    lemma_held_calls(json_items(value)->0, calls);
                }
            }
            let calls = match tool_calls_from_value(&value) {
                Ok(calls) => calls,
                Err(detail) => return Err(detail),
            };
            // What the library prints itself needs no second look.
            let printed = calls_text(&calls).concat("\n");
            if text.to_owned() != printed && gives_field_twice(text) {
                return Err("duplicate field".to_owned());
            }
            Ok(calls)
        },
        Err(error) => Err(error_text(&error)),
    }
}

/// A reply that is taken as the final answer: its text without surrounding
/// white space, unless nothing is left.
pub open spec fn final_response(text: Seq<char>) -> Result<LlmResponseView, AgentErrorView> {
    let answer = trimmed(text);
    if answer.len() == 0 {
        Err(AgentErrorView::ResponseParse("empty LLM response"@))
    } else {
        Ok(LlmResponseView::Final { answer })
    }
}

/// The response that a text reply means, given what its fenced tool calls were
/// decoded to, if it has any. Where the block lists none, what is outside of it
/// is the answer.
pub open spec fn response_of(
    text: Seq<char>,
    decoded: Option<Result<Seq<ToolCallView>, Seq<char>>>,
) -> Result<LlmResponseView, AgentErrorView> {
    match decoded {
        Some(Err(detail)) => Err(AgentErrorView::ResponseParse("tool_calls JSON: "@ + detail)),
        Some(Ok(calls)) => if calls.len() > 0 {
            Ok(LlmResponseView::UseTools { calls })
        } else {
            final_response(outside_fence(text, "tool_calls"@))
        },
        None => final_response(text),
    }
}

/// The response that a text reply means.
pub open spec fn parsed_response(text: Seq<char>) -> Result<LlmResponseView, AgentErrorView> {
    response_of(
        text,
        match fence(text, "tool_calls"@) {
            Some((_, body)) => Some(calls_of_json(body)),
            None => None,
        },
    )
}

/// Whether a text holds no three backticks in a row.
pub open spec fn no_fence(text: Seq<char>) -> bool {
    find_from(text, "```"@, 0) is None
}

/// The messages that are read back from what a provider sees of them: they ask
/// for tools, their text opens no block of tool calls, three backticks in a row
/// occur in no id, no name and no arguments, and the arguments are read back as
/// they were printed.
pub open spec fn reads_back(message: MessageView) -> bool {
    &&& message.tool_calls.len() > 0
    &&& find_from(message.content, "```"@ + "tool_calls"@, 0) is None
    &&& forall|i: int|
        0 <= i < message.tool_calls.len() ==> {
            &&& no_fence((#[trigger] message.tool_calls[i]).id)
            &&& no_fence(message.tool_calls[i].name)
            &&& no_fence(json_text(message.tool_calls[i].args))
        }
    &&& all_survive(message.tool_calls)
}

/// Decides what a text reply means, given what its fenced tool calls were
/// decoded to, if it has any.
pub fn decide_response(text: &str, decoded: Option<Result<Vec<ToolCall>, String>>) -> (r: Result<
    LlmResponse,
    AgentError,
>)
    ensures
        response_view(r) == response_of(
            text@,
            match decoded {
                Some(d) => Some(decoded_view(d)),
                None => None,
            },
        ),
{
    match decoded {
        Some(Ok(calls)) => {
            if calls.len() > 0 {
                return Ok(LlmResponse::UseTools { calls });
            }
            final_answer(text_outside_fence(text, "tool_calls").as_str())
        },
        Some(Err(detail)) => Err(
            AgentError::ResponseParse("tool_calls JSON: ".to_owned().concat(detail.as_str())),
        ),
        None => final_answer(text),
    }
}

fn final_answer(text: &str) -> (r: Result<LlmResponse, AgentError>)
    ensures
        response_view(r) == final_response(text@),
{
    let answer = trim(text);
    if answer.is_empty() {
        return Err(AgentError::ResponseParse("empty LLM response".to_owned()));
    }
    Ok(LlmResponse::Final { answer: answer.to_owned() })
}

/// Parses an assistant's text into either tool calls or a final answer.
///
/// Tool calls are detected via a fenced JSON block tagged `tool_calls`:
///
/// ````text
/// I'll add those for you.
/// ```tool_calls
/// [{"id": "1", "name": "add", "args": {"a": 1, "b": 2}}]
/// ```
/// ````
///
/// Anything outside the block, or the whole text if there is none, is taken as
/// the final answer. A block that lists calls comes first: then the response is
/// to run them.
///
/// A message that is rendered with tool calls is read back as just those calls,
/// under the conditions of [`reads_back`].
pub fn parse_response(text: &str) -> (r: Result<LlmResponse, AgentError>)
    ensures
        response_view(r) == parsed_response(text@),
        forall|message: MessageView|
            text@ == #[trigger] rendered(message) && reads_back(message) ==> response_view(r)
                == Ok::<LlmResponseView, AgentErrorView>(
                LlmResponseView::UseTools { calls: message.tool_calls },
            ),
{
    let decoded = match extract_fence(text, "tool_calls") {
        Some((_, body)) => Some(tool_calls_from_json(body)),
        None => None,
    };
    proof {
        assert forall|message: MessageView|
            text@ == #[trigger] rendered(message) && reads_back(message) implies parsed_response(
            text@,
        ) == Ok::<LlmResponseView, AgentErrorView>(
            LlmResponseView::UseTools { calls: message.tool_calls },
        ) by {
            lemma_calls_json_has_no_fence(message.tool_calls);
            law_rendered_calls_are_found(message);
        }
    }
    decide_response(text, decoded)
}

/// A tool call in a provider's own reply format. The arguments are JSON text.
#[derive(Debug)]
pub struct NativeToolCall {
    pub id: String,
    pub name: String,
    pub arguments: String,
}

/// Contents of a [`NativeToolCall`].
#[verifier::ext_equal]
pub struct NativeToolCallView {
    pub id: Seq<char>,
    pub name: Seq<char>,
    pub arguments: Seq<char>,
}

impl View for NativeToolCall {
    type V = NativeToolCallView;

    open spec fn view(&self) -> NativeToolCallView {
        NativeToolCallView { id: self.id@, name: self.name@, arguments: self.arguments@ }
    }
}

/// The contents of each native tool call.
pub open spec fn native_views(calls: Seq<NativeToolCall>) -> Seq<NativeToolCallView> {
    Seq::new(calls.len(), |i: int| calls[i]@)
}

/// What a provider replied.
#[derive(Debug)]
pub struct ChatReply {
    pub tool_calls: Option<Vec<NativeToolCall>>,
    pub text: Option<String>,
}

/// Contents of a [`ChatReply`].
#[verifier::ext_equal]
pub struct ChatReplyView {
    pub tool_calls: Option<Seq<NativeToolCallView>>,
    pub text: Option<Seq<char>>,
}

impl View for ChatReply {
    type V = ChatReplyView;

    open spec fn view(&self) -> ChatReplyView {
        ChatReplyView {
            tool_calls: match self.tool_calls {
                Some(calls) => Some(native_views(calls@)),
                None => None,
            },
            text: text_view(self.text),
        }
    }
}

/// The arguments that a native tool call's text stands for. Blank text stands
/// for no arguments.
pub open spec fn native_args(arguments: Seq<char>) -> Result<Value, Seq<char>> {
    if trimmed(arguments).len() == 0 {
        Ok(json_empty_object())
    } else {
        json_parse(arguments)
    }
}

/// The tool calls that native ones stand for, or the error of the first whose
/// arguments are no JSON.
pub open spec fn native_calls(calls: Seq<NativeToolCallView>) -> Result<
    Seq<ToolCallView>,
    AgentErrorView,
>
    decreases calls.len(),
{
    if calls.len() == 0 {
        Ok(Seq::empty())
    } else {
        let call = calls.last();
        match native_calls(calls.drop_last()) {
            Err(error) => Err(error),
            Ok(before) => match native_args(call.arguments) {
                Ok(args) => Ok(before.push(ToolCallView { id: call.id, name: call.name, args })),
                Err(detail) => Err(
                    AgentErrorView::ResponseParse(
                        "tool '"@ + call.name + "' arguments not valid JSON: "@ + detail,
                    ),
                ),
            },
        }
    }
}

/// The text of a reply; empty where it has none.
pub open spec fn reply_text(reply: ChatReplyView) -> Seq<char> {
    match reply.text {
        Some(text) => text,
        None => Seq::empty(),
    }
}

/// The JSON text in a reply that is to be decoded to tool calls, if it has any:
/// the body of the block in its text, unless it has native tool calls.
pub open spec fn fenced_json(reply: ChatReplyView) -> Option<Seq<char>> {
    if reply.tool_calls is Some && reply.tool_calls->0.len() > 0 {
        None
    } else {
        match fence(reply_text(reply), "tool_calls"@) {
            Some((_, body)) => Some(body),
            None => None,
        }
    }
}

/// The response that a provider's reply means, given what its fenced JSON text
/// was decoded to, if it has any. Native tool calls come first; without any, the
/// text decides.
pub open spec fn reply_outcome(
    reply: ChatReplyView,
    decoded: Option<Result<Seq<ToolCallView>, Seq<char>>>,
) -> Result<LlmResponseView, AgentErrorView> {
    if reply.tool_calls is Some && reply.tool_calls->0.len() > 0 {
        match native_calls(reply.tool_calls->0) {
            Ok(calls) => Ok(LlmResponseView::UseTools { calls }),
            Err(error) => Err(error),
        }
    } else {
        response_of(reply_text(reply), decoded)
    }
}

/// The response that a provider's reply, or its error, means.
pub open spec fn chat_outcome(reply: Result<ChatReplyView, Seq<char>>) -> Result<
    LlmResponseView,
    AgentErrorView,
> {
    match reply {
        Err(detail) => Err(AgentErrorView::Llm(detail)),
        Ok(reply) => reply_outcome(
            reply,
            match fenced_json(reply) {
                Some(body) => Some(calls_of_json(body)),
                None => None,
            },
        ),
    }
}

/// What is wrong with some of the first calls is wrong with all of them.
proof fn lemma_first_bad_native(calls: Seq<NativeToolCallView>, n: int)
    requires
        0 <= n <= calls.len(),
        native_calls(calls.take(n)) is Err,
    ensures
        native_calls(calls) == native_calls(calls.take(n)),
    decreases calls.len() - n,
{
    if n == calls.len() {
        assert(calls.take(n) =~= calls);
    } else {
        assert(calls.take(n + 1).drop_last() =~= calls.take(n));
        lemma_first_bad_native(calls, n + 1);
    }
}

fn args_of(arguments: &str) -> (r: Result<Value, serde_json::Error>)
    ensures
        match r {
            Ok(value) => native_args(arguments@) == Ok::<Value, Seq<char>>(value),
            Err(error) => native_args(arguments@) == Err::<Value, Seq<char>>(
                crate::json::json_error_text(error),
            ),
        },
{
    if trim(arguments).is_empty() {
        Ok(empty_object())
    } else {
        parse_json(arguments)
    }
}

/// Reads native tool calls.
pub fn tool_calls_from_native(calls: &Vec<NativeToolCall>) -> (r: Result<
    Vec<ToolCall>,
    AgentError,
>)
    ensures
        match r {
            Ok(out) => native_calls(native_views(calls@)) == Ok::<
                Seq<ToolCallView>,
                AgentErrorView,
            >(call_views(out@)),
            Err(error) => native_calls(native_views(calls@)) == Err::<
                Seq<ToolCallView>,
                AgentErrorView,
            >(error@),
        },
{
    let ghost views = native_views(calls@);
    let mut out: Vec<ToolCall> = Vec::new();
    let mut i: usize = 0;
    assert(call_views(out@) =~= Seq::empty());
    while i < calls.len()
        invariant
            i <= calls.len(),
            views == native_views(calls@),
            native_calls(views.take(i as int)) == Ok::<Seq<ToolCallView>, AgentErrorView>(
                call_views(out@),
            ),
        decreases calls.len() - i,
    {
        assert(views.take(i + 1).drop_last() =~= views.take(i as int));
        let ghost before = out@;
        let args = match args_of(calls[i].arguments.as_str()) {
            Ok(args) => args,
            Err(error) => {
                proof {
                    lemma_first_bad_native(views, i + 1);
                }
                return Err(
                    AgentError::ResponseParse(
                        "tool '".to_owned().concat(calls[i].name.as_str()).concat(
                            "' arguments not valid JSON: ",
                        ).concat(error_text(&error).as_str()),
                    ),
                );
            },
        };
        let call = ToolCall { id: calls[i].id.clone(), name: calls[i].name.clone(), args };
        out.push(call);
        assert(call_views(out@) =~= call_views(before).push(call@));
        i = i + 1;
    }
    assert(views.take(i as int) =~= views);
    Ok(out)
}

/// What a provider is asked with.
#[derive(Debug)]
pub struct ChatRequest {
    pub messages: Vec<ChatMessage>,
    pub tools: Vec<Tool>,
    pub output_schema: Option<StructuredOutputFormat>,
}

/// The request for one turn: the conversation, the tools on offer, and the
/// schema of the final answer.
pub fn chat_request(
    messages: &[Message],
    tools: &[ToolSchema],
    output_schema: Option<StructuredOutputFormat>,
) -> (r: ChatRequest)
    ensures
        chat_views(r.messages@) == message_views(messages@).map_values(
            |m: MessageView| ChatMessageView { role: m.role, content: rendered(m) },
        ),
        tool_views(r.tools@) == schema_views(tools@).map_values(|s: ToolSchemaView| advertised(s)),
        r.output_schema == output_schema,
{
    ChatRequest {
        messages: to_autoagents_messages(messages),
        tools: to_autoagents_tools(tools),
        output_schema,
    }
}

impl ChatReply {
    fn text_or_empty(&self) -> (r: &str)
        ensures
            r@ == reply_text(self@),
    {
        proof {
            reveal_strlit("");
            assert(""@ =~= Seq::empty());
        }
        match &self.text {
            Some(text) => text.as_str(),
            None => "",
        }
    }

    /// The JSON text in the reply that is to be decoded to tool calls, if it
    /// has any.
    pub fn fenced_json(&self) -> (r: Option<&str>)
        ensures
            match r {
                Some(body) => fenced_json(self@) == Some(body@),
                None => fenced_json(self@) is None,
            },
    {
        if let Some(calls) = &self.tool_calls {
            if calls.len() > 0 {
                return None;
            }
        }
        match extract_fence(self.text_or_empty(), "tool_calls") {
            Some((_, body)) => Some(body),
            None => None,
        }
    }

    /// Decides what the reply means, given what its fenced JSON text was decoded
    /// to, if it has any.
    pub fn decide(&self, decoded: Option<Result<Vec<ToolCall>, String>>) -> (r: Result<
        LlmResponse,
        AgentError,
    >)
        ensures
            response_view(r) == reply_outcome(
                self@,
                match decoded {
                    Some(d) => Some(decoded_view(d)),
                    None => None,
                },
            ),
    {
        if let Some(calls) = &self.tool_calls {
            if calls.len() > 0 {
                return match tool_calls_from_native(calls) {
                    Ok(calls) => Ok(LlmResponse::UseTools { calls }),
                    Err(error) => Err(error),
                };
            }
        }
        decide_response(self.text_or_empty(), decoded)
    }
}

/// Decides what a provider's reply means. An error of the provider is passed on
/// with its message.
pub fn chat_response(reply: Result<ChatReply, String>) -> (r: Result<LlmResponse, AgentError>)
    ensures
        response_view(r) == chat_outcome(
            match reply {
                Ok(reply) => Ok(reply@),
                Err(detail) => Err(detail@),
            },
        ),
{
    let reply = match reply {
        Ok(reply) => reply,
        Err(detail) => return Err(AgentError::Llm(detail)),
    };
    let decoded = match reply.fenced_json() {
        Some(body) => Some(tool_calls_from_json(body)),
        None => None,
    };
    reply.decide(decoded)
}

/// Native tool calls are read one for one, in order, with their ids and names.
proof fn lemma_native_calls_match(calls: Seq<NativeToolCallView>)
    requires
        native_calls(calls) is Ok,
    ensures
        native_calls(calls)->Ok_0.len() == calls.len(),
        forall|i: int|
            0 <= i < calls.len() ==> {
                &&& (#[trigger] native_calls(calls)->Ok_0[i]).id == calls[i].id
                &&& native_calls(calls)->Ok_0[i].name == calls[i].name
            },
    decreases calls.len(),
{
    if calls.len() > 0 {
        lemma_native_calls_match(calls.drop_last());
    }
}

/// A reply without native tool calls means what its text means.
pub proof fn law_text_decides_without_native_calls(reply: ChatReplyView)
    requires
        reply.tool_calls is None || reply.tool_calls->0.len() == 0,
    ensures
        chat_outcome(Ok(reply)) == parsed_response(reply_text(reply)),
{
}

/// A response that asks for tools asks for at least one.
pub proof fn law_use_tools_names_a_tool(reply: Result<ChatReplyView, Seq<char>>)
    ensures
        chat_outcome(reply) matches Ok(LlmResponseView::UseTools { calls }) ==> calls.len() > 0,
{
    if let Ok(reply) = reply {
        if reply.tool_calls is Some && reply.tool_calls->0.len() > 0 && native_calls(
            reply.tool_calls->0,
        ) is Ok {
            lemma_native_calls_match(reply.tool_calls->0);
        }
    }
}

/// Native tool calls take precedence over the text: where a reply has any, each
/// becomes one call, in order, under its own id and name.
pub proof fn law_native_calls_come_first(reply: ChatReplyView)
    requires
        reply.tool_calls is Some,
        reply.tool_calls->0.len() > 0,
    ensures
        chat_outcome(Ok(reply)) matches Ok(response) ==> {
            &&& response is UseTools
            &&& response->calls.len() == reply.tool_calls->0.len()
            &&& forall|i: int|
                0 <= i < response->calls.len() ==> {
                    &&& (#[trigger] response->calls[i]).id == reply.tool_calls->0[i].id
                    &&& response->calls[i].name == reply.tool_calls->0[i].name
                }
        },
{
    if native_calls(reply.tool_calls->0) is Ok {
        lemma_native_calls_match(reply.tool_calls->0);
    }
}

/// A final answer is what the reply says outside a block of tool calls, without
/// surrounding white space, and is not empty.
pub proof fn law_final_answer_is_trimmed(text: Seq<char>)
    ensures
        parsed_response(text) matches Ok(LlmResponseView::Final { answer }) ==> {
            &&& answer == trimmed(outside_fence(text, "tool_calls"@))
            &&& answer.len() > 0
            &&& !is_white_space(answer.first())
            &&& !is_white_space(answer.last())
        },
{
    lemma_trimmed_ends(outside_fence(text, "tool_calls"@));
}

/// A reply in which a tool call gives one of its fields twice is rejected, unless
/// the block is just what is printed of calls.
pub proof fn law_repeated_field_is_rejected(
    text: Seq<char>,
    before: Seq<char>,
    body: Seq<char>,
)
    requires
        fence(text, "tool_calls"@) == Some((before, body)),
        repeats_field(body),
        forall|calls: Seq<ToolCallView>| body != #[trigger] calls_json(calls) + "\n"@,
    ensures
        parsed_response(text) is Err,
        parsed_response(text)->Err_0 is ResponseParse,
{
}

/// A blank reply is rejected.
pub proof fn law_blank_reply_is_rejected(text: Seq<char>)
    requires
        trimmed(text).len() == 0,
    ensures
        parsed_response(text) is Err,
        parsed_response(text)->Err_0 is ResponseParse,
{
    if let Some((_, _)) = fence(text, "tool_calls"@) {
        reveal_strlit("```");
        reveal_strlit("tool_calls");
        let opener = "```"@ + "tool_calls"@;
        lemma_find_from_is_first(text, opener, 0);
        let at = find_from(text, opener, 0)->0;
        assert(text.subrange(at, at + opener.len())[0] == opener[0]);
        assert(text[at] == '`');
        lemma_trimmed_keeps(text, at);
    }
}

/// Where a block lists no calls, what is outside of it is the final answer, and
/// it is an error if nothing is.
pub proof fn law_empty_block_leaves_the_rest(
    text: Seq<char>,
    before: Seq<char>,
    body: Seq<char>,
)
    requires
        fence(text, "tool_calls"@) == Some((before, body)),
        calls_of_json(body) == Ok::<Seq<ToolCallView>, Seq<char>>(Seq::empty()),
    ensures
        parsed_response(text) == final_response(outside_fence(text, "tool_calls"@)),
{
}

/// A reply without a fenced block of tool calls is a final answer, or blank.
pub proof fn law_unfenced_reply_is_final(text: Seq<char>)
    requires
        find_from(text, "```tool_calls"@, 0) is None,
    ensures
        parsed_response(text) == final_response(text),
{
    reveal_strlit("```tool_calls");
    reveal_strlit("```");
    reveal_strlit("tool_calls");
    assert("```"@ + "tool_calls"@ =~= "```tool_calls"@);
}

/// A message that is rendered with tool calls is read back as asking for tools:
/// the parser finds the block, and in it the calls' JSON text, and where decoding
/// gives the calls back the response is to run exactly them. This needs a
/// message that does not itself open such a block, and JSON text without three
/// backticks in a row.
pub proof fn law_rendered_calls_are_found(message: MessageView)
    requires
        message.tool_calls.len() > 0,
        find_from(message.content, "```"@ + "tool_calls"@, 0) is None,
        find_from(calls_json(message.tool_calls), "```"@, 0) is None,
    ensures
        fence(rendered(message), "tool_calls"@) == Some(
            (message.content + "\n"@, calls_json(message.tool_calls) + "\n"@),
        ),
        parsed_response(rendered(message)) == response_of(
            rendered(message),
            Some(calls_of_json(calls_json(message.tool_calls) + "\n"@)),
        ),
        calls_of_json(calls_json(message.tool_calls) + "\n"@) == Ok::<
            Seq<ToolCallView>,
            Seq<char>,
        >(message.tool_calls) ==> parsed_response(rendered(message)) == Ok::<
            LlmResponseView,
            AgentErrorView,
        >(LlmResponseView::UseTools { calls: message.tool_calls }),
{
    reveal_strlit("\n```tool_calls\n");
    reveal_strlit("\n");
    reveal_strlit("```");
    reveal_strlit("tool_calls");
    reveal_strlit("\n```");
    let content = message.content;
    let opener = "```"@ + "tool_calls"@;
    let json = calls_json(message.tool_calls);
    let text = rendered(message);
    assert("\n```tool_calls\n"@ =~= "\n"@ + opener + "\n"@);
    assert("\n```"@ =~= "\n"@ + "```"@);
    assert(text =~= content + "\n"@ + opener + "\n"@ + json + "\n"@ + "```"@);
    let start: int = content.len() + 1int;
    assert(text.subrange(start, start + opener.len()) =~= opener);
    lemma_find_from_is_first(content, opener, 0);
    assert forall|j: int| 0 <= j < start implies #[trigger] text.subrange(j, j + opener.len())
        != opener by {
        let part = text.subrange(j, j + opener.len());
        if j + opener.len() <= content.len() {
            assert(part =~= content.subrange(j, j + opener.len()));
        } else {
            assert(part[content.len() - j] == '\n');
            assert(opener[content.len() - j] != '\n');
        }
    }
    lemma_find_from_unique(text, opener, 0, start);
    let newline = start + opener.len();
    assert(text.subrange(newline, newline + 1) =~= "\n"@);
    lemma_find_from_unique(text, "\n"@, newline, newline);
    let body = newline + 1;
    let end = body + json.len() + 1;
    assert(text.subrange(end, end + 3) =~= "```"@);
    lemma_find_from_is_first(json, "```"@, 0);
    assert forall|j: int| body <= j < end implies #[trigger] text.subrange(j, j + "```"@.len())
        != "```"@ by {
        let part = text.subrange(j, j + 3);
        let k = j - body;
        if k + 3 <= json.len() {
            assert(part =~= json.subrange(k, k + "```"@.len()));
        } else {
            assert(part[json.len() - k] == '\n');
        }
    }
    lemma_find_from_unique(text, "```"@, body, end);
    assert(text.take(start) =~= content + "\n"@);
    assert(text.subrange(body, end) =~= json + "\n"@);
}

/// The same of a provider's reply, whoever decodes it: what is to be decoded is
/// the printed list of calls, and a decoder that gives the calls back gets
/// exactly them run.
pub proof fn law_rendered_reply_is_decided(reply: ChatReplyView, message: MessageView)
    requires
        reply.tool_calls is None || reply.tool_calls->0.len() == 0,
        reply.text == Some(rendered(message)),
        message.tool_calls.len() > 0,
        find_from(message.content, "```"@ + "tool_calls"@, 0) is None,
        find_from(calls_json(message.tool_calls), "```"@, 0) is None,
    ensures
        fenced_json(reply) == Some(calls_json(message.tool_calls) + "\n"@),
        reply_outcome(reply, Some(Ok(message.tool_calls))) == Ok::<LlmResponseView, AgentErrorView>(
            LlmResponseView::UseTools { calls: message.tool_calls },
        ),
{
    law_rendered_calls_are_found(message);
}

proof fn lemma_no_fence_concat(left: Seq<char>, right: Seq<char>)
    requires
        no_fence(left),
        no_fence(right),
        left.len() == 0 || right.len() == 0 || left.last() != '`' || right.first() != '`',
    ensures
        no_fence(left + right),
{
    reveal_strlit("```");
    let ticks = "```"@;
    let text = left + right;
    lemma_find_from_is_first(text, ticks, 0);
    lemma_find_from_is_first(left, ticks, 0);
    lemma_find_from_is_first(right, ticks, 0);
    if let Some(k) = find_from(text, ticks, 0) {
        let part = text.subrange(k, k + 3);
        assert(part[0] == '`' && part[1] == '`' && part[2] == '`');
        if k + 3 <= left.len() {
            assert(left.subrange(k, k + ticks.len()) =~= part);
        } else if left.len() <= k {
            let j = k - left.len();
            assert(right.subrange(j, j + ticks.len()) =~= part);
        } else {
            assert(part[left.len() - 1 - k] == left.last());
            assert(part[left.len() - k] == right.first());
        }
    }
}

proof fn lemma_no_fence_without_ticks(text: Seq<char>)
    requires
        forall|i: int| 0 <= i < text.len() ==> text[i] != '`',
    ensures
        no_fence(text),
{
    reveal_strlit("```");
    lemma_find_from_is_first(text, "```"@, 0);
    if let Some(k) = find_from(text, "```"@, 0) {
        assert(text.subrange(k, k + 3)[0] == '`');
    }
}

proof fn lemma_no_fence_prefix(text: Seq<char>)
    requires
        no_fence(text),
        text.len() > 0,
    ensures
        no_fence(text.drop_last()),
{
    let ticks = "```"@;
    lemma_find_from_is_first(text, ticks, 0);
    lemma_find_from_is_first(text.drop_last(), ticks, 0);
    if let Some(k) = find_from(text.drop_last(), ticks, 0) {
        assert(text.drop_last().subrange(k, k + ticks.len()) =~= text.subrange(
            k,
            k + ticks.len(),
        ));
    }
}

/// Escaping adds no backticks, and puts something else between any that were
/// apart.
proof fn lemma_no_fence_escaped(text: Seq<char>)
    requires
        no_fence(text),
    ensures
        no_fence(json_escaped(text)),
        ({
            let e = json_escaped(text);
            &&& e.len() > 0 && e.last() == '`' ==> text.len() > 0 && text.last() == '`'
            &&& e.len() > 1 && e.last() == '`' && e[e.len() - 2] == '`' ==> text.len() > 1
                && text.last() == '`' && text[text.len() - 2] == '`'
        }),
    decreases text.len(),
{
    reveal_strlit("```");
    let ticks = "```"@;
    if text.len() == 0 {
        lemma_no_fence_without_ticks(json_escaped(text));
    } else {
        let c = text.last();
        let before = json_escaped(text.drop_last());
        let last = json_escaped_char(c);
        lemma_no_fence_prefix(text);
        lemma_no_fence_escaped(text.drop_last());
        if c == '`' {
            let e = before + last;
            assert(last =~= seq!['`']);
            lemma_find_from_is_first(e, ticks, 0);
            lemma_find_from_is_first(before, ticks, 0);
            lemma_find_from_is_first(text, ticks, 0);
            if let Some(k) = find_from(e, ticks, 0) {
                let part = e.subrange(k, k + 3);
                assert(part[0] == '`' && part[1] == '`' && part[2] == '`');
                if k + 3 <= before.len() {
                    assert(before.subrange(k, k + ticks.len()) =~= part);
                } else {
                    assert(before[k] == '`' && before[k + 1] == '`');
                    let n = text.len() - 3;
                    assert(text.subrange(n, n + ticks.len()) =~= ticks);
                }
            }
        } else {
            assert forall|i: int| 0 <= i < last.len() implies last[i] != '`' by {
                let n = c as u32;
                if n < 0x20 {
                    assert(n / 16 < 2 && n % 16 < 16);
                }
            }
            lemma_no_fence_without_ticks(last);
            lemma_no_fence_concat(before, last);
        }
    }
}

proof fn lemma_no_fence_quoted(text: Seq<char>)
    requires
        no_fence(text),
    ensures
        no_fence(json_quoted(text)),
{
    let mark = seq!['"'];
    lemma_no_fence_escaped(text);
    lemma_no_fence_without_ticks(mark);
    lemma_no_fence_concat(mark, json_escaped(text));
    lemma_no_fence_concat(mark + json_escaped(text), mark);
}

proof fn lemma_call_json_has_no_fence(call: ToolCallView)
    requires
        no_fence(call.id),
        no_fence(call.name),
        no_fence(json_text(call.args)),
    ensures
        no_fence(call_json(call)),
{
    reveal_strlit("{\"id\":");
    reveal_strlit(",\"name\":");
    reveal_strlit(",\"args\":");
    reveal_strlit("}");
    lemma_no_fence_without_ticks("{\"id\":"@);
    lemma_no_fence_without_ticks(",\"name\":"@);
    lemma_no_fence_without_ticks(",\"args\":"@);
    lemma_no_fence_without_ticks("}"@);
    lemma_no_fence_quoted(call.id);
    lemma_no_fence_quoted(call.name);
    let a = "{\"id\":"@ + json_quoted(call.id);
    lemma_no_fence_concat("{\"id\":"@, json_quoted(call.id));
    let b = a + ",\"name\":"@;
    lemma_no_fence_concat(a, ",\"name\":"@);
    let c = b + json_quoted(call.name);
    lemma_no_fence_concat(b, json_quoted(call.name));
    let d = c + ",\"args\":"@;
    lemma_no_fence_concat(c, ",\"args\":"@);
    let e = d + json_text(call.args);
    lemma_no_fence_concat(d, json_text(call.args));
    lemma_no_fence_concat(e, "}"@);
}

proof fn lemma_joined_has_no_fence(parts: Seq<Seq<char>>)
    requires
        forall|i: int| 0 <= i < parts.len() ==> no_fence(#[trigger] parts[i]),
    ensures
        no_fence(joined(parts, ","@)),
    decreases parts.len(),
{
    reveal_strlit(",");
    lemma_no_fence_without_ticks(","@);
    if parts.len() == 0 {
        lemma_no_fence_without_ticks(joined(parts, ","@));
    } else if parts.len() > 1 {
        let before = joined(parts.drop_last(), ","@);
        lemma_joined_has_no_fence(parts.drop_last());
        lemma_no_fence_concat(before, ","@);
        lemma_no_fence_concat(before + ","@, parts.last());
    }
}

proof fn lemma_calls_json_has_no_fence(calls: Seq<ToolCallView>)
    requires
        forall|i: int|
            0 <= i < calls.len() ==> {
                &&& no_fence((#[trigger] calls[i]).id)
                &&& no_fence(calls[i].name)
                &&& no_fence(json_text(calls[i].args))
            },
    ensures
        no_fence(calls_json(calls)),
{
    let parts = Seq::new(calls.len(), |i: int| call_json(calls[i]));
    assert forall|i: int| 0 <= i < parts.len() implies no_fence(#[trigger] parts[i]) by {
        lemma_call_json_has_no_fence(calls[i]);
    }
    reveal_strlit("[");
    reveal_strlit("]");
    lemma_no_fence_without_ticks("["@);
    lemma_no_fence_without_ticks("]"@);
    lemma_joined_has_no_fence(parts);
    lemma_no_fence_concat("["@, joined(parts, ","@));
    lemma_no_fence_concat("["@ + joined(parts, ","@), "]"@);
}

/// A message without tool calls is sent to the provider verbatim. One with tool
/// calls is sent with its whole text first and the calls in a block after it.
pub proof fn law_message_is_sent_whole(message: MessageView)
    ensures
        message.tool_calls.len() == 0 ==> rendered(message) == message.content,
        message.tool_calls.len() > 0 ==> {
            let sent = rendered(message);
            let json = calls_json(message.tool_calls);
            let said = message.content.len() as int;
            &&& sent.len() == said + 15 + json.len() + 4
            &&& sent.take(said) == message.content
            &&& sent.subrange(said, said + 15) == "\n```tool_calls\n"@
            &&& sent.subrange(said + 15, said + 15 + json.len() as int) == json
            &&& sent.skip(said + 15 + json.len() as int) == "\n```"@
        },
{
    reveal_strlit("\n```tool_calls\n");
    reveal_strlit("\n```");
    if message.tool_calls.len() > 0 {
        let sent = rendered(message);
        let json = calls_json(message.tool_calls);
        let said = message.content.len() as int;
        assert(sent.take(said) =~= message.content);
        assert(sent.subrange(said, said + 15) =~= "\n```tool_calls\n"@);
        assert(sent.subrange(said + 15, said + 15 + json.len() as int) =~= json);
        assert(sent.skip(said + 15 + json.len() as int) =~= "\n```"@);
    }
}

/// The text of a list of calls puts the calls one after the other: two lists
/// printed together are the two texts with a comma in place of the brackets
/// between them.
pub proof fn law_calls_are_printed_one_by_one(
    call: ToolCallView,
    first: Seq<ToolCallView>,
    second: Seq<ToolCallView>,
)
    ensures
        calls_json(seq![call]) == seq!['['] + call_json(call) + seq![']'],
        first.len() > 0 && second.len() > 0 ==> calls_json(first + second) == calls_json(
            first,
        ).drop_last() + seq![','] + calls_json(second).drop_first(),
{
    reveal_strlit("[");
    reveal_strlit("]");
    reveal_strlit(",");
    assert("["@ =~= seq!['[']);
    assert("]"@ =~= seq![']']);
    assert(","@ =~= seq![',']);
    let one = Seq::new(seq![call].len(), |i: int| call_json(seq![call][i]));
    assert(one =~= seq![call_json(call)]);
    law_joining_one_part(call_json(call), ","@);
    if first.len() > 0 && second.len() > 0 {
        let a = Seq::new(first.len(), |i: int| call_json(first[i]));
        let b = Seq::new(second.len(), |i: int| call_json(second[i]));
        let both = first + second;
        let all = Seq::new(both.len(), |i: int| call_json(both[i]));
        assert(all =~= a + b);
        law_joining_is_associative(a, b, ","@);
        assert(calls_json(both) =~= calls_json(first).drop_last() + seq![','] + calls_json(
            second,
        ).drop_first());
    }
}

/// The text of a call names its three fields in order, each followed by the
/// whole of its value.
pub proof fn law_call_is_printed_whole(call: ToolCallView)
    ensures
        ({
            let text = call_json(call);
            let id = json_quoted(call.id);
            let name = json_quoted(call.name);
            let args = json_text(call.args);
            let after_id = 6 + id.len() as int;
            let after_name = after_id + 8 + name.len();
            let after_args = after_name + 8 + args.len();
            &&& text.len() == after_args + 1
            &&& text.take(6) == "{\"id\":"@
            &&& text.subrange(6, after_id) == id
            &&& text.subrange(after_id, after_id + 8) == ",\"name\":"@
            &&& text.subrange(after_id + 8, after_name) == name
            &&& text.subrange(after_name, after_name + 8) == ",\"args\":"@
            &&& text.subrange(after_name + 8, after_args) == args
            &&& text.last() == '}'
        }),
{
    reveal_strlit("{\"id\":");
    reveal_strlit(",\"name\":");
    reveal_strlit(",\"args\":");
    reveal_strlit("}");
    let text = call_json(call);
    let id = json_quoted(call.id);
    let name = json_quoted(call.name);
    let args = json_text(call.args);
    let after_id = 6 + id.len() as int;
    let after_name = after_id + 8 + name.len();
    let after_args = after_name + 8 + args.len();
    assert(text.take(6) =~= "{\"id\":"@);
    assert(text.subrange(6, after_id) =~= id);
    assert(text.subrange(after_id, after_id + 8) =~= ",\"name\":"@);
    assert(text.subrange(after_id + 8, after_name) =~= name);
    assert(text.subrange(after_name, after_name + 8) =~= ",\"args\":"@);
    assert(text.subrange(after_name + 8, after_args) =~= args);
}

/// A tool is advertised as a function with the name, the description and the
/// parameters of its schema.
pub proof fn law_tool_is_advertised_whole(schema: ToolSchemaView)
    ensures
        advertised(schema).tool_type == "function"@,
        advertised(schema).name == schema.name,
        advertised(schema).description == schema.description,
        advertised(schema).parameters == schema.args_schema,
{
}

/// A block that is found is the first of its tag: no opener comes before it, its
/// body begins after the first line end behind the opener, and ends before the
/// first three backticks in it.
pub proof fn law_found_block_is_the_first(text: Seq<char>, tag: Seq<char>)
    ensures
        match fence_span(text, tag) {
            Some((start, body, end)) => {
                let opener = "```"@ + tag;
                &&& 0 <= start
                &&& start + opener.len() < body <= end
                &&& end + 3 <= text.len()
                &&& text.subrange(start, start + opener.len()) == opener
                &&& text[body - 1] == '\n'
                &&& text.subrange(end, end + 3) == "```"@
                &&& forall|j: int|
                    0 <= j < start ==> #[trigger] text.subrange(j, j + opener.len()) != opener
                &&& forall|j: int|
                    start + opener.len() <= j < body - 1 ==> #[trigger] text[j] != '\n'
                &&& forall|j: int| body <= j < end ==> #[trigger] text.subrange(j, j + 3) != "```"@
                &&& fence(text, tag) == Some((text.take(start), text.subrange(body, end)))
                &&& outside_fence(text, tag) == text.take(start) + text.skip(end + 3)
            },
            None => fence(text, tag) is None && outside_fence(text, tag) == text,
        },
{
    reveal_strlit("\n");
    reveal_strlit("```");
    let opener = "```"@ + tag;
    lemma_find_from_is_first(text, opener, 0);
    if let Some(start) = find_from(text, opener, 0) {
        lemma_find_from_is_first(text, "\n"@, start + opener.len());
        if let Some(newline) = find_from(text, "\n"@, start + opener.len()) {
            lemma_find_from_is_first(text, "```"@, newline + 1);
            assert(text.subrange(newline, newline + 1)[0] == '\n');
            assert forall|j: int| start + opener.len() <= j < newline implies #[trigger] text[j]
                != '\n' by {
                if text[j] == '\n' {
                    assert(text.subrange(j, j + "\n"@.len()) =~= "\n"@);
                }
            }
            if let Some(end) = find_from(text, "```"@, newline + 1) {
                assert forall|j: int| newline + 1 <= j < end implies #[trigger] text.subrange(
                    j,
                    j + 3,
                ) != "```"@ by {
                    assert(text.subrange(j, j + "```"@.len()) != "```"@);
                }
            }
        }
    }
}

/// A block is found wherever there is one: behind the first opener of its tag, a
/// line end and later three backticks suffice.
pub proof fn law_block_is_found(
    text: Seq<char>,
    tag: Seq<char>,
    start: int,
    newline: int,
    end: int,
)
    requires
        0 <= start,
        start + 3 + tag.len() <= newline < end,
        end + 3 <= text.len(),
        text.subrange(start, start + 3 + tag.len() as int) == "```"@ + tag,
        forall|j: int|
            0 <= j < start ==> #[trigger] text.subrange(j, j + 3 + tag.len() as int) != "```"@
                + tag,
        text[newline] == '\n',
        forall|j: int| start + 3 + tag.len() <= j < newline ==> #[trigger] text[j] != '\n',
        text.subrange(end, end + 3) == "```"@,
        forall|j: int| newline < j < end ==> #[trigger] text.subrange(j, j + 3) != "```"@,
    ensures
        fence(text, tag) == Some((text.take(start), text.subrange(newline + 1, end))),
        outside_fence(text, tag) == text.take(start) + text.skip(end + 3),
{
    reveal_strlit("\n");
    reveal_strlit("```");
    let opener = "```"@ + tag;
    assert(opener.len() == 3 + tag.len());
    assert(text.subrange(start, start + opener.len()) == opener);
    assert forall|j: int| 0 <= j < start implies #[trigger] text.subrange(j, j + opener.len())
        != opener by {
        assert(text.subrange(j, j + 3 + tag.len() as int) != opener);
    }
    lemma_find_from_unique(text, opener, 0, start);
    assert(text.subrange(newline, newline + "\n"@.len()) =~= "\n"@);
    assert forall|j: int| start + opener.len() <= j < newline implies #[trigger] text.subrange(
        j,
        j + "\n"@.len(),
    ) != "\n"@ by {
        assert(text.subrange(j, j + 1)[0] == text[j]);
    }
    lemma_find_from_unique(text, "\n"@, start + opener.len(), newline);
    assert forall|j: int| newline + 1 <= j < end implies #[trigger] text.subrange(
        j,
        j + "```"@.len(),
    ) != "```"@ by {
        assert(text.subrange(j, j + 3) != "```"@);
    }
    lemma_find_from_unique(text, "```"@, newline + 1, end);
}

/// A value stands for a call just where it is an object that holds the call's id
/// and name as strings and its arguments, or an array of just these three.
pub proof fn law_value_stands_for_the_call_it_holds(value: Value, call: ToolCallView)
    ensures
        json_items(value) is None ==> (call_of_value(value) == Ok::<ToolCallView, Seq<char>>(call)
            <==> {
            &&& json_field(value, "id"@) is Some
            &&& json_str(json_field(value, "id"@)->0) == Some(call.id)
            &&& json_field(value, "name"@) is Some
            &&& json_str(json_field(value, "name"@)->0) == Some(call.name)
            &&& json_field(value, "args"@) == Some(call.args)
        }),
        json_items(value) is Some ==> (call_of_value(value) == Ok::<ToolCallView, Seq<char>>(call)
            <==> {
            let items = json_items(value)->0;
            &&& items.len() == 3
            &&& json_str(items[0]) == Some(call.id)
            &&& json_str(items[1]) == Some(call.name)
            &&& items[2] == call.args
        }),
{
}

/// What is wrong with a value that stands for no call: the first of its parts
/// that is missing or no text.
pub proof fn law_value_without_a_part_is_rejected(value: Value)
    requires
        json_items(value) is None,
    ensures
        json_field(value, "id"@) is None ==> call_of_value(value) == Err::<
            ToolCallView,
            Seq<char>,
        >("missing field `"@ + "id"@ + "`"@),
        json_field(value, "id"@) is Some && json_str(json_field(value, "id"@)->0) is None
            ==> call_of_value(value) == Err::<ToolCallView, Seq<char>>(
            "field `"@ + "id"@ + "` is not a string"@,
        ),
        json_field(value, "id"@) is Some && json_str(json_field(value, "id"@)->0) is Some
            && json_field(value, "name"@) is None ==> call_of_value(value) == Err::<
            ToolCallView,
            Seq<char>,
        >("missing field `"@ + "name"@ + "`"@),
        json_field(value, "args"@) is None ==> call_of_value(value) is Err,
        json_field(value, "name"@) is Some && json_str(json_field(value, "name"@)->0) is None
            ==> call_of_value(value) is Err,
{
}

/// Items stand for calls just where each stands for one, item by item.
pub proof fn law_items_stand_for_calls_one_by_one(items: Seq<Value>, calls: Seq<ToolCallView>)
    ensures
        calls_of_items(items) == Ok::<Seq<ToolCallView>, Seq<char>>(calls) <==> {
            &&& items.len() == calls.len()
            &&& forall|i: int|
                0 <= i < items.len() ==> call_of_value(#[trigger] items[i]) == Ok::<
                    ToolCallView,
                    Seq<char>,
                >(calls[i])
        },
    decreases items.len(),
{
    if items.len() == 0 {
        if calls.len() == 0 {
            assert(calls =~= Seq::empty());
        }
    } else if calls.len() > 0 {
        let front = items.drop_last();
        law_items_stand_for_calls_one_by_one(front, calls.drop_last());
        if calls_of_items(items) == Ok::<Seq<ToolCallView>, Seq<char>>(calls) {
            assert(calls_of_items(front) == Ok::<Seq<ToolCallView>, Seq<char>>(
                calls.drop_last(),
            )) by {
                assert(calls_of_items(front)->Ok_0 =~= calls.drop_last());
            }
            assert forall|i: int| 0 <= i < items.len() implies call_of_value(#[trigger] items[i])
                == Ok::<ToolCallView, Seq<char>>(calls[i]) by {
                if i < front.len() {
                    assert(front[i] == items[i]);
                    assert(calls.drop_last()[i] == calls[i]);
                }
            }
        }
        if items.len() == calls.len() && (forall|i: int|
            0 <= i < items.len() ==> call_of_value(#[trigger] items[i]) == Ok::<
                ToolCallView,
                Seq<char>,
            >(calls[i])) {
            assert forall|i: int| 0 <= i < front.len() implies call_of_value(#[trigger] front[i])
                == Ok::<ToolCallView, Seq<char>>(calls.drop_last()[i]) by {
                assert(front[i] == items[i]);
            }
            assert(call_of_value(items[items.len() - 1]) == Ok::<ToolCallView, Seq<char>>(
                calls.last(),
            ));
            assert(calls.drop_last().push(calls.last()) =~= calls);
        }
    }
}

/// A reply runs just the calls in its block, whatever the layout of the block's
/// JSON text: if it parses to an array of objects that each hold a string id, a
/// string name and arguments, and none gives one of its fields twice, the
/// response is to run these calls, item by item, and all of them.
pub proof fn law_block_is_read_whatever_its_layout(
    text: Seq<char>,
    before: Seq<char>,
    body: Seq<char>,
    items: Seq<Value>,
    calls: Seq<ToolCallView>,
)
    requires
        fence(text, "tool_calls"@) == Some((before, body)),
        json_parse(body) is Ok,
        json_items(json_parse(body)->Ok_0) == Some(items),
        items.len() == calls.len(),
        forall|i: int|
            0 <= i < items.len() ==> {
                &&& json_items(#[trigger] items[i]) is None
                &&& json_field(items[i], "id"@) is Some
                &&& json_str(json_field(items[i], "id"@)->0) == Some(calls[i].id)
                &&& json_field(items[i], "name"@) is Some
                &&& json_str(json_field(items[i], "name"@)->0) == Some(calls[i].name)
                &&& json_field(items[i], "args"@) == Some(calls[i].args)
            },
        !repeats_field(body),
    ensures
        calls_of_json(body) == Ok::<Seq<ToolCallView>, Seq<char>>(calls),
        calls.len() > 0 ==> parsed_response(text) == Ok::<LlmResponseView, AgentErrorView>(
            LlmResponseView::UseTools { calls },
        ),
{
    assert forall|i: int| 0 <= i < items.len() implies call_of_value(#[trigger] items[i]) == Ok::<
        ToolCallView,
        Seq<char>,
    >(calls[i]) by {
        law_value_stands_for_the_call_it_holds(items[i], calls[i]);
    }
    law_items_stand_for_calls_one_by_one(items, calls);
}

/// The same the other way round: where a text reply asks for tools, it has a
/// block whose JSON text is an array, and each call is what its item stands for.
pub proof fn law_only_calls_of_the_block_are_run(text: Seq<char>, calls: Seq<ToolCallView>, i: int)
    requires
        parsed_response(text) == Ok::<LlmResponseView, AgentErrorView>(
            LlmResponseView::UseTools { calls },
        ),
        0 <= i < calls.len(),
    ensures
        fence(text, "tool_calls"@) is Some,
        match fence(text, "tool_calls"@) {
            Some((_, body)) => {
                &&& json_parse(body) is Ok
                &&& json_items(json_parse(body)->Ok_0) is Some
                &&& json_items(json_parse(body)->Ok_0)->0.len() == calls.len()
                &&& call_of_value(json_items(json_parse(body)->Ok_0)->0[i]) == Ok::<
                    ToolCallView,
                    Seq<char>,
                >(calls[i])
            },
            None => false,
        },
{
    if let Some((_, body)) = fence(text, "tool_calls"@) {
        law_items_stand_for_calls_one_by_one(json_items(json_parse(body)->Ok_0)->0, calls);
        assert(call_of_value(json_items(json_parse(body)->Ok_0)->0[i]) == Ok::<
            ToolCallView,
            Seq<char>,
        >(calls[i]));
    }
}

/// A block whose text is no JSON, or no list of calls, is an error that says what
/// is wrong.
pub proof fn law_unreadable_block_is_rejected(
    text: Seq<char>,
    before: Seq<char>,
    body: Seq<char>,
)
    requires
        fence(text, "tool_calls"@) == Some((before, body)),
    ensures
        json_parse(body) is Err ==> parsed_response(text) == Err::<
            LlmResponseView,
            AgentErrorView,
        >(AgentErrorView::ResponseParse("tool_calls JSON: "@ + json_parse(body)->Err_0)),
        json_parse(body) is Ok && json_items(json_parse(body)->Ok_0) is None ==> parsed_response(
            text,
        ) == Err::<LlmResponseView, AgentErrorView>(
            AgentErrorView::ResponseParse(
                "tool_calls JSON: "@ + "expected an array of tool calls"@,
            ),
        ),
{
}

/// A reply without a block of tool calls answers with all of its text between
/// its outer white space. A blank one is an error.
pub proof fn law_unfenced_text_is_the_answer(text: Seq<char>, from: int, to: int)
    requires
        fence(text, "tool_calls"@) is None,
        0 <= from <= to <= text.len(),
        forall|i: int| 0 <= i < from ==> is_white_space(#[trigger] text[i]),
        forall|i: int| to <= i < text.len() ==> is_white_space(#[trigger] text[i]),
        from < to ==> !is_white_space(text[from]) && !is_white_space(text[to - 1]),
    ensures
        from < to ==> parsed_response(text) == Ok::<LlmResponseView, AgentErrorView>(
            LlmResponseView::Final { answer: text.subrange(from, to) },
        ),
        from == to ==> parsed_response(text) == Err::<LlmResponseView, AgentErrorView>(
            AgentErrorView::ResponseParse("empty LLM response"@),
        ),
{
    lemma_final_response(text, from, to);
}

/// A block that lists no calls leaves the answer to what is outside of it, with
/// all of the text between the outer white space of that.
pub proof fn law_empty_block_answers_with_the_rest(
    text: Seq<char>,
    before: Seq<char>,
    body: Seq<char>,
    from: int,
    to: int,
)
    requires
        fence(text, "tool_calls"@) == Some((before, body)),
        calls_of_json(body) == Ok::<Seq<ToolCallView>, Seq<char>>(Seq::empty()),
        0 <= from <= to <= outside_fence(text, "tool_calls"@).len(),
        forall|i: int|
            0 <= i < from ==> is_white_space(#[trigger] outside_fence(text, "tool_calls"@)[i]),
        forall|i: int|
            to <= i < outside_fence(text, "tool_calls"@).len() ==> is_white_space(
                #[trigger] outside_fence(text, "tool_calls"@)[i],
            ),
        from < to ==> !is_white_space(outside_fence(text, "tool_calls"@)[from])
            && !is_white_space(outside_fence(text, "tool_calls"@)[to - 1]),
    ensures
        from < to ==> parsed_response(text) == Ok::<LlmResponseView, AgentErrorView>(
            LlmResponseView::Final {
                answer: outside_fence(text, "tool_calls"@).subrange(from, to),
            },
        ),
        from == to ==> parsed_response(text) == Err::<LlmResponseView, AgentErrorView>(
            AgentErrorView::ResponseParse("empty LLM response"@),
        ),
{
    lemma_final_response(outside_fence(text, "tool_calls"@), from, to);
}

proof fn lemma_final_response(text: Seq<char>, from: int, to: int)
    requires
        0 <= from <= to <= text.len(),
        forall|i: int| 0 <= i < from ==> is_white_space(#[trigger] text[i]),
        forall|i: int| to <= i < text.len() ==> is_white_space(#[trigger] text[i]),
        from < to ==> !is_white_space(text[from]) && !is_white_space(text[to - 1]),
    ensures
        from < to ==> final_response(text) == Ok::<LlmResponseView, AgentErrorView>(
            LlmResponseView::Final { answer: text.subrange(from, to) },
        ),
        from == to ==> final_response(text) == Err::<LlmResponseView, AgentErrorView>(
            AgentErrorView::ResponseParse("empty LLM response"@),
        ),
{
    let (a, b) = law_trimming_cuts_white_space_only(text);
    if from < to {
        if a == b {
            assert(is_white_space(text[from]));
        }
        if a < from {
            assert(is_white_space(text[a]));
        } else if from < a {
            assert(is_white_space(text[from]));
        }
        if b > to {
            assert(is_white_space(text[b - 1]));
        } else if to > b {
            assert(is_white_space(text[to - 1]));
        }
    } else if a < b {
        assert(is_white_space(text[a]));
    }
}

/// What a decoder made of the block decides: its error is reported, its calls
/// are run, all of them and in order.
pub proof fn law_decoded_block_decides(
    text: Seq<char>,
    calls: Seq<ToolCallView>,
    detail: Seq<char>,
)
    ensures
        response_of(text, Some(Err(detail))) == Err::<LlmResponseView, AgentErrorView>(
            AgentErrorView::ResponseParse("tool_calls JSON: "@ + detail),
        ),
        calls.len() > 0 ==> response_of(text, Some(Ok(calls))) == Ok::<
            LlmResponseView,
            AgentErrorView,
        >(LlmResponseView::UseTools { calls }),
        fence(text, "tool_calls"@) is None ==> response_of(text, None) == parsed_response(text),
{
}

/// Native tool calls keep their arguments: arguments with anything but white
/// space in them are the value that their text parses to, and only blank
/// arguments are the empty object.
pub proof fn law_native_calls_keep_their_arguments(calls: Seq<NativeToolCallView>, i: int)
    requires
        native_calls(calls) is Ok,
        0 <= i < calls.len(),
    ensures
        native_calls(calls)->Ok_0.len() == calls.len(),
        native_calls(calls)->Ok_0[i].id == calls[i].id,
        native_calls(calls)->Ok_0[i].name == calls[i].name,
        (exists|k: int|
            0 <= k < calls[i].arguments.len() && !is_white_space(
                #[trigger] calls[i].arguments[k],
            )) ==> json_parse(calls[i].arguments) == Ok::<Value, Seq<char>>(
            native_calls(calls)->Ok_0[i].args,
        ),
        (forall|k: int|
            0 <= k < calls[i].arguments.len() ==> is_white_space(
                #[trigger] calls[i].arguments[k],
            )) && json_parse("{}"@) is Ok ==> json_parse("{}"@) == Ok::<Value, Seq<char>>(
            native_calls(calls)->Ok_0[i].args,
        ),
    decreases calls.len(),
{
    lemma_native_calls_match(calls);
    if i < calls.len() - 1 {
        law_native_calls_keep_their_arguments(calls.drop_last(), i);
        assert(calls.drop_last()[i] == calls[i]);
    } else {
        lemma_native_args(calls[i].arguments);
    }
}

proof fn lemma_native_args(arguments: Seq<char>)
    ensures
        (exists|k: int| 0 <= k < arguments.len() && !is_white_space(#[trigger] arguments[k]))
            ==> native_args(arguments) == json_parse(arguments),
        (forall|k: int| 0 <= k < arguments.len() ==> is_white_space(#[trigger] arguments[k]))
            && json_parse("{}"@) is Ok ==> native_args(arguments) == json_parse("{}"@),
        (forall|k: int| 0 <= k < arguments.len() ==> is_white_space(#[trigger] arguments[k]))
            ==> native_args(arguments) is Ok,
{
    let (a, b) = law_trimming_cuts_white_space_only(arguments);
    if exists|k: int| 0 <= k < arguments.len() && !is_white_space(#[trigger] arguments[k]) {
        let k = choose|k: int|
            0 <= k < arguments.len() && !is_white_space(#[trigger] arguments[k]);
        lemma_trimmed_keeps(arguments, k);
    } else if a < b {
        assert(is_white_space(arguments[a]));
    }
}

/// Native tool calls are refused just for arguments that are not blank and no
/// JSON, with what is wrong with the first such.
pub proof fn law_bad_native_arguments_are_rejected(calls: Seq<NativeToolCallView>, i: int)
    requires
        0 <= i < calls.len(),
        json_parse(calls[i].arguments) is Err,
        exists|k: int|
            0 <= k < calls[i].arguments.len() && !is_white_space(#[trigger] calls[i].arguments[k]),
        forall|j: int|
            0 <= j < i ==> json_parse((#[trigger] calls[j]).arguments) is Ok,
    ensures
        native_calls(calls) == Err::<Seq<ToolCallView>, AgentErrorView>(
            AgentErrorView::ResponseParse(
                "tool '"@ + calls[i].name + "' arguments not valid JSON: "@ + json_parse(
                    calls[i].arguments,
                )->Err_0,
            ),
        ),
{
    let front = calls.take(i);
    law_readable_native_calls_are_read(front);
    lemma_native_args(calls[i].arguments);
    let some = calls.take(i + 1);
    assert(some.drop_last() =~= front);
    assert(some.last() == calls[i]);
    lemma_first_bad_native(calls, i + 1);
}

/// Native tool calls whose arguments are all JSON are read.
pub proof fn law_readable_native_calls_are_read(calls: Seq<NativeToolCallView>)
    requires
        forall|j: int|
            0 <= j < calls.len() ==> json_parse((#[trigger] calls[j]).arguments) is Ok,
    ensures
        native_calls(calls) is Ok,
    decreases calls.len(),
{
    if calls.len() > 0 {
        let front = calls.drop_last();
        assert forall|j: int| 0 <= j < front.len() implies json_parse(
            (#[trigger] front[j]).arguments,
        ) is Ok by {
            assert(front[j] == calls[j]);
        }
        law_readable_native_calls_are_read(front);
        lemma_native_args(calls.last().arguments);
    }
}

/// What a reply means: native calls where it has any, read one by one and
/// refused where they are; its text otherwise; and a provider's error is handed
/// on as it is.
pub proof fn law_reply_means_its_calls_or_its_text(reply: ChatReplyView, detail: Seq<char>)
    ensures
        chat_outcome(Err(detail)) == Err::<LlmResponseView, AgentErrorView>(
            AgentErrorView::Llm(detail),
        ),
        reply.tool_calls is Some && reply.tool_calls->0.len() > 0 ==> {
            &&& native_calls(reply.tool_calls->0) is Ok ==> chat_outcome(Ok(reply)) == Ok::<
                LlmResponseView,
                AgentErrorView,
            >(LlmResponseView::UseTools { calls: native_calls(reply.tool_calls->0)->Ok_0 })
            &&& native_calls(reply.tool_calls->0) is Err ==> chat_outcome(Ok(reply)) == Err::<
                LlmResponseView,
                AgentErrorView,
            >(native_calls(reply.tool_calls->0)->Err_0)
            &&& fenced_json(reply) is None
        },
        !(reply.tool_calls is Some && reply.tool_calls->0.len() > 0) ==> {
            &&& reply.text is Some ==> chat_outcome(Ok(reply)) == parsed_response(reply.text->0)
            &&& reply.text is None ==> chat_outcome(Ok(reply)) == parsed_response(Seq::empty())
        },
{
}

/// Views show every field of what goes to a provider and comes back.
pub proof fn law_views_show_requests_and_replies(
    message: ChatMessage,
    tool: Tool,
    call: NativeToolCall,
    reply: ChatReply,
)
    ensures
        message@.role == message.role,
        message@.content == message.content@,
        tool@.tool_type == tool.tool_type@,
        tool@.name == tool.function.name@,
        tool@.description == tool.function.description@,
        tool@.parameters == tool.function.parameters,
        call@.id == call.id@,
        call@.name == call.name@,
        call@.arguments == call.arguments@,
        (reply@.text is Some) == (reply.text is Some),
        reply.text is Some ==> reply@.text->0 == reply.text->0@,
        (reply@.tool_calls is Some) == (reply.tool_calls is Some),
{
}

/// Views show every item of a list that goes to a provider or comes back.
pub proof fn law_views_show_every_item_sent(
    messages: Seq<ChatMessage>,
    tools: Seq<Tool>,
    calls: Seq<NativeToolCall>,
    i: int,
)
    ensures
        chat_views(messages).len() == messages.len(),
        0 <= i < messages.len() ==> chat_views(messages)[i] == messages[i]@,
        tool_views(tools).len() == tools.len(),
        0 <= i < tools.len() ==> tool_views(tools)[i] == tools[i]@,
        native_views(calls).len() == calls.len(),
        0 <= i < calls.len() ==> native_views(calls)[i] == calls[i]@,
{
}

/// Views of results show what was decoded and decided.
pub proof fn law_views_show_results(
    response: LlmResponse,
    error: AgentError,
    calls: Vec<ToolCall>,
    detail: String,
)
    ensures
        response_view(Ok(response)) == Ok::<LlmResponseView, AgentErrorView>(response@),
        response_view(Err(error)) == Err::<LlmResponseView, AgentErrorView>(error@),
        decoded_view(Ok(calls)) == Ok::<Seq<ToolCallView>, Seq<char>>(call_views(calls@)),
        decoded_view(Err(detail)) == Err::<Seq<ToolCallView>, Seq<char>>(detail@),
{
}

} // verus!
