//! The state of an agent run, and the values that cross the boundary between
//! the agent loop and its activities.
//!
//! The messages deliberately mirror the shape of a provider's chat messages
//! without being them: the history that a run persists then does not change
//! when a provider library does. [`crate::llm`] converts.

use autoagents_llm::chat::StructuredOutputFormat;
use serde_json::Value;
use vstd::prelude::*;

use crate::json::{copy_value, json_text, value_text};
use crate::text::{converts, string_views};

verus! {

/// Declares `autoagents_llm::chat::StructuredOutputFormat`, the JSON Schema that
/// constrains a final answer. The library hands it on unread.
#[verifier::external_type_specification]
#[verifier::external_body]
pub struct ExStructuredOutputFormat(autoagents_llm::chat::StructuredOutputFormat);

/// `Clone` of `StructuredOutputFormat`: the same schema.
#[verifier::external_body]
fn copy_format(format: &StructuredOutputFormat) -> (r: StructuredOutputFormat)
    ensures
        r == *format,
{
    format.clone()
}

/// The same optional schema.
pub(crate) fn copy_schema(schema: &Option<StructuredOutputFormat>) -> (r: Option<
    StructuredOutputFormat,
>)
    ensures
        r == *schema,
{
    match schema {
        Some(format) => Some(copy_format(format)),
        None => None,
    }
}

/// The same optional text.
fn copy_text(text: &Option<String>) -> (r: Option<String>)
    ensures
        text_view(r) == text_view(*text),
{
    match text {
        Some(t) => Some(t.clone()),
        None => None,
    }
}

/// The contents of an optional string.
pub open spec fn text_view(text: Option<String>) -> Option<Seq<char>> {
    match text {
        Some(t) => Some(t@),
        None => None,
    }
}

/// What a run is started with.
///
/// The model belongs to the provider that a worker is built with, so there is
/// no model here.
#[derive(Debug)]
pub struct AgentInput {
    pub system_prompt: String,
    pub user_message: String,
    /// Hard cap on reasoning turns before the run returns.
    pub max_turns: u32,
    /// Optional JSON Schema constraining the model's final answer. It goes to
    /// the provider with every request, so that a replayed run issues
    /// byte-identical requests.
    pub output_schema: Option<StructuredOutputFormat>,
    /// Messages kept verbatim from the run that this one continues: part of the
    /// conversation, after its opening (see [`conversation`]), and no part of
    /// the run's own history. Empty for a run that continues none.
    pub recent: Vec<Message>,
}

/// Contents of an [`AgentInput`].
#[verifier::ext_equal]
pub struct AgentInputView {
    pub system_prompt: Seq<char>,
    pub user_message: Seq<char>,
    pub max_turns: u32,
    pub output_schema: Option<StructuredOutputFormat>,
    pub recent: Seq<MessageView>,
}

impl View for AgentInput {
    type V = AgentInputView;

    open spec fn view(&self) -> AgentInputView {
        AgentInputView {
            system_prompt: self.system_prompt@,
            user_message: self.user_message@,
            max_turns: self.max_turns,
            output_schema: self.output_schema,
            recent: message_views(self.recent@),
        }
    }
}

impl Clone for AgentInput {
    fn clone(&self) -> (r: Self)
        ensures
            r@ == self@,
    {
        AgentInput {
            system_prompt: self.system_prompt.clone(),
            user_message: self.user_message.clone(),
            max_turns: self.max_turns,
            output_schema: copy_schema(&self.output_schema),
            recent: copy_messages(&self.recent),
        }
    }
}

impl Default for AgentInput {
    fn default() -> (r: Self)
        ensures
            r@ == (AgentInputView {
                system_prompt: Seq::empty(),
                user_message: Seq::empty(),
                max_turns: 0,
                output_schema: None,
                recent: Seq::empty(),
            }),
    {
        let r = AgentInput {
            system_prompt: String::new(),
            user_message: String::new(),
            max_turns: 0,
            output_schema: None,
            recent: Vec::new(),
        };
        assert(message_views(r.recent@) =~= Seq::empty());
        r
    }
}

/// Why the agent stopped looping.
#[derive(Debug, Clone, Copy, PartialEq, Eq, Structural)]
pub enum StopReason {
    /// The model emitted a final answer.
    FinalAnswer,
    /// Reached `max_turns` before the model finalized.
    MaxTurnsReached,
}

/// Final result of a run.
#[derive(Debug)]
pub struct AgentOutput {
    pub final_answer: String,
    pub stop_reason: StopReason,
    pub turns_used: u32,
    pub tool_calls: u32,
}

/// Contents of an [`AgentOutput`].
#[verifier::ext_equal]
pub struct AgentOutputView {
    pub final_answer: Seq<char>,
    pub stop_reason: StopReason,
    pub turns_used: u32,
    pub tool_calls: u32,
}

impl View for AgentOutput {
    type V = AgentOutputView;

    open spec fn view(&self) -> AgentOutputView {
        AgentOutputView {
            final_answer: self.final_answer@,
            stop_reason: self.stop_reason,
            turns_used: self.turns_used,
            tool_calls: self.tool_calls,
        }
    }
}

impl Clone for AgentOutput {
    fn clone(&self) -> (r: Self)
        ensures
            r@ == self@,
    {
        AgentOutput {
            final_answer: self.final_answer.clone(),
            stop_reason: self.stop_reason,
            turns_used: self.turns_used,
            tool_calls: self.tool_calls,
        }
    }
}

/// Who speaks in a message of the conversation.
#[derive(Debug, Clone, Copy, PartialEq, Eq, Structural)]
pub enum Role {
    System,
    User,
    Assistant,
    Tool,
}

/// A single tool invocation requested by the model.
#[derive(Debug, PartialEq)]
pub struct ToolCall {
    pub id: String,
    pub name: String,
    pub args: Value,
}

/// Contents of a [`ToolCall`].
#[verifier::ext_equal]
pub struct ToolCallView {
    pub id: Seq<char>,
    pub name: Seq<char>,
    pub args: Value,
}

impl View for ToolCall {
    type V = ToolCallView;

    open spec fn view(&self) -> ToolCallView {
        ToolCallView { id: self.id@, name: self.name@, args: self.args }
    }
}

impl Clone for ToolCall {
    fn clone(&self) -> (r: Self)
        ensures
            r@ == self@,
    {
        ToolCall { id: self.id.clone(), name: self.name.clone(), args: copy_value(&self.args) }
    }
}

/// The contents of each tool call.
pub open spec fn call_views(calls: Seq<ToolCall>) -> Seq<ToolCallView> {
    Seq::new(calls.len(), |i: int| calls[i]@)
}

/// The same tool calls.
pub(crate) fn copy_calls(calls: &Vec<ToolCall>) -> (r: Vec<ToolCall>)
    ensures
        call_views(r@) == call_views(calls@),
{
    let r = calls.clone();
    assert(call_views(r@) =~= call_views(calls@));
    r
}

/// Result of executing a single tool call.
#[derive(Debug, PartialEq)]
pub struct ToolResult {
    pub call_id: String,
    pub output: Value,
    /// Populated when the tool itself failed. The agent observes this and can
    /// recover; a tool's failure is not retried.
    pub error: Option<String>,
}

/// Contents of a [`ToolResult`].
#[verifier::ext_equal]
pub struct ToolResultView {
    pub call_id: Seq<char>,
    pub output: Value,
    pub error: Option<Seq<char>>,
}

impl View for ToolResult {
    type V = ToolResultView;

    open spec fn view(&self) -> ToolResultView {
        ToolResultView {
            call_id: self.call_id@,
            output: self.output,
            error: text_view(self.error),
        }
    }
}

impl Clone for ToolResult {
    fn clone(&self) -> (r: Self)
        ensures
            r@ == self@,
    {
        ToolResult {
            call_id: self.call_id.clone(),
            output: copy_value(&self.output),
            error: copy_text(&self.error),
        }
    }
}

/// A single entry in the conversation history.
#[derive(Debug, PartialEq)]
pub struct Message {
    pub role: Role,
    pub content: String,
    /// Populated on assistant messages that requested tool calls.
    pub tool_calls: Vec<ToolCall>,
    /// Populated on tool messages: the `id` of the tool call that it answers.
    pub tool_call_id: Option<String>,
}

/// Contents of a [`Message`].
#[verifier::ext_equal]
pub struct MessageView {
    pub role: Role,
    pub content: Seq<char>,
    pub tool_calls: Seq<ToolCallView>,
    pub tool_call_id: Option<Seq<char>>,
}

impl View for Message {
    type V = MessageView;

    open spec fn view(&self) -> MessageView {
        MessageView {
            role: self.role,
            content: self.content@,
            tool_calls: call_views(self.tool_calls@),
            tool_call_id: text_view(self.tool_call_id),
        }
    }
}

impl Clone for Message {
    fn clone(&self) -> (r: Self)
        ensures
            r@ == self@,
    {
        Message {
            role: self.role,
            content: self.content.clone(),
            tool_calls: copy_calls(&self.tool_calls),
            tool_call_id: copy_text(&self.tool_call_id),
        }
    }
}

/// The contents of each message.
pub open spec fn message_views(messages: Seq<Message>) -> Seq<MessageView> {
    Seq::new(messages.len(), |i: int| messages[i]@)
}

/// The same messages.
pub(crate) fn copy_messages(messages: &Vec<Message>) -> (r: Vec<Message>)
    ensures
        message_views(r@) == message_views(messages@),
{
    let r = messages.clone();
    assert(message_views(r@) =~= message_views(messages@));
    r
}

/// A message that is nothing but text.
pub open spec fn text_message(role: Role, content: Seq<char>) -> MessageView {
    MessageView { role, content, tool_calls: Seq::empty(), tool_call_id: None }
}

/// The assistant's request to run tools.
pub open spec fn calls_message(calls: Seq<ToolCallView>) -> MessageView {
    MessageView {
        role: Role::Assistant,
        content: Seq::empty(),
        tool_calls: calls,
        tool_call_id: None,
    }
}

/// What the model is shown of a tool's result: its failure, or its output as
/// JSON text.
pub open spec fn result_text(result: ToolResultView) -> Seq<char> {
    match result.error {
        Some(error) => "ERROR: "@ + error,
        None => json_text(result.output),
    }
}

/// The message that answers a tool call.
pub open spec fn result_message(result: ToolResultView) -> MessageView {
    MessageView {
        role: Role::Tool,
        content: result_text(result),
        tool_calls: Seq::empty(),
        tool_call_id: Some(result.call_id),
    }
}

impl Message {
    fn text<S: Into<String>>(role: Role, content: S) -> (r: Self)
        ensures
            r@ == text_message(role, r@.content),
            converts(content, r@.content),
    {
        let r = Message {
            role,
            content: content.into(),
            tool_calls: Vec::new(),
            tool_call_id: None,
        };
        assert(r@ =~= text_message(role, r@.content));
        r
    }

    pub fn system<S: Into<String>>(content: S) -> (r: Self)
        ensures
            r@ == text_message(Role::System, r@.content),
            converts(content, r@.content),
    {
        Message::text(Role::System, content)
    }

    pub fn user<S: Into<String>>(content: S) -> (r: Self)
        ensures
            r@ == text_message(Role::User, r@.content),
            converts(content, r@.content),
    {
        Message::text(Role::User, content)
    }

    pub fn assistant_text<S: Into<String>>(content: S) -> (r: Self)
        ensures
            r@ == text_message(Role::Assistant, r@.content),
            converts(content, r@.content),
    {
        Message::text(Role::Assistant, content)
    }

    pub fn assistant_with_tools(calls: Vec<ToolCall>) -> (r: Self)
        ensures
            r@ == calls_message(call_views(calls@)),
    {
        Message {
            role: Role::Assistant,
            content: String::new(),
            tool_calls: calls,
            tool_call_id: None,
        }
    }

    pub fn tool_result(result: &ToolResult) -> (r: Self)
        ensures
            r@ == result_message(result@),
    {
        let content = match &result.error {
            Some(error) => "ERROR: ".to_owned().concat(error.as_str()),
            None => value_text(&result.output),
        };
        let r = Message {
            role: Role::Tool,
            content,
            tool_calls: Vec::new(),
            tool_call_id: Some(result.call_id.clone()),
        };
        assert(r@ =~= result_message(result@));
        r
    }
}

/// Live state of an agent run.
#[derive(Debug)]
pub struct AgentState {
    pub input: AgentInput,
    pub history: Vec<Message>,
    pub turn: u32,
    pub tool_calls_executed: u32,
    /// User messages that were signalled to the run and are not yet part of
    /// its history.
    pub pending_user_messages: Vec<String>,
}

/// Contents of an [`AgentState`].
#[verifier::ext_equal]
pub struct AgentStateView {
    pub input: AgentInputView,
    pub history: Seq<MessageView>,
    pub turn: u32,
    pub tool_calls_executed: u32,
    pub pending_user_messages: Seq<Seq<char>>,
}

impl View for AgentState {
    type V = AgentStateView;

    open spec fn view(&self) -> AgentStateView {
        AgentStateView {
            input: self.input@,
            history: message_views(self.history@),
            turn: self.turn,
            tool_calls_executed: self.tool_calls_executed,
            pending_user_messages: string_views(self.pending_user_messages@),
        }
    }
}

impl Clone for AgentState {
    fn clone(&self) -> (r: Self)
        ensures
            r@ == self@,
    {
        let r = AgentState {
            input: self.input.clone(),
            history: copy_messages(&self.history),
            turn: self.turn,
            tool_calls_executed: self.tool_calls_executed,
            pending_user_messages: self.pending_user_messages.clone(),
        };
        assert(r@ =~= self@);
        r
    }
}

/// The state in which a run with this input begins: a history of the system
/// prompt and the user's message.
pub open spec fn initial_state(input: AgentInputView) -> AgentStateView {
    AgentStateView {
        input,
        history: seq![
            text_message(Role::System, input.system_prompt),
            text_message(Role::User, input.user_message),
        ],
        turn: 0,
        tool_calls_executed: 0,
        pending_user_messages: Seq::empty(),
    }
}

/// The content of the last user message.
pub open spec fn last_user(history: Seq<MessageView>) -> Option<Seq<char>>
    decreases history.len(),
{
    if history.len() == 0 {
        None
    } else if history.last().role == Role::User {
        Some(history.last().content)
    } else {
        last_user(history.drop_last())
    }
}

pub(crate) fn last_user_text(history: &Vec<Message>) -> (r: Option<String>)
    ensures
        text_view(r) == last_user(message_views(history@)),
{
    let ghost views = message_views(history@);
    let mut i: usize = history.len();
    assert(views.take(i as int) =~= views);
    while i > 0
        invariant
            i <= history.len(),
            views == message_views(history@),
            last_user(views) == last_user(views.take(i as int)),
        decreases i,
    {
        if history[i - 1].role == Role::User {
            return Some(history[i - 1].content.clone());
        }
        assert(views.take(i as int).drop_last() =~= views.take(i - 1));
        i = i - 1;
    }
    None
}

/// Number of messages that open a history: the system prompt and the user's
/// message.
pub open spec fn opening_len(history: Seq<MessageView>) -> int {
    if history.len() < 2 {
        history.len() as int
    } else {
        2
    }
}

/// Whether the user's message that opens the history is also the last user
/// message among those kept from an earlier run.
pub open spec fn opening_is_kept(state: AgentStateView) -> bool {
    &&& state.history.len() >= 2
    &&& state.history[1].role == Role::User
    &&& state.history[1].content == state.input.user_message
    &&& last_user(state.input.recent) == Some(state.input.user_message)
}

/// The conversation that a run in this state has with the model: the opening of
/// its history, the messages kept from an earlier run, and the rest of its
/// history. A user's message that opens the history and is among the kept ones
/// stands only where it was kept.
pub open spec fn conversation(state: AgentStateView) -> Seq<MessageView> {
    let opening = if opening_is_kept(state) {
        state.history.take(1)
    } else {
        state.history.take(opening_len(state.history))
    };
    opening + state.input.recent + state.history.skip(opening_len(state.history))
}

/// A run that continues none has its history as its conversation.
pub proof fn law_conversation_of_a_first_run(state: AgentStateView)
    requires
        state.input.recent.len() == 0,
    ensures
        conversation(state) == state.history,
{
    assert(conversation(state) =~= state.history);
}

/// Adds copies of the messages from one index up to another.
fn copy_range(out: &mut Vec<Message>, messages: &Vec<Message>, from: usize, to: usize)
    requires
        from <= to <= messages.len(),
    ensures
        message_views(final(out)@) == message_views(old(out)@) + message_views(
            messages@,
        ).subrange(from as int, to as int),
{
    let ghost before = message_views(out@);
    let ghost views = message_views(messages@);
    let mut i: usize = from;
    assert(before + views.subrange(from as int, from as int) =~= before);
    while i < to
        invariant
            from <= i <= to <= messages.len(),
            views == message_views(messages@),
            message_views(out@) == before + views.subrange(from as int, i as int),
        decreases to - i,
    {
        let ghost so_far = out@;
        let message = messages[i].clone();
        out.push(message);
        assert(message_views(out@) =~= message_views(so_far).push(views[i as int]));
        assert(before + views.subrange(from as int, i + 1) =~= (before + views.subrange(
            from as int,
            i as int,
        )).push(views[i as int]));
        i = i + 1;
    }
}

/// The messages from an index on.
pub(crate) fn messages_from(messages: &Vec<Message>, from: usize) -> (r: Vec<Message>)
    requires
        from <= messages.len(),
    ensures
        message_views(r@) == message_views(messages@).skip(from as int),
{
    let mut out: Vec<Message> = Vec::new();
    copy_range(&mut out, messages, from, messages.len());
    assert(message_views(out@) =~= message_views(messages@).skip(from as int));
    out
}

impl AgentState {
    fn opens_with_kept_message(&self) -> (r: bool)
        ensures
            r == opening_is_kept(self@),
    {
        if self.history.len() < 2 || self.history[1].role != Role::User || self.history[1].content
            != self.input.user_message {
            return false;
        }
        match last_user_text(&self.input.recent) {
            Some(text) => text == self.input.user_message,
            None => false,
        }
    }

    /// The conversation with the model: what this run adds to what was kept from
    /// the run that it continues.
    pub fn conversation(&self) -> (r: Vec<Message>)
        ensures
            message_views(r@) == conversation(self@),
    {
        let opening: usize = if self.history.len() < 2 {
            self.history.len()
        } else {
            2
        };
        let shown: usize = if self.opens_with_kept_message() {
            1
        } else {
            opening
        };
        let mut out: Vec<Message> = Vec::new();
        copy_range(&mut out, &self.history, 0, shown);
        copy_range(&mut out, &self.input.recent, 0, self.input.recent.len());
        copy_range(&mut out, &self.history, opening, self.history.len());
        assert(message_views(out@) =~= conversation(self@));
        out
    }

    pub fn new(input: AgentInput) -> (r: Self)
        ensures
            r@ == initial_state(input@),
    {
        let history = vec![
            Message::system(&input.system_prompt),
            Message::user(&input.user_message),
        ];
        let r = AgentState {
            input,
            history,
            turn: 0,
            tool_calls_executed: 0,
            pending_user_messages: Vec::new(),
        };
        assert(r@ =~= initial_state(input@));
        r
    }
}

impl Default for AgentState {
    fn default() -> (r: Self)
        ensures
            r@.input.system_prompt == Seq::<char>::empty(),
            r@.input.user_message == Seq::<char>::empty(),
            r@.input.max_turns == 0,
            r@.input.output_schema is None,
            r@.input.recent == Seq::<MessageView>::empty(),
            r@.history == Seq::<MessageView>::empty(),
            r@.turn == 0,
            r@.tool_calls_executed == 0,
            r@.pending_user_messages == Seq::<Seq<char>>::empty(),
    {
        AgentState {
            input: AgentInput::default(),
            history: Vec::new(),
            turn: 0,
            tool_calls_executed: 0,
            pending_user_messages: Vec::new(),
        }
    }
}

/// The model's reply on a single turn.
///
/// Asking a human is not a reply of its own: it is a tool like any other.
#[derive(Debug)]
pub enum LlmResponse {
    /// Model produced a final natural-language answer; the loop should exit.
    Final { answer: String },
    /// Model wants to invoke one or more tools before reasoning further.
    UseTools { calls: Vec<ToolCall> },
}

/// Contents of an [`LlmResponse`].
#[verifier::ext_equal]
pub enum LlmResponseView {
    Final { answer: Seq<char> },
    UseTools { calls: Seq<ToolCallView> },
}

impl View for LlmResponse {
    type V = LlmResponseView;

    open spec fn view(&self) -> LlmResponseView {
        match self {
            LlmResponse::Final { answer } => LlmResponseView::Final { answer: answer@ },
            LlmResponse::UseTools { calls } => LlmResponseView::UseTools {
                calls: call_views(calls@),
            },
        }
    }
}

impl Clone for LlmResponse {
    fn clone(&self) -> (r: Self)
        ensures
            r@ == self@,
    {
        match self {
            LlmResponse::Final { answer } => LlmResponse::Final { answer: answer.clone() },
            LlmResponse::UseTools { calls } => LlmResponse::UseTools { calls: copy_calls(calls) },
        }
    }
}

/// What the model is asked with on each turn.
#[derive(Debug)]
pub struct LlmChatInput {
    pub messages: Vec<Message>,
    pub tools: Vec<ToolSchema>,
    /// The run's [`AgentInput::output_schema`], part of every request.
    pub output_schema: Option<StructuredOutputFormat>,
}

/// Contents of an [`LlmChatInput`].
#[verifier::ext_equal]
pub struct LlmChatInputView {
    pub messages: Seq<MessageView>,
    pub tools: Seq<ToolSchemaView>,
    pub output_schema: Option<StructuredOutputFormat>,
}

impl View for LlmChatInput {
    type V = LlmChatInputView;

    open spec fn view(&self) -> LlmChatInputView {
        LlmChatInputView {
            messages: message_views(self.messages@),
            tools: schema_views(self.tools@),
            output_schema: self.output_schema,
        }
    }
}

impl Clone for LlmChatInput {
    fn clone(&self) -> (r: Self)
        ensures
            r@ == self@,
    {
        LlmChatInput {
            messages: copy_messages(&self.messages),
            tools: copy_schemas(&self.tools),
            output_schema: copy_schema(&self.output_schema),
        }
    }
}

/// Description of a tool sent to the model so it knows what it can call.
#[derive(Debug, PartialEq)]
pub struct ToolSchema {
    pub name: String,
    pub description: String,
    pub args_schema: Value,
}

/// Contents of a [`ToolSchema`].
#[verifier::ext_equal]
pub struct ToolSchemaView {
    pub name: Seq<char>,
    pub description: Seq<char>,
    pub args_schema: Value,
}

impl View for ToolSchema {
    type V = ToolSchemaView;

    open spec fn view(&self) -> ToolSchemaView {
        ToolSchemaView {
            name: self.name@,
            description: self.description@,
            args_schema: self.args_schema,
        }
    }
}

impl Clone for ToolSchema {
    fn clone(&self) -> (r: Self)
        ensures
            r@ == self@,
    {
        ToolSchema {
            name: self.name.clone(),
            description: self.description.clone(),
            args_schema: copy_value(&self.args_schema),
        }
    }
}

/// The contents of each tool schema.
pub open spec fn schema_views(schemas: Seq<ToolSchema>) -> Seq<ToolSchemaView> {
    Seq::new(schemas.len(), |i: int| schemas[i]@)
}

/// The same tool schemas.
pub(crate) fn copy_schemas(schemas: &Vec<ToolSchema>) -> (r: Vec<ToolSchema>)
    ensures
        schema_views(r@) == schema_views(schemas@),
{
    let r = schemas.clone();
    assert(schema_views(r@) =~= schema_views(schemas@));
    r
}

/// Views show every field of what crosses between the loop and its activities.
pub proof fn law_views_show_every_field(
    input: AgentInput,
    output: AgentOutput,
    call: ToolCall,
    result: ToolResult,
    message: Message,
    state: AgentState,
)
    ensures
        input@.system_prompt == input.system_prompt@,
        input@.user_message == input.user_message@,
        input@.max_turns == input.max_turns,
        input@.output_schema == input.output_schema,
        input@.recent.len() == input.recent@.len(),
        output@.final_answer == output.final_answer@,
        output@.stop_reason == output.stop_reason,
        output@.turns_used == output.turns_used,
        output@.tool_calls == output.tool_calls,
        call@.id == call.id@,
        call@.name == call.name@,
        call@.args == call.args,
        result@.call_id == result.call_id@,
        result@.output == result.output,
        (result@.error is Some) == (result.error is Some),
        result.error is Some ==> result@.error->0 == result.error->0@,
        message@.role == message.role,
        message@.content == message.content@,
        message@.tool_calls.len() == message.tool_calls@.len(),
        (message@.tool_call_id is Some) == (message.tool_call_id is Some),
        message.tool_call_id is Some ==> message@.tool_call_id->0 == message.tool_call_id->0@,
        state@.input == state.input@,
        state@.history.len() == state.history@.len(),
        state@.turn == state.turn,
        state@.tool_calls_executed == state.tool_calls_executed,
        state@.pending_user_messages.len() == state.pending_user_messages@.len(),
{
}

/// Views show every item of a list, in order.
pub proof fn law_views_show_every_item(
    input: AgentInput,
    message: Message,
    state: AgentState,
    request: LlmChatInput,
    i: int,
)
    ensures
        0 <= i < input.recent@.len() ==> input@.recent[i] == input.recent@[i]@,
        0 <= i < message.tool_calls@.len() ==> message@.tool_calls[i] == message.tool_calls@[i]@,
        0 <= i < state.history@.len() ==> state@.history[i] == state.history@[i]@,
        0 <= i < state.pending_user_messages@.len() ==> state@.pending_user_messages[i]
            == state.pending_user_messages@[i]@,
        request@.messages.len() == request.messages@.len(),
        0 <= i < request.messages@.len() ==> request@.messages[i] == request.messages@[i]@,
        request@.tools.len() == request.tools@.len(),
        0 <= i < request.tools@.len() ==> request@.tools[i] == request.tools@[i]@,
        request@.output_schema == request.output_schema,
{
}

/// Views of replies and schemas show what they hold.
pub proof fn law_views_show_replies_and_schemas(
    answer: String,
    calls: Vec<ToolCall>,
    schema: ToolSchema,
    i: int,
)
    ensures
        (LlmResponse::Final { answer })@ == (LlmResponseView::Final { answer: answer@ }),
        (LlmResponse::UseTools { calls })@ is UseTools,
        (LlmResponse::UseTools { calls })@->calls.len() == calls@.len(),
        0 <= i < calls@.len() ==> (LlmResponse::UseTools { calls })@->calls[i] == calls@[i]@,
        schema@.name == schema.name@,
        schema@.description == schema.description@,
        schema@.args_schema == schema.args_schema,
{
}

/// A text message says who speaks and what, and no more.
pub proof fn law_text_message_is_its_text(role: Role, content: Seq<char>)
    ensures
        text_message(role, content).role == role,
        text_message(role, content).content == content,
        text_message(role, content).tool_calls.len() == 0,
        text_message(role, content).tool_call_id is None,
{
}

/// A request to run tools is the assistant's and holds just the calls.
pub proof fn law_calls_message_holds_the_calls(calls: Seq<ToolCallView>)
    ensures
        calls_message(calls).role == Role::Assistant,
        calls_message(calls).tool_calls == calls,
        calls_message(calls).content.len() == 0,
        calls_message(calls).tool_call_id is None,
{
}

/// What the model is shown of a result answers its call. A failure is marked as
/// one, and its whole text follows; an output is shown as its whole JSON text.
pub proof fn law_result_message_shows_the_result(result: ToolResultView)
    ensures
        result_message(result).role == Role::Tool,
        result_message(result).tool_call_id == Some(result.call_id),
        result_message(result).tool_calls.len() == 0,
        result.error is None ==> result_message(result).content == json_text(result.output),
        result.error is Some ==> {
            let shown = result_message(result).content;
            &&& "ERROR: "@.is_prefix_of(shown)
            &&& shown.skip(7) == result.error->0
        },
{
    reveal_strlit("ERROR: ");
    if let Some(error) = result.error {
        assert(("ERROR: "@ + error).skip(7) =~= error);
    }
}

/// A run begins with its system prompt and its user message as they were given,
/// on turn zero, with nothing executed and nothing pending.
pub proof fn law_run_begins_with_its_input(input: AgentInputView)
    ensures
        initial_state(input).input == input,
        initial_state(input).history.len() == 2,
        initial_state(input).history[0].role == Role::System,
        initial_state(input).history[0].content == input.system_prompt,
        initial_state(input).history[0].tool_calls.len() == 0,
        initial_state(input).history[0].tool_call_id is None,
        initial_state(input).history[1].role == Role::User,
        initial_state(input).history[1].content == input.user_message,
        initial_state(input).history[1].tool_calls.len() == 0,
        initial_state(input).history[1].tool_call_id is None,
        initial_state(input).turn == 0,
        initial_state(input).tool_calls_executed == 0,
        initial_state(input).pending_user_messages.len() == 0,
{
}

/// The last user message is the one that no other user message follows.
pub proof fn law_last_user_message_has_no_successor(history: Seq<MessageView>, i: int)
    requires
        -1 <= i < history.len(),
        i >= 0 ==> history[i].role == Role::User,
        forall|j: int| i < j < history.len() ==> (#[trigger] history[j]).role != Role::User,
    ensures
        i >= 0 ==> last_user(history) == Some(history[i].content),
        i < 0 ==> last_user(history) is None,
    decreases history.len(),
{
    if i < history.len() - 1 {
        assert(history.last().role != Role::User);
        assert forall|j: int| i < j < history.len() - 1 implies (
        #[trigger] history.drop_last()[j]).role != Role::User by {
            assert(history.drop_last()[j] == history[j]);
        }
        law_last_user_message_has_no_successor(history.drop_last(), i);
    }
}

/// A conversation begins with the first message of the history and ends with
/// the kept messages followed by all that the run added to its opening, each
/// message once and as it is. Between them stands the user message that opened
/// the run; it is left out only where the kept messages hold it as their last
/// user message.
pub proof fn law_conversation_holds_every_message(state: AgentStateView, i: int)
    requires
        state.history.len() >= 2,
    ensures
        ({
            let shown = conversation(state);
            let kept = state.input.recent;
            let tail = shown.len() - kept.len() - (state.history.len() - 2);
            &&& tail == 1 || tail == 2
            &&& shown[0] == state.history[0]
            &&& tail == 2 ==> shown[1] == state.history[1]
            &&& tail == 1 ==> last_user(kept) == Some(state.history[1].content)
                && state.history[1].role == Role::User
            &&& 0 <= i < kept.len() ==> shown[tail + i] == kept[i]
            &&& 2 <= i < state.history.len() ==> shown[tail + kept.len() + i - 2]
                == state.history[i]
        }),
{
}

/// The user message that opens a run is not shown twice: where it is the last of
/// the kept user messages, the conversation is the first message, the kept ones,
/// and what the run added.
pub proof fn law_kept_user_message_is_shown_once(state: AgentStateView)
    requires
        state.history.len() >= 2,
        state.history[1].role == Role::User,
        state.history[1].content == state.input.user_message,
        last_user(state.input.recent) == Some(state.input.user_message),
    ensures
        conversation(state).len() + 1 == state.history.len() + state.input.recent.len(),
{
}

} // verus!
