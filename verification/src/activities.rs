//! What the activities of the agent loop decide.
//!
//! The loop itself stays deterministic; calling the provider and running tools
//! is the worker's work. Here stands what goes into those calls and what is
//! made of their outcome.

use serde_json::Value;
use vstd::pervasive::cloned;
use vstd::prelude::*;

use crate::error::{AgentError, AgentErrorView};
use crate::json::{json_null, json_parse, null_value};
use crate::llm::{
    advertised, chat_request, chat_views, rendered, tool_views, ChatMessageView, ChatRequest,
};
use crate::state::{
    LlmChatInput, MessageView, ToolCall, ToolCallView, ToolResult, ToolResultView, ToolSchemaView,
};
use crate::tool::{lookup, schemas_of, ToolRegistry};

verus! {

/// What the activities of a worker share: the handle `L` of its provider, and
/// its tools.
pub struct AgentActivities<L, T> {
    pub llm: L,
    pub tools: ToolRegistry<T>,
}

impl<L, T> AgentActivities<L, T> {
    pub fn new(llm: L, tools: ToolRegistry<T>) -> (r: Self)
        ensures
            r.llm == llm,
            r.tools == tools,
    {
        AgentActivities { llm, tools }
    }

    /// What the provider is asked with for one reasoning step: the whole
    /// conversation, every tool, and the schema of the final answer.
    pub fn llm_chat(&self, input: LlmChatInput) -> (r: ChatRequest)
        ensures
            chat_views(r.messages@) == input@.messages.map_values(
                |m: MessageView| ChatMessageView { role: m.role, content: rendered(m) },
            ),
            tool_views(r.tools@) == input@.tools.map_values(|s: ToolSchemaView| advertised(s)),
            r.output_schema == input.output_schema,
    {
        chat_request(input.messages.as_slice(), input.tools.as_slice(), input.output_schema)
    }

    /// The tool that a call names, or the error of a missing registration.
    pub fn resolve_tool(&self, call: &ToolCall) -> (r: Result<&T, AgentError>)
        ensures
            match r {
                Ok(tool) => lookup(self.tools@, call.name@) == Some(*tool),
                Err(error) => lookup(self.tools@, call.name@) is None && error@
                    == AgentErrorView::ToolNotFound(call.name@),
            },
    {
        match self.tools.get(call.name.as_str()) {
            Some(tool) => Ok(tool),
            None => Err(AgentError::ToolNotFound(call.name.clone())),
        }
    }
}

impl<L: Clone, T: Clone> Clone for AgentActivities<L, T> {
    fn clone(&self) -> (r: Self)
        ensures
            cloned(self.llm, r.llm),
            schemas_of(r.tools@) == schemas_of(self.tools@),
            forall|i: int|
                0 <= i < self.tools@.len() ==> cloned(
                    self.tools@[i].1,
                    (#[trigger] r.tools@[i]).1,
                ),
    {
        AgentActivities { llm: self.llm.clone(), tools: self.tools.clone() }
    }
}

/// The result of a call, given what its tool returned or how it failed.
pub open spec fn outcome_of(
    call: ToolCallView,
    outcome: Result<Value, Seq<char>>,
) -> ToolResultView {
    match outcome {
        Ok(output) => ToolResultView { call_id: call.id, output, error: None },
        Err(error) => ToolResultView { call_id: call.id, output: json_null(), error: Some(error) },
    }
}

/// The result of a call, given what its tool returned or how it failed.
///
/// A tool's failure is a result like any other: the model observes it, and
/// nothing retries it.
pub fn tool_outcome(call: &ToolCall, outcome: Result<Value, String>) -> (r: ToolResult)
    ensures
        r@ == outcome_of(
            call@,
            match outcome {
                Ok(output) => Ok(output),
                Err(error) => Err(error@),
            },
        ),
{
    match outcome {
        Ok(output) => ToolResult { call_id: call.id.clone(), output, error: None },
        Err(error) => ToolResult {
            call_id: call.id.clone(),
            output: null_value(),
            error: Some(error),
        },
    }
}

/// A result answers its call: it carries the call's id, and either the output
/// that the tool returned and no failure, or the text of its failure.
pub proof fn law_outcome_answers_its_call(call: ToolCallView, output: Value, failure: Seq<char>)
    ensures
        outcome_of(call, Ok(output)).call_id == call.id,
        outcome_of(call, Ok(output)).output == output,
        outcome_of(call, Ok(output)).error is None,
        outcome_of(call, Err(failure)).call_id == call.id,
        outcome_of(call, Err(failure)).error == Some(failure),
        json_parse("null"@) is Ok ==> json_parse("null"@) == Ok::<Value, Seq<char>>(
            outcome_of(call, Err(failure)).output,
        ),
{
}

} // verus!
