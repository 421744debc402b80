//! Errors of activities and of the agent loop.

use vstd::prelude::*;
use vstd::std_specs::convert::FromSpecImpl;

use crate::json::{error_text, json_error_text};

verus! {

/// Errors surfaced by activities and the agent loop.
///
/// The variants say where an error comes from, and with that whether it is
/// worth another try: see [`AgentError::is_retryable`].
#[derive(Debug)]
pub enum AgentError {
    /// Upstream LLM provider error (network, rate limit, auth, etc.).
    Llm(String),
    /// The model called a tool that the worker hasn't registered.
    ToolNotFound(String),
    /// The model's reply couldn't be parsed into a
    /// [`crate::state::LlmResponse`].
    ResponseParse(String),
    /// JSON failure crossing the activity boundary.
    Serde(serde_json::Error),
    /// Catch-all for activity-side failures we don't otherwise classify.
    Other(String),
}

/// Contents of an [`AgentError`].
#[verifier::ext_equal]
pub enum AgentErrorView {
    Llm(Seq<char>),
    ToolNotFound(Seq<char>),
    ResponseParse(Seq<char>),
    Serde(serde_json::Error),
    Other(Seq<char>),
}

impl View for AgentError {
    type V = AgentErrorView;

    open spec fn view(&self) -> AgentErrorView {
        match self {
            AgentError::Llm(detail) => AgentErrorView::Llm(detail@),
            AgentError::ToolNotFound(name) => AgentErrorView::ToolNotFound(name@),
            AgentError::ResponseParse(detail) => AgentErrorView::ResponseParse(detail@),
            AgentError::Serde(error) => AgentErrorView::Serde(*error),
            AgentError::Other(detail) => AgentErrorView::Other(detail@),
        }
    }
}

/// The text that an error shows to a reader.
pub open spec fn error_message(error: AgentErrorView) -> Seq<char> {
    match error {
        AgentErrorView::Llm(detail) => "LLM provider error: "@ + detail,
        AgentErrorView::ToolNotFound(name) => "tool '"@ + name
            + "' not registered with this worker"@,
        AgentErrorView::ResponseParse(detail) => "could not parse LLM response: "@ + detail,
        AgentErrorView::Serde(error) => "serde error: "@ + json_error_text(error),
        AgentErrorView::Other(detail) => detail,
    }
}

impl AgentError {
    /// Returns `true` when the error is worth a retry.
    ///
    /// Network blips, rate limits, and transient provider hiccups are
    /// retryable; missing tool registrations and parse failures are not:
    /// they indicate a code bug, not a transient condition.
    pub fn is_retryable(&self) -> (r: bool)
        ensures
            r == (self is Llm || self is Other),
    {
        match self {
            AgentError::Llm(_) | AgentError::Other(_) => true,
            _ => false,
        }
    }

    /// The text that the error shows to a reader.
    pub fn message(&self) -> (r: String)
        ensures
            r@ == error_message(self@),
    {
        match self {
            AgentError::Llm(detail) => "LLM provider error: ".to_owned().concat(detail.as_str()),
            AgentError::ToolNotFound(name) => "tool '".to_owned().concat(name.as_str()).concat(
                "' not registered with this worker",
            ),
            AgentError::ResponseParse(detail) => "could not parse LLM response: ".to_owned().concat(
                detail.as_str(),
            ),
            AgentError::Serde(error) => "serde error: ".to_owned().concat(
                error_text(error).as_str(),
            ),
            AgentError::Other(detail) => detail.clone(),
        }
    }
}

impl From<serde_json::Error> for AgentError {
    fn from(error: serde_json::Error) -> (r: Self) {
        AgentError::Serde(error)
    }
}

impl FromSpecImpl<serde_json::Error> for AgentError {
    open spec fn obeys_from_spec() -> bool {
        true
    }

    open spec fn from_spec(error: serde_json::Error) -> Self {
        AgentError::Serde(error)
    }
}

/// The text of an error says where it comes from and then, in full, what it is
/// about.
pub proof fn law_message_shows_the_detail(detail: Seq<char>, error: serde_json::Error)
    ensures
        error_message(AgentErrorView::Llm(detail)).take(20) == "LLM provider error: "@,
        error_message(AgentErrorView::Llm(detail)).skip(20) == detail,
        error_message(AgentErrorView::ResponseParse(detail)).take(30)
            == "could not parse LLM response: "@,
        error_message(AgentErrorView::ResponseParse(detail)).skip(30) == detail,
        error_message(AgentErrorView::Serde(error)).take(13) == "serde error: "@,
        error_message(AgentErrorView::Serde(error)).skip(13) == json_error_text(error),
        error_message(AgentErrorView::Other(detail)) == detail,
        error_message(AgentErrorView::ToolNotFound(detail)).take(6) == "tool '"@,
        error_message(AgentErrorView::ToolNotFound(detail)).subrange(6, 6 + detail.len() as int)
            == detail,
        error_message(AgentErrorView::ToolNotFound(detail)).skip(6 + detail.len() as int)
            == "' not registered with this worker"@,
{
    reveal_strlit("LLM provider error: ");
    reveal_strlit("could not parse LLM response: ");
    reveal_strlit("serde error: ");
    reveal_strlit("tool '");
    let llm = error_message(AgentErrorView::Llm(detail));
    assert(llm.take(20) =~= "LLM provider error: "@);
    assert(llm.skip(20) =~= detail);
    let parse = error_message(AgentErrorView::ResponseParse(detail));
    assert(parse.take(30) =~= "could not parse LLM response: "@);
    assert(parse.skip(30) =~= detail);
    let serde = error_message(AgentErrorView::Serde(error));
    assert(serde.take(13) =~= "serde error: "@);
    assert(serde.skip(13) =~= json_error_text(error));
    let missing = error_message(AgentErrorView::ToolNotFound(detail));
    assert(missing.take(6) =~= "tool '"@);
    assert(missing.subrange(6, 6 + detail.len() as int) =~= detail);
    assert(missing.skip(6 + detail.len() as int) =~= "' not registered with this worker"@);
}

/// The view of an error shows its kind and its detail.
pub proof fn law_view_shows_the_error(detail: String, error: serde_json::Error)
    ensures
        AgentError::Llm(detail)@ == AgentErrorView::Llm(detail@),
        AgentError::ToolNotFound(detail)@ == AgentErrorView::ToolNotFound(detail@),
        AgentError::ResponseParse(detail)@ == AgentErrorView::ResponseParse(detail@),
        AgentError::Serde(error)@ == AgentErrorView::Serde(error),
        AgentError::Other(detail)@ == AgentErrorView::Other(detail@),
{
}

} // verus!
