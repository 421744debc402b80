//! The durable agent loop as a state machine.
//!
//! A run asks the model, runs the tools that the model calls for, shows it
//! their results, and asks again, until the model gives a final answer or the
//! cap on turns is reached. [`AgentWorkflow`] takes every decision of that loop:
//! each of its steps takes one recorded event and returns the [`Action`] that
//! the worker performs next. The steps have no other input than the state, the
//! event and the worker's fixed configuration, so feeding the recorded events
//! again leads to the same actions.

use vstd::prelude::*;

use crate::memory::MemoryProvider;
use crate::state::{
    call_views, calls_message, conversation, copy_calls, copy_schema, copy_schemas, initial_state,
    message_views, result_message, schema_views, text_message, AgentInput, AgentInputView,
    AgentOutput, AgentOutputView, AgentState, AgentStateView, LlmChatInput, LlmChatInputView,
    LlmResponse, LlmResponseView, Message, MessageView, Role, StopReason, ToolCall, ToolCallView,
    ToolResult, ToolResultView, ToolSchema, ToolSchemaView,
};
use crate::text::string_views;

verus! {

/// Seconds that a model call may take.
pub const LLM_TIMEOUT_SECS: u64 = 120;

/// Seconds between two signs of life of a model call.
pub const LLM_HEARTBEAT_SECS: u64 = 30;

/// Seconds that a tool may take. Generous, so that tools that wait for a human
/// have time to complete.
pub const TOOL_TIMEOUT_SECS: u64 = 3600;

/// How often the worker retries a model or tool call after a failure of the
/// infrastructure. What a tool reports as its failure is a result, and is not
/// retried.
pub const ACTIVITY_MAX_RETRIES: u32 = 3;

/// Limits within which the worker performs an action.
#[derive(Debug, Clone, Copy, PartialEq, Eq)]
pub struct ActivityLimits {
    /// Seconds that one attempt may take.
    pub timeout_secs: u64,
    /// Seconds between two signs of life, where any are asked for.
    pub heartbeat_secs: Option<u64>,
    /// Attempts after the first one.
    pub max_retries: u32,
}

/// What the worker does next.
#[derive(Debug)]
pub enum Action {
    /// Ask the model.
    CallLlm(LlmChatInput),
    /// Run a tool.
    CallTool(ToolCall),
    /// End this run and continue with a new one.
    ContinueAsNew(AgentInput),
    /// End this run with its result.
    Finish(AgentOutput),
}

/// Contents of an [`Action`].
#[verifier::ext_equal]
pub enum ActionView {
    CallLlm(LlmChatInputView),
    CallTool(ToolCallView),
    ContinueAsNew(AgentInputView),
    Finish(AgentOutputView),
}

impl View for Action {
    type V = ActionView;

    open spec fn view(&self) -> ActionView {
        match self {
            Action::CallLlm(input) => ActionView::CallLlm(input@),
            Action::CallTool(call) => ActionView::CallTool(call@),
            Action::ContinueAsNew(input) => ActionView::ContinueAsNew(input@),
            Action::Finish(output) => ActionView::Finish(output@),
        }
    }
}

/// The limits of an action: those of a model call or of a tool call. Ending a
/// run has none.
pub open spec fn limits_of(action: ActionView) -> Option<ActivityLimits> {
    match action {
        ActionView::CallLlm(_) => Some(
            ActivityLimits {
                timeout_secs: LLM_TIMEOUT_SECS,
                heartbeat_secs: Some(LLM_HEARTBEAT_SECS),
                max_retries: ACTIVITY_MAX_RETRIES,
            },
        ),
        ActionView::CallTool(_) => Some(
            ActivityLimits {
                timeout_secs: TOOL_TIMEOUT_SECS,
                heartbeat_secs: None,
                max_retries: ACTIVITY_MAX_RETRIES,
            },
        ),
        _ => None,
    }
}

impl Action {
    /// The limits within which the worker performs the action.
    pub fn limits(&self) -> (r: Option<ActivityLimits>)
        ensures
            r == limits_of(self@),
    {
        match self {
            Action::CallLlm(_) => Some(
                ActivityLimits {
                    timeout_secs: LLM_TIMEOUT_SECS,
                    heartbeat_secs: Some(LLM_HEARTBEAT_SECS),
                    max_retries: ACTIVITY_MAX_RETRIES,
                },
            ),
            Action::CallTool(_) => Some(
                ActivityLimits {
                    timeout_secs: TOOL_TIMEOUT_SECS,
                    heartbeat_secs: None,
                    max_retries: ACTIVITY_MAX_RETRIES,
                },
            ),
            _ => None,
        }
    }
}

#[derive(Debug)]
enum Phase {
    Idle,
    AwaitingLlm,
    AwaitingTools(Vec<ToolCall>),
    Ended,
}

/// What a run waits for.
#[verifier::ext_equal]
pub enum PhaseView {
    /// Not started.
    Idle,
    /// The model's reply.
    AwaitingLlm,
    /// The results of these calls. The first of them is running.
    AwaitingTools(Seq<ToolCallView>),
    /// Nothing: the run is over.
    Ended,
}

/// Contents of an [`AgentWorkflow`].
#[verifier::ext_equal]
pub struct RunView {
    pub state: AgentStateView,
    pub phase: PhaseView,
}

/// Durable agent run.
#[derive(Debug)]
pub struct AgentWorkflow {
    state: AgentState,
    phase: Phase,
}

impl Phase {
    spec fn contents(&self) -> PhaseView {
        match self {
            Phase::Idle => PhaseView::Idle,
            Phase::AwaitingLlm => PhaseView::AwaitingLlm,
            Phase::AwaitingTools(calls) => PhaseView::AwaitingTools(call_views(calls@)),
            Phase::Ended => PhaseView::Ended,
        }
    }
}

impl View for AgentWorkflow {
    type V = RunView;

    closed spec fn view(&self) -> RunView {
        RunView { state: self.state@, phase: self.phase.contents() }
    }
}

/// What holds of every run: a turn is under way only below the cap, and tools
/// are awaited only where there are some.
pub open spec fn valid_run(run: RunView) -> bool {
    match run.phase {
        PhaseView::Idle => true,
        PhaseView::AwaitingLlm => run.state.turn < run.state.input.max_turns,
        PhaseView::AwaitingTools(calls) => run.state.turn < run.state.input.max_turns
            && calls.len() > 0,
        PhaseView::Ended => true,
    }
}

/// The messages that user texts become.
pub open spec fn user_messages(texts: Seq<Seq<char>>) -> Seq<MessageView> {
    texts.map_values(|text: Seq<char>| text_message(Role::User, text))
}

/// The state with its pending user messages moved to the end of the history.
pub open spec fn drained(state: AgentStateView) -> AgentStateView {
    AgentStateView {
        history: state.history + user_messages(state.pending_user_messages),
        pending_user_messages: Seq::empty(),
        ..state
    }
}

/// The result of a run that ends in this state.
pub open spec fn output_of(
    state: AgentStateView,
    stop_reason: StopReason,
    answer: Seq<char>,
) -> AgentOutputView {
    AgentOutputView {
        final_answer: answer,
        stop_reason,
        turns_used: state.turn,
        tool_calls: state.tool_calls_executed,
    }
}

/// The request to the model in this state: the whole conversation, the tools of
/// the worker, and the run's output schema.
pub open spec fn chat_input_of(
    state: AgentStateView,
    catalog: Seq<ToolSchemaView>,
) -> LlmChatInputView {
    LlmChatInputView {
        messages: conversation(state),
        tools: catalog,
        output_schema: state.input.output_schema,
    }
}

/// The beginning of a turn: pending user messages join the history; then the run
/// ends at the cap on turns, is compacted where the memory says so, or asks the
/// model.
pub open spec fn turn_start<M: MemoryProvider + ?Sized>(
    memory: &M,
    catalog: Seq<ToolSchemaView>,
    state: AgentStateView,
) -> (RunView, ActionView) {
    let state = drained(state);
    if state.turn >= state.input.max_turns {
        (
            RunView { state, phase: PhaseView::Ended },
            ActionView::Finish(
                output_of(state, StopReason::MaxTurnsReached, "[max turns reached]"@),
            ),
        )
    } else if memory.compacts(state) {
        (
            RunView { state, phase: PhaseView::Ended },
            ActionView::ContinueAsNew(memory.compaction(state)),
        )
    } else {
        (
            RunView { state, phase: PhaseView::AwaitingLlm },
            ActionView::CallLlm(chat_input_of(state, catalog)),
        )
    }
}

/// The end of a turn with tools: the turn is counted and the next one begins.
pub open spec fn turn_end<M: MemoryProvider + ?Sized>(
    memory: &M,
    catalog: Seq<ToolSchemaView>,
    state: AgentStateView,
) -> (RunView, ActionView) {
    turn_start(memory, catalog, AgentStateView { turn: (state.turn + 1) as u32, ..state })
}

/// Runs the first of these calls, or ends the turn where none is left.
pub open spec fn next_call<M: MemoryProvider + ?Sized>(
    memory: &M,
    catalog: Seq<ToolSchemaView>,
    state: AgentStateView,
    calls: Seq<ToolCallView>,
) -> (RunView, ActionView) {
    if calls.len() == 0 {
        turn_end(memory, catalog, state)
    } else {
        (
            RunView { state, phase: PhaseView::AwaitingTools(calls) },
            ActionView::CallTool(calls[0]),
        )
    }
}

/// The step on the model's reply: a final answer ends the run, and tool calls
/// are run one after the other.
pub open spec fn after_response<M: MemoryProvider + ?Sized>(
    memory: &M,
    catalog: Seq<ToolSchemaView>,
    state: AgentStateView,
    response: LlmResponseView,
) -> (RunView, ActionView) {
    match response {
        LlmResponseView::Final { answer } => {
            let state = AgentStateView {
                history: state.history.push(text_message(Role::Assistant, answer)),
                ..state
            };
            (
                RunView { state, phase: PhaseView::Ended },
                ActionView::Finish(output_of(state, StopReason::FinalAnswer, answer)),
            )
        },
        LlmResponseView::UseTools { calls } => {
            let state = AgentStateView {
                history: state.history.push(calls_message(calls)),
                ..state
            };
            next_call(memory, catalog, state, calls)
        },
    }
}

/// The step on a tool's result, while these calls are awaited.
pub open spec fn after_result<M: MemoryProvider + ?Sized>(
    memory: &M,
    catalog: Seq<ToolSchemaView>,
    state: AgentStateView,
    calls: Seq<ToolCallView>,
    result: ToolResultView,
) -> (RunView, ActionView) {
    let state = AgentStateView {
        history: state.history.push(result_message(result)),
        tool_calls_executed: (state.tool_calls_executed + 1) as u32,
        ..state
    };
    next_call(memory, catalog, state, calls.drop_first())
}

fn build_output(state: &AgentState, stop_reason: StopReason, answer: &str) -> (r: AgentOutput)
    ensures
        r@ == output_of(state@, stop_reason, answer@),
{
    AgentOutput {
        final_answer: answer.to_owned(),
        stop_reason,
        turns_used: state.turn,
        tool_calls: state.tool_calls_executed,
    }
}

impl AgentWorkflow {
    /// Starts the run: initializes the state from `input` and begins the first
    /// turn.
    pub fn start<M: MemoryProvider + ?Sized>(
        &mut self,
        input: AgentInput,
        memory: &M,
        catalog: &Vec<ToolSchema>,
    ) -> (r: Action)
        ensures
            (final(self)@, r@) == turn_start(
                memory,
                schema_views(catalog@),
                initial_state(input@),
            ),
            valid_run(final(self)@),
    {
        self.state = AgentState::new(input);
        self.begin_turn(memory, catalog)
    }

    /// Takes the model's reply.
    pub fn on_llm_response<M: MemoryProvider + ?Sized>(
        &mut self,
        response: LlmResponse,
        memory: &M,
        catalog: &Vec<ToolSchema>,
    ) -> (r: Action)
        requires
            valid_run(old(self)@),
            old(self)@.phase is AwaitingLlm,
        ensures
            (final(self)@, r@) == after_response(
                memory,
                schema_views(catalog@),
                old(self)@.state,
                response@,
            ),
            valid_run(final(self)@),
    {
        match response {
            LlmResponse::Final { answer } => {
                self.push(Message::assistant_text(answer.as_str()));
                self.phase = Phase::Ended;
                Action::Finish(build_output(&self.state, StopReason::FinalAnswer, answer.as_str()))
            },
            LlmResponse::UseTools { calls } => {
                self.push(Message::assistant_with_tools(copy_calls(&calls)));
                self.dispatch(calls, memory, catalog)
            },
        }
    }

    /// Takes a tool's result.
    pub fn on_tool_result<M: MemoryProvider + ?Sized>(
        &mut self,
        result: &ToolResult,
        memory: &M,
        catalog: &Vec<ToolSchema>,
    ) -> (r: Action)
        requires
            valid_run(old(self)@),
            old(self)@.phase is AwaitingTools,
            old(self)@.state.tool_calls_executed < u32::MAX,
        ensures
            (final(self)@, r@) == after_result(
                memory,
                schema_views(catalog@),
                old(self)@.state,
                old(self)@.phase->AwaitingTools_0,
                result@,
            ),
            valid_run(final(self)@),
    {
        let mut calls: Vec<ToolCall> = Vec::new();
        if let Phase::AwaitingTools(waiting) = &self.phase {
            calls = copy_calls(waiting);
        }
        let ghost awaited = call_views(calls@);
        self.push(Message::tool_result(result));
        self.state.tool_calls_executed = self.state.tool_calls_executed + 1;
        calls.remove(0);
        assert(call_views(calls@) =~= awaited.drop_first());
        self.dispatch(calls, memory, catalog)
    }

    /// Adds a user message in the middle of the conversation.
    ///
    /// It waits until the next turn begins, so the history never changes while
    /// the model is being asked.
    pub fn add_user_message(&mut self, msg: String)
        ensures
            final(self)@ == (RunView {
                state: AgentStateView {
                    pending_user_messages: old(self)@.state.pending_user_messages.push(msg@),
                    ..old(self)@.state
                },
                phase: old(self)@.phase,
            }),
    {
        let ghost before = self.state.pending_user_messages@;
        self.state.pending_user_messages.push(msg);
        assert(string_views(self.state.pending_user_messages@) =~= string_views(before).push(msg@));
    }

    /// Reads the full live state.
    pub fn get_state(&self) -> (r: AgentState)
        ensures
            r@ == self@.state,
    {
        self.state.clone()
    }

    /// Cheap turn counter for monitoring.
    pub fn turn_count(&self) -> (r: u32)
        ensures
            r == self@.state.turn,
    {
        self.state.turn
    }

    /// Number of tool calls executed so far.
    pub fn tool_call_count(&self) -> (r: u32)
        ensures
            r == self@.state.tool_calls_executed,
    {
        self.state.tool_calls_executed
    }

    fn push(&mut self, message: Message)
        ensures
            final(self)@ == (RunView {
                state: AgentStateView {
                    history: old(self)@.state.history.push(message@),
                    ..old(self)@.state
                },
                phase: old(self)@.phase,
            }),
    {
        let ghost before = self.state.history@;
        self.state.history.push(message);
        assert(message_views(self.state.history@) =~= message_views(before).push(message@));
    }

    fn drain_pending(&mut self)
        ensures
            final(self)@ == (RunView { state: drained(old(self)@.state), phase: old(self)@.phase }),
    {
        let ghost before = self@;
        let mut i: usize = 0;
        assert(user_messages(before.state.pending_user_messages.take(0)) =~= Seq::empty());
        assert(before.state.history + Seq::<MessageView>::empty() =~= before.state.history);
        while i < self.state.pending_user_messages.len()
            invariant
                i <= self.state.pending_user_messages.len(),
                string_views(self.state.pending_user_messages@)
                    == before.state.pending_user_messages,
                self@ == (RunView {
                    state: AgentStateView {
                        history: before.state.history + user_messages(
                            before.state.pending_user_messages.take(i as int),
                        ),
                        ..before.state
                    },
                    phase: before.phase,
                }),
            decreases self.state.pending_user_messages.len() - i,
        {
            let ghost pending = before.state.pending_user_messages;
            let message = Message::user(self.state.pending_user_messages[i].clone());
            self.push(message);
            assert(string_views(self.state.pending_user_messages@) == pending);
            assert(self.state.pending_user_messages.len() == pending.len());
            assert(user_messages(pending.take(i + 1)) =~= user_messages(pending.take(i as int)).push(
                text_message(Role::User, pending[i as int]),
            ));
            assert(before.state.history + user_messages(pending.take(i + 1)) =~= (
            before.state.history + user_messages(pending.take(i as int))).push(
                text_message(Role::User, pending[i as int]),
            ));
            i = i + 1;
        }
        assert(before.state.pending_user_messages.take(i as int)
            =~= before.state.pending_user_messages);
        self.state.pending_user_messages = Vec::new();
        assert(string_views(self.state.pending_user_messages@) =~= Seq::empty());
    }

    fn begin_turn<M: MemoryProvider + ?Sized>(
        &mut self,
        memory: &M,
        catalog: &Vec<ToolSchema>,
    ) -> (r: Action)
        ensures
            (final(self)@, r@) == turn_start(memory, schema_views(catalog@), old(self)@.state),
            valid_run(final(self)@),
    {
        self.drain_pending();
        if self.state.turn >= self.state.input.max_turns {
            self.phase = Phase::Ended;
            return Action::Finish(
                build_output(&self.state, StopReason::MaxTurnsReached, "[max turns reached]"),
            );
        }
        if memory.should_compact(&self.state) {
            self.phase = Phase::Ended;
            return Action::ContinueAsNew(memory.compact(&self.state));
        }
        self.phase = Phase::AwaitingLlm;
        Action::CallLlm(
            LlmChatInput {
                messages: self.state.conversation(),
                tools: copy_schemas(catalog),
                output_schema: copy_schema(&self.state.input.output_schema),
            },
        )
    }

    fn dispatch<M: MemoryProvider + ?Sized>(
        &mut self,
        calls: Vec<ToolCall>,
        memory: &M,
        catalog: &Vec<ToolSchema>,
    ) -> (r: Action)
        requires
            old(self)@.state.turn < old(self)@.state.input.max_turns,
        ensures
            (final(self)@, r@) == next_call(
                memory,
                schema_views(catalog@),
                old(self)@.state,
                call_views(calls@),
            ),
            valid_run(final(self)@),
    {
        if calls.len() == 0 {
            self.state.turn = self.state.turn + 1;
            return self.begin_turn(memory, catalog);
        }
        let first = calls[0].clone();
        self.phase = Phase::AwaitingTools(calls);
        Action::CallTool(first)
    }
}

impl Default for AgentWorkflow {
    fn default() -> (r: Self)
        ensures
            r@ == (RunView {
                state: AgentStateView {
                    input: AgentInputView {
                        system_prompt: Seq::empty(),
                        user_message: Seq::empty(),
                        max_turns: 0,
                        output_schema: None,
                        recent: Seq::empty(),
                    },
                    history: Seq::empty(),
                    turn: 0,
                    tool_calls_executed: 0,
                    pending_user_messages: Seq::empty(),
                },
                phase: PhaseView::Idle,
            }),
    {
        AgentWorkflow { state: AgentState::default(), phase: Phase::Idle }
    }
}

/// The messages that user texts become are theirs, one for one and as they are.
pub proof fn law_user_messages_show_every_text(texts: Seq<Seq<char>>, i: int)
    requires
        0 <= i < texts.len(),
    ensures
        user_messages(texts).len() == texts.len(),
        user_messages(texts)[i].role == Role::User,
        user_messages(texts)[i].content == texts[i],
        user_messages(texts)[i].tool_calls.len() == 0,
        user_messages(texts)[i].tool_call_id is None,
{
}

/// A turn begins with every pending message moved to the end of the history, in
/// order, and with nothing else changed. Then the run reports the cap where it
/// is reached, continues as a new one where the memory says so, and asks the
/// model, with all of the conversation, everywhere else.
pub proof fn law_turn_begins_with_one_of_three<M: MemoryProvider + ?Sized>(
    memory: &M,
    catalog: Seq<ToolSchemaView>,
    state: AgentStateView,
)
    ensures
        ({
            let (run, action) = turn_start(memory, catalog, state);
            let known = state.history.len() as int;
            &&& run.state.input == state.input
            &&& run.state.turn == state.turn
            &&& run.state.tool_calls_executed == state.tool_calls_executed
            &&& run.state.pending_user_messages.len() == 0
            &&& run.state.history.take(known) == state.history
            &&& run.state.history.skip(known) == user_messages(state.pending_user_messages)
            &&& run.state.history.len() == known + state.pending_user_messages.len()
            &&& state.turn >= state.input.max_turns ==> run.phase is Ended && action
                == ActionView::Finish(
                AgentOutputView {
                    final_answer: "[max turns reached]"@,
                    stop_reason: StopReason::MaxTurnsReached,
                    turns_used: state.turn,
                    tool_calls: state.tool_calls_executed,
                },
            )
            &&& state.turn < state.input.max_turns && memory.compacts(run.state)
                ==> run.phase is Ended && action == ActionView::ContinueAsNew(
                memory.compaction(run.state),
            )
            &&& state.turn < state.input.max_turns && !memory.compacts(run.state)
                ==> run.phase is AwaitingLlm && action == ActionView::CallLlm(
                LlmChatInputView {
                    messages: conversation(run.state),
                    tools: catalog,
                    output_schema: state.input.output_schema,
                },
            )
        }),
{
    let (run, action) = turn_start(memory, catalog, state);
    let known = state.history.len() as int;
    assert(run.state.history.take(known) =~= state.history);
    assert(run.state.history.skip(known) =~= user_messages(state.pending_user_messages));
}

/// A final answer ends the run: it is reported word for word, with the turns and
/// the tool calls that were counted, and stands at the end of the history as
/// what the assistant said. Nothing else of the state changes.
pub proof fn law_final_answer_is_the_result<M: MemoryProvider + ?Sized>(
    memory: &M,
    catalog: Seq<ToolSchemaView>,
    state: AgentStateView,
    answer: Seq<char>,
)
    ensures
        ({
            let (run, action) = after_response(
                memory,
                catalog,
                state,
                LlmResponseView::Final { answer },
            );
            &&& run.phase is Ended
            &&& action == ActionView::Finish(
                AgentOutputView {
                    final_answer: answer,
                    stop_reason: StopReason::FinalAnswer,
                    turns_used: state.turn,
                    tool_calls: state.tool_calls_executed,
                },
            )
            &&& run.state.history.len() == state.history.len() + 1
            &&& run.state.history.drop_last() == state.history
            &&& run.state.history.last().role == Role::Assistant
            &&& run.state.history.last().content == answer
            &&& run.state.history.last().tool_calls.len() == 0
            &&& run.state.input == state.input
            &&& run.state.turn == state.turn
            &&& run.state.tool_calls_executed == state.tool_calls_executed
            &&& run.state.pending_user_messages == state.pending_user_messages
        }),
{
    let (run, action) = after_response(
        memory,
        catalog,
        state,
        LlmResponseView::Final { answer },
    );
    assert(run.state.history.drop_last() =~= state.history);
}

/// A request for tools goes into the history with all of its calls. The first
/// call is run, and the others wait, in order. Nothing else of the state changes.
pub proof fn law_request_for_tools_runs_the_first<M: MemoryProvider + ?Sized>(
    memory: &M,
    catalog: Seq<ToolSchemaView>,
    state: AgentStateView,
    calls: Seq<ToolCallView>,
)
    requires
        calls.len() > 0,
    ensures
        ({
            let (run, action) = after_response(
                memory,
                catalog,
                state,
                LlmResponseView::UseTools { calls },
            );
            &&& action == ActionView::CallTool(calls[0])
            &&& run.phase == PhaseView::AwaitingTools(calls)
            &&& run.state.history.len() == state.history.len() + 1
            &&& run.state.history.drop_last() == state.history
            &&& run.state.history.last().role == Role::Assistant
            &&& run.state.history.last().tool_calls == calls
            &&& run.state.input == state.input
            &&& run.state.turn == state.turn
            &&& run.state.tool_calls_executed == state.tool_calls_executed
            &&& run.state.pending_user_messages == state.pending_user_messages
        }),
{
    let (run, action) = after_response(
        memory,
        catalog,
        state,
        LlmResponseView::UseTools { calls },
    );
    assert(run.state.history.drop_last() =~= state.history);
}

/// A request for no tool at all goes into the history as such, and is a turn: it
/// is counted, and the next one begins.
pub proof fn law_empty_request_is_a_turn<M: MemoryProvider + ?Sized>(
    memory: &M,
    catalog: Seq<ToolSchemaView>,
    state: AgentStateView,
    next: AgentStateView,
)
    requires
        state.turn < u32::MAX,
        next.input == state.input,
        next.history.len() == state.history.len() + 1,
        next.history.drop_last() == state.history,
        next.history.last() == calls_message(Seq::empty()),
        next.tool_calls_executed == state.tool_calls_executed,
        next.pending_user_messages == state.pending_user_messages,
        next.turn == state.turn + 1,
    ensures
        after_response(
            memory,
            catalog,
            state,
            LlmResponseView::UseTools { calls: Seq::empty() },
        ) == turn_start(memory, catalog, next),
{
    assert(next.history =~= state.history.push(calls_message(Seq::empty())));
}

/// A tool's result goes into the history as the answer to its call, and is
/// counted. The next call that waits is run; after the last, the turn is counted
/// and the next one begins.
pub proof fn law_result_runs_the_next_call<M: MemoryProvider + ?Sized>(
    memory: &M,
    catalog: Seq<ToolSchemaView>,
    state: AgentStateView,
    calls: Seq<ToolCallView>,
    result: ToolResultView,
    next: AgentStateView,
)
    requires
        calls.len() > 0,
        state.tool_calls_executed < u32::MAX,
        state.turn < u32::MAX,
        next.input == state.input,
        next.history.len() == state.history.len() + 1,
        next.history.drop_last() == state.history,
        next.history.last() == result_message(result),
        next.tool_calls_executed == state.tool_calls_executed + 1,
        next.pending_user_messages == state.pending_user_messages,
        next.turn == if calls.len() == 1 {
            state.turn + 1
        } else {
            state.turn as int
        },
    ensures
        calls.len() > 1 ==> after_result(memory, catalog, state, calls, result) == (
            RunView { state: next, phase: PhaseView::AwaitingTools(calls.drop_first()) },
            ActionView::CallTool(calls[1]),
        ),
        calls.len() == 1 ==> after_result(memory, catalog, state, calls, result) == turn_start(
            memory,
            catalog,
            next,
        ),
{
    assert(next.history =~= state.history.push(result_message(result)));
}

/// A model call may take two minutes and gives a sign of life every half minute,
/// a tool may take an hour, both are retried three times, and nothing else has
/// limits.
pub proof fn law_limits_go_by_the_action(
    request: LlmChatInputView,
    call: ToolCallView,
    next: AgentInputView,
    output: AgentOutputView,
)
    ensures
        limits_of(ActionView::CallLlm(request)) is Some,
        limits_of(ActionView::CallLlm(request))->0.timeout_secs == 120,
        limits_of(ActionView::CallLlm(request))->0.heartbeat_secs == Some(30u64),
        limits_of(ActionView::CallLlm(request))->0.max_retries == 3,
        limits_of(ActionView::CallTool(call)) is Some,
        limits_of(ActionView::CallTool(call))->0.timeout_secs == 3600,
        limits_of(ActionView::CallTool(call))->0.heartbeat_secs is None,
        limits_of(ActionView::CallTool(call))->0.max_retries == 3,
        limits_of(ActionView::ContinueAsNew(next)) is None,
        limits_of(ActionView::Finish(output)) is None,
{
}

/// The view of an action shows what it is and what it carries.
pub proof fn law_view_shows_the_action(
    request: LlmChatInput,
    call: ToolCall,
    next: AgentInput,
    output: AgentOutput,
)
    ensures
        Action::CallLlm(request)@ == ActionView::CallLlm(request@),
        Action::CallTool(call)@ == ActionView::CallTool(call@),
        Action::ContinueAsNew(next)@ == ActionView::ContinueAsNew(next@),
        Action::Finish(output)@ == ActionView::Finish(output@),
{
}

/// The view of a run shows its state, and the calls that it waits for.
proof fn law_view_shows_the_run(run: AgentWorkflow, calls: Vec<ToolCall>, i: int)
    ensures
        run@.state == run.state@,
        run.phase is AwaitingLlm <==> run@.phase is AwaitingLlm,
        run.phase is Ended <==> run@.phase is Ended,
        run.phase == Phase::AwaitingTools(calls) ==> {
            &&& run@.phase is AwaitingTools
            &&& run@.phase->AwaitingTools_0.len() == calls@.len()
            &&& 0 <= i < calls@.len() ==> run@.phase->AwaitingTools_0[i] == calls@[i]@
        },
{
}

} // verus!
