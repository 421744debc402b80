//! Whole runs: what holds of a run after any sequence of events.
//!
//! A run is a function of its input and of the events that were recorded for
//! it. [`replayed`] is that function, put together from the steps of
//! [`crate::workflow::AgentWorkflow`], and the laws below are stated over it.

use vstd::prelude::*;

use crate::memory::{
    compacted, dropped_count, law_compacted_input_does_not_compact_at_once,
    law_compaction_keeps_settings, law_kept_messages_end_the_history, MemoryProvider,
    SlidingWindowMemory,
};
use crate::state::{
    calls_message, conversation, initial_state, last_user, opening_is_kept, result_message,
    text_message, AgentInputView, AgentOutputView, AgentStateView, LlmResponseView, MessageView,
    Role, StopReason, ToolCallView, ToolResultView, ToolSchemaView,
};
use crate::workflow::{
    after_response, after_result, chat_input_of, drained, law_final_answer_is_the_result, next_call,
    turn_start, user_messages, valid_run, ActionView, PhaseView, RunView,
};

verus! {

/// What can be recorded for a run.
#[verifier::ext_equal]
pub enum Event {
    /// The model replied.
    Llm(LlmResponseView),
    /// A tool gave its result.
    Tool(ToolResultView),
    /// A user message was signalled.
    UserMessage(Seq<char>),
}

/// A run and the actions that it asked for so far.
#[verifier::ext_equal]
pub struct Trace {
    pub run: RunView,
    pub actions: Seq<ActionView>,
}

/// The run with one more pending user message.
pub open spec fn signalled(run: RunView, text: Seq<char>) -> RunView {
    RunView {
        state: AgentStateView {
            pending_user_messages: run.state.pending_user_messages.push(text),
            ..run.state
        },
        phase: run.phase,
    }
}

/// The run after an event, and the action that it asks for. A reply or a result
/// that the run does not wait for changes nothing.
pub open spec fn step<M: MemoryProvider + ?Sized>(
    memory: &M,
    catalog: Seq<ToolSchemaView>,
    run: RunView,
    event: Event,
) -> (RunView, Option<ActionView>) {
    match (event, run.phase) {
        (Event::UserMessage(text), _) => (signalled(run, text), None),
        (Event::Llm(response), PhaseView::AwaitingLlm) => {
            let (next, action) = after_response(memory, catalog, run.state, response);
            (next, Some(action))
        },
        (Event::Tool(result), PhaseView::AwaitingTools(calls)) => {
            let (next, action) = after_result(memory, catalog, run.state, calls, result);
            (next, Some(action))
        },
        _ => (run, None),
    }
}

/// The trace of a run that has just been started.
pub open spec fn started<M: MemoryProvider + ?Sized>(
    memory: &M,
    catalog: Seq<ToolSchemaView>,
    input: AgentInputView,
) -> Trace {
    let (run, action) = turn_start(memory, catalog, initial_state(input));
    Trace { run, actions: seq![action] }
}

/// The trace after one more event.
pub open spec fn extended<M: MemoryProvider + ?Sized>(
    memory: &M,
    catalog: Seq<ToolSchemaView>,
    trace: Trace,
    event: Event,
) -> Trace {
    let (run, action) = step(memory, catalog, trace.run, event);
    Trace {
        run,
        actions: match action {
            Some(action) => trace.actions.push(action),
            None => trace.actions,
        },
    }
}

/// The trace after further events.
pub open spec fn resumed<M: MemoryProvider + ?Sized>(
    memory: &M,
    catalog: Seq<ToolSchemaView>,
    trace: Trace,
    events: Seq<Event>,
) -> Trace
    decreases events.len(),
{
    if events.len() == 0 {
        trace
    } else {
        extended(
            memory,
            catalog,
            resumed(memory, catalog, trace, events.drop_last()),
            events.last(),
        )
    }
}

/// The trace of a run with this input and these events.
pub open spec fn replayed<M: MemoryProvider + ?Sized>(
    memory: &M,
    catalog: Seq<ToolSchemaView>,
    input: AgentInputView,
    events: Seq<Event>,
) -> Trace {
    resumed(memory, catalog, started(memory, catalog, input), events)
}

/// A run that is interrupted and fed its recorded events again goes on as if
/// it had never stopped, and asks again for nothing that it asked for before.
pub proof fn law_replay_resumes<M: MemoryProvider + ?Sized>(
    memory: &M,
    catalog: Seq<ToolSchemaView>,
    input: AgentInputView,
    recorded: Seq<Event>,
    further: Seq<Event>,
)
    ensures
        replayed(memory, catalog, input, recorded + further) == resumed(
            memory,
            catalog,
            replayed(memory, catalog, input, recorded),
            further,
        ),
        replayed(memory, catalog, input, recorded).actions.is_prefix_of(
            replayed(memory, catalog, input, recorded + further).actions,
        ),
    decreases further.len(),
{
    if further.len() == 0 {
        assert(recorded + further =~= recorded);
    } else {
        assert((recorded + further).drop_last() =~= recorded + further.drop_last());
        law_replay_resumes(memory, catalog, input, recorded, further.drop_last());
    }
}

/// Number of requests to the model among these actions.
pub open spec fn llm_requests(actions: Seq<ActionView>) -> nat
    decreases actions.len(),
{
    if actions.len() == 0 {
        0
    } else {
        llm_requests(actions.drop_last()) + if actions.last() is CallLlm {
            1nat
        } else {
            0
        }
    }
}

/// Number of tool executions among these actions.
pub open spec fn tool_requests(actions: Seq<ActionView>) -> nat
    decreases actions.len(),
{
    if actions.len() == 0 {
        0
    } else {
        tool_requests(actions.drop_last()) + if actions.last() is CallTool {
            1nat
        } else {
            0
        }
    }
}

/// Whether an action ends the run.
pub open spec fn ends(action: ActionView) -> bool {
    action is Finish || action is ContinueAsNew
}

/// The result that a run which ended in this state may report.
pub open spec fn reports(state: AgentStateView, output: AgentOutputView) -> bool {
    &&& output.turns_used == state.turn
    &&& output.tool_calls == state.tool_calls_executed
    &&& match output.stop_reason {
        StopReason::FinalAnswer => state.turn < state.input.max_turns,
        StopReason::MaxTurnsReached => state.turn == state.input.max_turns
            && output.final_answer == "[max turns reached]"@,
    }
}

/// How the last action of a run fits its state.
pub open spec fn pending_action(
    run: RunView,
    catalog: Seq<ToolSchemaView>,
    action: ActionView,
) -> bool {
    match run.phase {
        PhaseView::Idle => false,
        PhaseView::AwaitingLlm => action == ActionView::CallLlm(chat_input_of(run.state, catalog)),
        PhaseView::AwaitingTools(calls) => action == ActionView::CallTool(calls[0]),
        PhaseView::Ended => match action {
            ActionView::Finish(output) => reports(run.state, output),
            ActionView::ContinueAsNew(_) => run.state.turn < run.state.input.max_turns,
            _ => false,
        },
    }
}

/// Requests to the model that were made in the turn that is not yet counted.
pub open spec fn open_requests(run: RunView, action: ActionView) -> nat {
    if run.phase is AwaitingLlm || run.phase is AwaitingTools {
        1
    } else {
        match action {
            ActionView::Finish(output) => if output.stop_reason == StopReason::FinalAnswer {
                1
            } else {
                0
            },
            _ => 0,
        }
    }
}

/// What holds of every trace of a run with this input.
pub open spec fn sound(
    catalog: Seq<ToolSchemaView>,
    input: AgentInputView,
    trace: Trace,
) -> bool {
    &&& valid_run(trace.run)
    &&& trace.run.state.input == input
    &&& trace.run.state.turn <= input.max_turns
    &&& trace.actions.len() > 0
    &&& pending_action(trace.run, catalog, trace.actions.last())
    &&& forall|i: int| 0 <= i < trace.actions.len() - 1 ==> !ends(#[trigger] trace.actions[i])
    &&& llm_requests(trace.actions) == trace.run.state.turn + open_requests(
        trace.run,
        trace.actions.last(),
    )
}

proof fn lemma_turn_start_sound<M: MemoryProvider + ?Sized>(
    memory: &M,
    catalog: Seq<ToolSchemaView>,
    input: AgentInputView,
    state: AgentStateView,
    actions: Seq<ActionView>,
)
    requires
        state.input == input,
        state.turn <= input.max_turns,
        llm_requests(actions) == state.turn,
        forall|i: int| 0 <= i < actions.len() ==> !ends(#[trigger] actions[i]),
    ensures
        ({
            let (run, action) = turn_start(memory, catalog, state);
            sound(catalog, input, Trace { run, actions: actions.push(action) })
        }),
{
    let (run, action) = turn_start(memory, catalog, state);
    assert(actions.push(action).drop_last() =~= actions);
}

proof fn lemma_next_call_sound<M: MemoryProvider + ?Sized>(
    memory: &M,
    catalog: Seq<ToolSchemaView>,
    input: AgentInputView,
    state: AgentStateView,
    calls: Seq<ToolCallView>,
    actions: Seq<ActionView>,
)
    requires
        state.input == input,
        state.turn < input.max_turns,
        llm_requests(actions) == state.turn + 1,
        forall|i: int| 0 <= i < actions.len() ==> !ends(#[trigger] actions[i]),
    ensures
        ({
            let (run, action) = next_call(memory, catalog, state, calls);
            sound(catalog, input, Trace { run, actions: actions.push(action) })
        }),
{
    let (run, action) = next_call(memory, catalog, state, calls);
    assert(actions.push(action).drop_last() =~= actions);
    if calls.len() == 0 {
        lemma_turn_start_sound(
            memory,
            catalog,
            input,
            AgentStateView { turn: (state.turn + 1) as u32, ..state },
            actions,
        );
    }
}

proof fn lemma_extended_sound<M: MemoryProvider + ?Sized>(
    memory: &M,
    catalog: Seq<ToolSchemaView>,
    input: AgentInputView,
    trace: Trace,
    event: Event,
)
    requires
        sound(catalog, input, trace),
    ensures
        sound(catalog, input, extended(memory, catalog, trace, event)),
{
    let state = trace.run.state;
    match (event, trace.run.phase) {
        (Event::Llm(response), PhaseView::AwaitingLlm) => {
            match response {
                LlmResponseView::Final { answer } => {
                    let (run, action) = after_response(memory, catalog, state, response);
                    assert(trace.actions.push(action).drop_last() =~= trace.actions);
                },
                LlmResponseView::UseTools { calls } => {
                    let after = AgentStateView {
                        history: state.history.push(calls_message(calls)),
                        ..state
                    };
                    lemma_next_call_sound(memory, catalog, input, after, calls, trace.actions);
                },
            }
        },
        (Event::Tool(result), PhaseView::AwaitingTools(calls)) => {
            let after = AgentStateView {
                history: state.history.push(result_message(result)),
                tool_calls_executed: (state.tool_calls_executed + 1) as u32,
                ..state
            };
            lemma_next_call_sound(
                memory,
                catalog,
                input,
                after,
                calls.drop_first(),
                trace.actions,
            );
        },
        _ => {},
    }
}

/// Every run is sound: its input never changes, its turn stays within the cap,
/// its last action fits what it waits for, nothing follows the action that ends
/// it, and the model is asked once per turn.
pub proof fn law_runs_are_sound<M: MemoryProvider + ?Sized>(
    memory: &M,
    catalog: Seq<ToolSchemaView>,
    input: AgentInputView,
    events: Seq<Event>,
)
    ensures
        sound(catalog, input, replayed(memory, catalog, input, events)),
    decreases events.len(),
{
    if events.len() == 0 {
        let (run, action) = turn_start(memory, catalog, initial_state(input));
        lemma_turn_start_sound(memory, catalog, input, initial_state(input), Seq::empty());
        assert(Seq::<ActionView>::empty().push(action) =~= seq![action]);
    } else {
        law_runs_are_sound(memory, catalog, input, events.drop_last());
        lemma_extended_sound(
            memory,
            catalog,
            input,
            replayed(memory, catalog, input, events.drop_last()),
            events.last(),
        );
    }
}

/// The cap on turns: a run never counts more than `max_turns` turns, never asks
/// the model more than `max_turns` times, and reports at most `max_turns` turns.
/// It reports a final answer only below the cap, and says that the cap was
/// reached only at the cap.
pub proof fn law_turns_are_capped<M: MemoryProvider + ?Sized>(
    memory: &M,
    catalog: Seq<ToolSchemaView>,
    input: AgentInputView,
    events: Seq<Event>,
    i: int,
)
    requires
        0 <= i < replayed(memory, catalog, input, events).actions.len(),
    ensures
        replayed(memory, catalog, input, events).run.state.turn <= input.max_turns,
        llm_requests(replayed(memory, catalog, input, events).actions) <= input.max_turns,
        match replayed(memory, catalog, input, events).actions[i] {
            ActionView::Finish(output) => match output.stop_reason {
                StopReason::FinalAnswer => output.turns_used < input.max_turns,
                StopReason::MaxTurnsReached => output.turns_used == input.max_turns
                    && output.final_answer == "[max turns reached]"@,
            },
            _ => true,
        },
{
    law_runs_are_sound(memory, catalog, input, events);
    let trace = replayed(memory, catalog, input, events);
    if i < trace.actions.len() - 1 {
        assert(!ends(trace.actions[i]));
    }
}

/// A cap of zero: the run ends at once, without asking the model.
pub proof fn law_zero_cap_ends_at_once<M: MemoryProvider + ?Sized>(
    memory: &M,
    catalog: Seq<ToolSchemaView>,
    input: AgentInputView,
    events: Seq<Event>,
)
    requires
        input.max_turns == 0,
    ensures
        replayed(memory, catalog, input, events).actions == seq![
            ActionView::Finish(
                AgentOutputView {
                    final_answer: "[max turns reached]"@,
                    stop_reason: StopReason::MaxTurnsReached,
                    turns_used: 0,
                    tool_calls: 0,
                },
            ),
        ],
{
    assert(replayed(memory, catalog, input, Seq::empty()).run.phase is Ended);
    law_end_is_final(memory, catalog, input, Seq::empty(), events);
    assert(Seq::<Event>::empty() + events =~= events);
}

/// Once a run has ended, no event makes it ask for anything or changes its
/// history.
pub proof fn law_end_is_final<M: MemoryProvider + ?Sized>(
    memory: &M,
    catalog: Seq<ToolSchemaView>,
    input: AgentInputView,
    events: Seq<Event>,
    further: Seq<Event>,
)
    requires
        replayed(memory, catalog, input, events).run.phase is Ended,
    ensures
        replayed(memory, catalog, input, events + further).run.phase is Ended,
        replayed(memory, catalog, input, events + further).actions == replayed(
            memory,
            catalog,
            input,
            events,
        ).actions,
        replayed(memory, catalog, input, events + further).run.state.history == replayed(
            memory,
            catalog,
            input,
            events,
        ).run.state.history,
    decreases further.len(),
{
    if further.len() == 0 {
        assert(events + further =~= events);
    } else {
        assert((events + further).drop_last() =~= events + further.drop_last());
        law_end_is_final(memory, catalog, input, events, further.drop_last());
    }
}

/// The history only grows: what a run has recorded of the conversation is never
/// changed or dropped within the run.
pub proof fn law_history_grows<M: MemoryProvider + ?Sized>(
    memory: &M,
    catalog: Seq<ToolSchemaView>,
    input: AgentInputView,
    events: Seq<Event>,
    further: Seq<Event>,
)
    ensures
        replayed(memory, catalog, input, events).run.state.history.is_prefix_of(
            replayed(memory, catalog, input, events + further).run.state.history,
        ),
    decreases further.len(),
{
    if further.len() == 0 {
        assert(events + further =~= events);
    } else {
        assert((events + further).drop_last() =~= events + further.drop_last());
        law_history_grows(memory, catalog, input, events, further.drop_last());
    }
}

/// Every conversation begins with the system prompt and the user's message.
pub proof fn law_history_begins_with_input<M: MemoryProvider + ?Sized>(
    memory: &M,
    catalog: Seq<ToolSchemaView>,
    input: AgentInputView,
    events: Seq<Event>,
)
    ensures
        initial_state(input).history.is_prefix_of(
            replayed(memory, catalog, input, events).run.state.history,
        ),
{
    law_history_grows(memory, catalog, input, Seq::empty(), events);
    assert(Seq::<Event>::empty() + events =~= events);
}

/// What a run adds to its history comes at the end of its conversation.
proof fn lemma_conversation_grows(shorter: AgentStateView, longer: AgentStateView)
    requires
        shorter.input == longer.input,
        shorter.history.len() >= 2,
        shorter.history.is_prefix_of(longer.history),
    ensures
        conversation(shorter).is_prefix_of(conversation(longer)),
{
    assert(shorter.history[0] == longer.history[0]);
    assert(shorter.history[1] == longer.history[1]);
    assert(shorter.history.take(1) =~= longer.history.take(1));
    assert(shorter.history.take(2) =~= longer.history.take(2));
    assert(conversation(shorter) =~= conversation(longer).take(conversation(shorter).len() as int));
}

/// Every request to the model carries the conversation so far, from its first
/// message on and with what was kept from an earlier run, the tools of the
/// worker, and the output schema of the run.
pub proof fn law_requests_carry_the_conversation<M: MemoryProvider + ?Sized>(
    memory: &M,
    catalog: Seq<ToolSchemaView>,
    input: AgentInputView,
    events: Seq<Event>,
    i: int,
)
    requires
        0 <= i < replayed(memory, catalog, input, events).actions.len(),
    ensures
        match replayed(memory, catalog, input, events).actions[i] {
            ActionView::CallLlm(request) => {
                &&& request.messages.is_prefix_of(
                    conversation(replayed(memory, catalog, input, events).run.state),
                )
                &&& conversation(initial_state(input)).is_prefix_of(request.messages)
                &&& request.tools == catalog
                &&& request.output_schema == input.output_schema
            },
            _ => true,
        },
    decreases events.len(),
{
    let trace = replayed(memory, catalog, input, events);
    law_runs_are_sound(memory, catalog, input, events);
    law_history_begins_with_input(memory, catalog, input, events);
    lemma_conversation_grows(initial_state(input), trace.run.state);
    if events.len() > 0 {
        let before = replayed(memory, catalog, input, events.drop_last());
        if i < before.actions.len() {
            law_runs_are_sound(memory, catalog, input, events.drop_last());
            law_history_begins_with_input(memory, catalog, input, events.drop_last());
            law_requests_carry_the_conversation(memory, catalog, input, events.drop_last(), i);
            law_history_grows(memory, catalog, input, events.drop_last(), seq![events.last()]);
            assert(events.drop_last() + seq![events.last()] =~= events);
            lemma_conversation_grows(before.run.state, trace.run.state);
        }
    }
}

/// The texts of the user messages in a history, in order.
pub open spec fn user_texts(history: Seq<MessageView>) -> Seq<Seq<char>>
    decreases history.len(),
{
    if history.len() == 0 {
        Seq::empty()
    } else if history.last().role == Role::User {
        user_texts(history.drop_last()).push(history.last().content)
    } else {
        user_texts(history.drop_last())
    }
}

/// The texts that were signalled, in order.
pub open spec fn signals(events: Seq<Event>) -> Seq<Seq<char>>
    decreases events.len(),
{
    if events.len() == 0 {
        Seq::empty()
    } else {
        match events.last() {
            Event::UserMessage(text) => signals(events.drop_last()).push(text),
            _ => signals(events.drop_last()),
        }
    }
}

/// The user messages that a state knows of, in the history or pending.
spec fn known_texts(state: AgentStateView) -> Seq<Seq<char>> {
    user_texts(state.history) + state.pending_user_messages
}

proof fn lemma_user_texts_push(history: Seq<MessageView>, message: MessageView)
    ensures
        user_texts(history.push(message)) == if message.role == Role::User {
            user_texts(history).push(message.content)
        } else {
            user_texts(history)
        },
{
    assert(history.push(message).drop_last() =~= history);
}

proof fn lemma_drained_texts(history: Seq<MessageView>, pending: Seq<Seq<char>>)
    ensures
        user_texts(history + user_messages(pending)) == user_texts(history) + pending,
    decreases pending.len(),
{
    if pending.len() == 0 {
        assert(history + user_messages(pending) =~= history);
        assert(user_texts(history) + pending =~= user_texts(history));
    } else {
        let last = text_message(Role::User, pending.last());
        assert(history + user_messages(pending) =~= (history + user_messages(
            pending.drop_last(),
        )).push(last));
        lemma_drained_texts(history, pending.drop_last());
        lemma_user_texts_push(history + user_messages(pending.drop_last()), last);
        assert(user_texts(history) + pending =~= (user_texts(history) + pending.drop_last()).push(
            pending.last(),
        ));
    }
}

proof fn lemma_turn_start_texts<M: MemoryProvider + ?Sized>(
    memory: &M,
    catalog: Seq<ToolSchemaView>,
    state: AgentStateView,
)
    ensures
        known_texts(turn_start(memory, catalog, state).0.state) == known_texts(state),
{
    lemma_drained_texts(state.history, state.pending_user_messages);
    assert(known_texts(drained(state)) =~= known_texts(state));
}

/// Within a run no user message is lost, doubled or reordered: the user messages
/// of the history, followed by those that are still pending, are the first one
/// and then those that were signalled, in order.
pub proof fn law_user_messages_are_kept<M: MemoryProvider + ?Sized>(
    memory: &M,
    catalog: Seq<ToolSchemaView>,
    input: AgentInputView,
    events: Seq<Event>,
)
    ensures
        user_texts(replayed(memory, catalog, input, events).run.state.history) + replayed(
            memory,
            catalog,
            input,
            events,
        ).run.state.pending_user_messages == seq![input.user_message] + signals(events),
    decreases events.len(),
{
    let first = seq![input.user_message];
    if events.len() == 0 {
        let system = text_message(Role::System, input.system_prompt);
        let user = text_message(Role::User, input.user_message);
        lemma_turn_start_texts(memory, catalog, initial_state(input));
        lemma_user_texts_push(Seq::empty(), system);
        lemma_user_texts_push(Seq::empty().push(system), user);
        assert(initial_state(input).history =~= Seq::empty().push(system).push(user));
        assert(known_texts(initial_state(input)) =~= first + signals(events));
    } else {
        law_user_messages_are_kept(memory, catalog, input, events.drop_last());
        let before = replayed(memory, catalog, input, events.drop_last());
        let state = before.run.state;
        assert(known_texts(state) == first + signals(events.drop_last()));
        match (events.last(), before.run.phase) {
            (Event::UserMessage(text), _) => {
                assert(user_texts(state.history) + state.pending_user_messages.push(text)
                    =~= known_texts(state).push(text));
                assert(first + signals(events) =~= (first + signals(events.drop_last())).push(
                    text,
                ));
            },
            (Event::Llm(response), PhaseView::AwaitingLlm) => {
                match response {
                    LlmResponseView::Final { answer } => {
                        lemma_user_texts_push(
                            state.history,
                            text_message(Role::Assistant, answer),
                        );
                    },
                    LlmResponseView::UseTools { calls } => {
                        lemma_user_texts_push(state.history, calls_message(calls));
                        let after = AgentStateView {
                            history: state.history.push(calls_message(calls)),
                            ..state
                        };
                        lemma_turn_start_texts(
                            memory,
                            catalog,
                            AgentStateView { turn: (state.turn + 1) as u32, ..after },
                        );
                    },
                }
            },
            (Event::Tool(result), PhaseView::AwaitingTools(calls)) => {
                lemma_user_texts_push(state.history, result_message(result));
                let after = AgentStateView {
                    history: state.history.push(result_message(result)),
                    tool_calls_executed: (state.tool_calls_executed + 1) as u32,
                    ..state
                };
                lemma_turn_start_texts(
                    memory,
                    catalog,
                    AgentStateView { turn: (state.turn + 1) as u32, ..after },
                );
            },
            _ => {},
        }
    }
}

/// Whenever the model is asked, it sees every user message that was signalled
/// before its turn began: nothing is pending when a request goes out.
pub proof fn law_requests_leave_nothing_pending<M: MemoryProvider + ?Sized>(
    memory: &M,
    catalog: Seq<ToolSchemaView>,
    state: AgentStateView,
)
    ensures
        match turn_start(memory, catalog, state) {
            (run, ActionView::CallLlm(request)) => {
                &&& run.state.pending_user_messages.len() == 0
                &&& request.messages == conversation(drained(state))
                &&& run.state.history == state.history + user_messages(
                    state.pending_user_messages,
                )
            },
            _ => true,
        },
{
}

/// Number of tool messages in a history.
pub open spec fn tool_messages(history: Seq<MessageView>) -> nat
    decreases history.len(),
{
    if history.len() == 0 {
        0
    } else {
        tool_messages(history.drop_last()) + if history.last().role == Role::Tool {
            1nat
        } else {
            0
        }
    }
}

proof fn lemma_tool_messages_push(history: Seq<MessageView>, message: MessageView)
    ensures
        tool_messages(history.push(message)) == tool_messages(history) + if message.role
            == Role::Tool {
            1nat
        } else {
            0
        },
{
    assert(history.push(message).drop_last() =~= history);
}

proof fn lemma_drained_tools(history: Seq<MessageView>, pending: Seq<Seq<char>>)
    ensures
        tool_messages(history + user_messages(pending)) == tool_messages(history),
    decreases pending.len(),
{
    if pending.len() == 0 {
        assert(history + user_messages(pending) =~= history);
    } else {
        let last = text_message(Role::User, pending.last());
        assert(history + user_messages(pending) =~= (history + user_messages(
            pending.drop_last(),
        )).push(last));
        lemma_drained_tools(history, pending.drop_last());
        lemma_tool_messages_push(history + user_messages(pending.drop_last()), last);
    }
}

/// The tool calls that a run counts are those whose results are in its history,
/// and those that it asked for, but for the one that is running. (As long as
/// their number fits the counter.)
pub proof fn law_tool_calls_are_counted<M: MemoryProvider + ?Sized>(
    memory: &M,
    catalog: Seq<ToolSchemaView>,
    input: AgentInputView,
    events: Seq<Event>,
)
    requires
        events.len() <= u32::MAX,
    ensures
        replayed(memory, catalog, input, events).run.state.tool_calls_executed == tool_messages(
            replayed(memory, catalog, input, events).run.state.history,
        ),
        tool_requests(replayed(memory, catalog, input, events).actions) == replayed(
            memory,
            catalog,
            input,
            events,
        ).run.state.tool_calls_executed + if replayed(
            memory,
            catalog,
            input,
            events,
        ).run.phase is AwaitingTools {
            1nat
        } else {
            0
        },
        replayed(memory, catalog, input, events).run.state.tool_calls_executed <= events.len(),
    decreases events.len(),
{
    let trace = replayed(memory, catalog, input, events);
    if events.len() == 0 {
        let system = text_message(Role::System, input.system_prompt);
        let user = text_message(Role::User, input.user_message);
        let history = initial_state(input).history;
        lemma_tool_messages_push(Seq::empty(), system);
        lemma_tool_messages_push(Seq::empty().push(system), user);
        assert(history =~= Seq::empty().push(system).push(user));
        lemma_drained_tools(history, Seq::empty());
        assert(trace.actions.drop_last() =~= Seq::empty());
        assert(tool_requests(Seq::empty()) == 0);
    } else {
        law_tool_calls_are_counted(memory, catalog, input, events.drop_last());
        law_runs_are_sound(memory, catalog, input, events.drop_last());
        let before = replayed(memory, catalog, input, events.drop_last());
        let state = before.run.state;
        match (events.last(), before.run.phase) {
            (Event::Llm(response), PhaseView::AwaitingLlm) => {
                assert(trace.actions.drop_last() =~= before.actions);
                match response {
                    LlmResponseView::Final { answer } => {
                        lemma_tool_messages_push(
                            state.history,
                            text_message(Role::Assistant, answer),
                        );
                    },
                    LlmResponseView::UseTools { calls } => {
                        lemma_tool_messages_push(state.history, calls_message(calls));
                        lemma_drained_tools(
                            state.history.push(calls_message(calls)),
                            state.pending_user_messages,
                        );
                    },
                }
            },
            (Event::Tool(result), PhaseView::AwaitingTools(calls)) => {
                assert(trace.actions.drop_last() =~= before.actions);
                lemma_tool_messages_push(state.history, result_message(result));
                lemma_drained_tools(
                    state.history.push(result_message(result)),
                    state.pending_user_messages,
                );
            },
            _ => {},
        }
    }
}

/// The events that hand the results of these to a run.
pub open spec fn result_events(results: Seq<ToolResultView>) -> Seq<Event> {
    results.map_values(|result: ToolResultView| Event::Tool(result))
}

/// The messages that answer these calls.
pub open spec fn result_messages(results: Seq<ToolResultView>) -> Seq<MessageView> {
    results.map_values(|result: ToolResultView| result_message(result))
}

/// The actions that run these calls.
pub open spec fn call_actions(calls: Seq<ToolCallView>) -> Seq<ActionView> {
    calls.map_values(|call: ToolCallView| ActionView::CallTool(call))
}

/// The state after a turn in which these calls gave these results.
pub open spec fn after_tools(
    state: AgentStateView,
    calls: Seq<ToolCallView>,
    results: Seq<ToolResultView>,
) -> AgentStateView {
    AgentStateView {
        history: state.history.push(calls_message(calls)) + result_messages(results),
        turn: (state.turn + 1) as u32,
        tool_calls_executed: (state.tool_calls_executed + results.len()) as u32,
        ..state
    }
}

proof fn lemma_tool_round<M: MemoryProvider + ?Sized>(
    memory: &M,
    catalog: Seq<ToolSchemaView>,
    trace: Trace,
    calls: Seq<ToolCallView>,
    results: Seq<ToolResultView>,
    n: int,
)
    requires
        trace.run.phase is AwaitingLlm,
        calls.len() > 0,
        results.len() == calls.len(),
        0 <= n < results.len(),
        trace.run.state.tool_calls_executed + results.len() <= u32::MAX,
    ensures
        ({
            let state = trace.run.state;
            resumed(
                memory,
                catalog,
                trace,
                seq![Event::Llm(LlmResponseView::UseTools { calls })] + result_events(
                    results.take(n),
                ),
            ) == (Trace {
                run: RunView {
                    state: AgentStateView {
                        history: state.history.push(calls_message(calls)) + result_messages(
                            results.take(n),
                        ),
                        tool_calls_executed: (state.tool_calls_executed + n) as u32,
                        ..state
                    },
                    phase: PhaseView::AwaitingTools(calls.skip(n)),
                },
                actions: trace.actions + call_actions(calls.take(n + 1)),
            })
        }),
    decreases n,
{
    let state = trace.run.state;
    let reply = Event::Llm(LlmResponseView::UseTools { calls });
    let events = seq![reply] + result_events(results.take(n));
    let history = state.history.push(calls_message(calls));
    if n == 0 {
        assert(events =~= seq![reply]);
        assert(events.drop_last() =~= Seq::empty());
        assert(resumed(memory, catalog, trace, events.drop_last()) == trace);
        assert(history + result_messages(results.take(0)) =~= history);
        assert(calls.skip(0) =~= calls);
        assert(trace.actions + call_actions(calls.take(1)) =~= trace.actions.push(
            ActionView::CallTool(calls[0]),
        ));
    } else {
        lemma_tool_round(memory, catalog, trace, calls, results, n - 1);
        assert(events.drop_last() =~= seq![reply] + result_events(results.take(n - 1)));
        assert(events.last() == Event::Tool(results[n - 1]));
        assert(history + result_messages(results.take(n)) =~= (history + result_messages(
            results.take(n - 1),
        )).push(result_message(results[n - 1])));
        assert(calls.skip(n - 1).drop_first() =~= calls.skip(n));
        assert(trace.actions + call_actions(calls.take(n + 1)) =~= (trace.actions + call_actions(
            calls.take(n),
        )).push(ActionView::CallTool(calls[n])));
    }
}

/// A turn with tools: each call is run once, in the order in which the model
/// asked; the history grows by the request and then the results in that order;
/// the turn is counted once and every call is counted; and the next turn begins.
pub proof fn law_tool_turn<M: MemoryProvider + ?Sized>(
    memory: &M,
    catalog: Seq<ToolSchemaView>,
    trace: Trace,
    calls: Seq<ToolCallView>,
    results: Seq<ToolResultView>,
)
    requires
        trace.run.phase is AwaitingLlm,
        results.len() == calls.len(),
        trace.run.state.tool_calls_executed + results.len() <= u32::MAX,
    ensures
        ({
            let (run, action) = turn_start(
                memory,
                catalog,
                after_tools(trace.run.state, calls, results),
            );
            resumed(
                memory,
                catalog,
                trace,
                seq![Event::Llm(LlmResponseView::UseTools { calls })] + result_events(results),
            ) == (Trace { run, actions: (trace.actions + call_actions(calls)).push(action) })
        }),
{
    let n = results.len() as int;
    let state = trace.run.state;
    let reply = Event::Llm(LlmResponseView::UseTools { calls });
    let events = seq![reply] + result_events(results);
    let history = state.history.push(calls_message(calls));
    if n == 0 {
        assert(events =~= seq![reply]);
        assert(events.drop_last() =~= Seq::empty());
        assert(resumed(memory, catalog, trace, events.drop_last()) == trace);
        assert(history + result_messages(results) =~= history);
        assert(trace.actions + call_actions(calls) =~= trace.actions);
    } else {
        lemma_tool_round(memory, catalog, trace, calls, results, n - 1);
        assert(events.drop_last() =~= seq![reply] + result_events(results.take(n - 1)));
        assert(events.last() == Event::Tool(results[n - 1]));
        assert(history + result_messages(results) =~= (history + result_messages(
            results.take(n - 1),
        )).push(result_message(results[n - 1])));
        assert(calls.skip(n - 1).drop_first() =~= Seq::empty());
        assert(calls.take(n) =~= calls);
    }
}

/// Whether every tool result among these events answers the call that was
/// running.
pub open spec fn answered<M: MemoryProvider + ?Sized>(
    memory: &M,
    catalog: Seq<ToolSchemaView>,
    input: AgentInputView,
    events: Seq<Event>,
) -> bool
    decreases events.len(),
{
    events.len() > 0 ==> {
        &&& answered(memory, catalog, input, events.drop_last())
        &&& match (
            events.last(),
            replayed(memory, catalog, input, events.drop_last()).run.phase,
        ) {
            (Event::Tool(result), PhaseView::AwaitingTools(calls)) => result.call_id
                == calls[0].id,
            _ => true,
        }
    }
}

/// Whether the message at `j` asked for a call with this id.
pub open spec fn asked(history: Seq<MessageView>, j: int, id: Seq<char>) -> bool {
    &&& 0 <= j < history.len()
    &&& history[j].role == Role::Assistant
    &&& exists|k: int| 0 <= k < history[j].tool_calls.len() && history[j].tool_calls[k].id == id
}

/// Whether the message at `i` answers a call that an earlier message asked for.
pub open spec fn answers_earlier(history: Seq<MessageView>, i: int) -> bool {
    match history[i].tool_call_id {
        Some(id) => exists|j: int| 0 <= j < i && asked(history, j, id),
        None => false,
    }
}

/// Whether every tool message answers an earlier call.
spec fn all_answer(history: Seq<MessageView>) -> bool {
    forall|i: int|
        0 <= i < history.len() && (#[trigger] history[i]).role == Role::Tool ==> answers_earlier(
            history,
            i,
        )
}

/// Whether some message asked for a call with this id.
spec fn asked_for(history: Seq<MessageView>, id: Seq<char>) -> bool {
    exists|j: int| asked(history, j, id)
}

/// Whether each of these calls was asked for by some message.
spec fn all_asked(history: Seq<MessageView>, calls: Seq<ToolCallView>) -> bool {
    forall|k: int| 0 <= k < calls.len() ==> asked_for(history, (#[trigger] calls[k]).id)
}

proof fn lemma_answers_in_longer(shorter: Seq<MessageView>, longer: Seq<MessageView>)
    requires
        shorter.is_prefix_of(longer),
        all_answer(shorter),
        forall|i: int|
            shorter.len() <= i < longer.len() && (#[trigger] longer[i]).role == Role::Tool
                ==> answers_earlier(longer, i),
    ensures
        all_answer(longer),
{
    assert forall|i: int|
        0 <= i < longer.len() && (#[trigger] longer[i]).role == Role::Tool implies answers_earlier(
        longer,
        i,
    ) by {
        if i < shorter.len() {
            assert(shorter[i] == longer[i]);
            assert(answers_earlier(shorter, i));
            let id = shorter[i].tool_call_id->0;
            let j = choose|j: int| 0 <= j < i && asked(shorter, j, id);
            assert(shorter[j] == longer[j]);
            assert(asked(longer, j, id));
        }
    }
}

proof fn lemma_asked_in_longer(
    shorter: Seq<MessageView>,
    longer: Seq<MessageView>,
    calls: Seq<ToolCallView>,
)
    requires
        shorter.is_prefix_of(longer),
        all_asked(shorter, calls),
    ensures
        all_asked(longer, calls),
{
    assert forall|k: int| 0 <= k < calls.len() implies asked_for(
        longer,
        (#[trigger] calls[k]).id,
    ) by {
        let j = choose|j: int| asked(shorter, j, calls[k].id);
        assert(shorter[j] == longer[j]);
        assert(asked(longer, j, calls[k].id));
    }
}

/// What [`law_tool_messages_answer_calls`] needs of a run.
spec fn answering(run: RunView) -> bool {
    &&& all_answer(run.state.history)
    &&& match run.phase {
        PhaseView::AwaitingTools(calls) => all_asked(run.state.history, calls),
        _ => true,
    }
}

proof fn lemma_turn_start_answering<M: MemoryProvider + ?Sized>(
    memory: &M,
    catalog: Seq<ToolSchemaView>,
    state: AgentStateView,
)
    requires
        all_answer(state.history),
    ensures
        answering(turn_start(memory, catalog, state).0),
{
    lemma_answers_in_longer(state.history, drained(state).history);
}

proof fn lemma_answering<M: MemoryProvider + ?Sized>(
    memory: &M,
    catalog: Seq<ToolSchemaView>,
    input: AgentInputView,
    events: Seq<Event>,
)
    requires
        answered(memory, catalog, input, events),
    ensures
        answering(replayed(memory, catalog, input, events).run),
    decreases events.len(),
{
    if events.len() == 0 {
        lemma_turn_start_answering(memory, catalog, initial_state(input));
    } else {
        lemma_answering(memory, catalog, input, events.drop_last());
        law_runs_are_sound(memory, catalog, input, events.drop_last());
        let before = replayed(memory, catalog, input, events.drop_last());
        let state = before.run.state;
        match (events.last(), before.run.phase) {
            (Event::Llm(response), PhaseView::AwaitingLlm) => {
                match response {
                    LlmResponseView::Final { answer } => {
                        lemma_answers_in_longer(
                            state.history,
                            state.history.push(text_message(Role::Assistant, answer)),
                        );
                    },
                    LlmResponseView::UseTools { calls } => {
                        let history = state.history.push(calls_message(calls));
                        lemma_answers_in_longer(state.history, history);
                        assert forall|k: int| 0 <= k < calls.len() implies asked_for(
                            history,
                            (#[trigger] calls[k]).id,
                        ) by {
                            assert(history[history.len() - 1].tool_calls[k].id == calls[k].id);
                            assert(asked(history, history.len() - 1, calls[k].id));
                        }
                        lemma_turn_start_answering(
                            memory,
                            catalog,
                            AgentStateView { history, turn: (state.turn + 1) as u32, ..state },
                        );
                    },
                }
            },
            (Event::Tool(result), PhaseView::AwaitingTools(calls)) => {
                let history = state.history.push(result_message(result));
                let i = history.len() - 1;
                assert(asked_for(state.history, calls[0].id));
                let j = choose|j: int| asked(state.history, j, calls[0].id);
                assert(state.history[j] == history[j]);
                assert(result.call_id == calls[0].id);
                assert(asked(history, j, result.call_id));
                assert(history[i].tool_call_id == Some(result.call_id));
                assert(0 <= j < i && asked(history, j, history[i].tool_call_id->0));
                assert(answers_earlier(history, i));
                lemma_answers_in_longer(state.history, history);
                let rest = calls.drop_first();
                assert forall|k: int| 0 <= k < rest.len() implies asked_for(
                    state.history,
                    (#[trigger] rest[k]).id,
                ) by {
                    assert(rest[k] == calls[k + 1]);
                }
                lemma_asked_in_longer(state.history, history, rest);
                lemma_turn_start_answering(
                    memory,
                    catalog,
                    AgentStateView {
                        history,
                        turn: (state.turn + 1) as u32,
                        tool_calls_executed: (state.tool_calls_executed + 1) as u32,
                        ..state
                    },
                );
            },
            _ => {},
        }
    }
}

/// Every tool message of a conversation answers a call that an earlier message
/// of the assistant asked for, if every result carries the id of the call that
/// was run (as those of [`crate::activities::tool_outcome`] do).
pub proof fn law_tool_messages_answer_calls<M: MemoryProvider + ?Sized>(
    memory: &M,
    catalog: Seq<ToolSchemaView>,
    input: AgentInputView,
    events: Seq<Event>,
    i: int,
)
    requires
        answered(memory, catalog, input, events),
        0 <= i < replayed(memory, catalog, input, events).run.state.history.len(),
        replayed(memory, catalog, input, events).run.state.history[i].role == Role::Tool,
    ensures
        answers_earlier(replayed(memory, catalog, input, events).run.state.history, i),
{
    lemma_answering(memory, catalog, input, events);
}

/// A run that is continued as a new one keeps its cap and its output schema, its
/// system prompt comes first in the new one, and its last `keep_recent` messages
/// are kept for it. The new run asks the model before it could continue as yet
/// another one. (With a threshold of one message it would not: every run begins
/// with two.)
pub proof fn law_compaction_makes_progress(
    memory: &SlidingWindowMemory,
    catalog: Seq<ToolSchemaView>,
    input: AgentInputView,
    events: Seq<Event>,
    i: int,
)
    requires
        0 <= i < replayed(memory, catalog, input, events).actions.len(),
        memory@.keep_recent < memory@.compact_threshold,
        memory@.compact_threshold >= 2,
    ensures
        match replayed(memory, catalog, input, events).actions[i] {
            ActionView::ContinueAsNew(next) => {
                &&& next.max_turns == input.max_turns
                &&& next.output_schema == input.output_schema
                &&& input.system_prompt.is_prefix_of(next.system_prompt)
                &&& next.recent == replayed(
                    memory,
                    catalog,
                    input,
                    events,
                ).run.state.history.skip(
                    replayed(memory, catalog, input, events).run.state.history.len()
                        - memory@.keep_recent,
                )
                &&& started(memory, catalog, next).actions[0] is CallLlm
            },
            _ => true,
        },
{
    law_runs_are_sound(memory, catalog, input, events);
    law_continued_input_is_the_compaction(memory, catalog, input, events);
    let trace = replayed(memory, catalog, input, events);
    if i < trace.actions.len() - 1 {
        assert(!ends(trace.actions[i]));
    } else if let ActionView::ContinueAsNew(next) = trace.actions[i] {
        law_compaction_keeps_settings(trace.run.state, memory@.keep_recent as nat);
        law_kept_messages_end_the_history(trace.run.state, memory@.keep_recent as nat);
        law_compacted_input_does_not_compact_at_once(memory, trace.run.state);
        assert(drained(initial_state(next)) =~= initial_state(next));
    }
}

proof fn lemma_user_texts_concat(history: Seq<MessageView>, rest: Seq<MessageView>)
    ensures
        user_texts(history + rest) == user_texts(history) + user_texts(rest),
    decreases rest.len(),
{
    if rest.len() == 0 {
        assert(history + rest =~= history);
        assert(user_texts(history) + user_texts(rest) =~= user_texts(history));
    } else {
        assert((history + rest).drop_last() =~= history + rest.drop_last());
        lemma_user_texts_concat(history, rest.drop_last());
        assert(user_texts(history + rest) =~= user_texts(history) + user_texts(rest));
    }
}

/// The last user message is the last of the user messages.
proof fn lemma_last_user_text(history: Seq<MessageView>)
    ensures
        last_user(history) == if user_texts(history).len() > 0 {
            Some(user_texts(history).last())
        } else {
            None
        },
    decreases history.len(),
{
    if history.len() > 0 && history.last().role != Role::User {
        lemma_last_user_text(history.drop_last());
    }
}

/// Whether a state belongs to a run that began with its input, and that carries
/// over the last of the user messages kept for it, if there are any.
pub open spec fn coherent(state: AgentStateView) -> bool {
    &&& initial_state(state.input).history.is_prefix_of(state.history)
    &&& match last_user(state.input.recent) {
        Some(text) => text == state.input.user_message,
        None => true,
    }
}

/// Every state of a run whose input is coherent is so: of a run that continues
/// none, and of one that [`law_compaction_keeps_user_messages_in_order`] speaks of.
pub proof fn law_runs_stay_coherent<M: MemoryProvider + ?Sized>(
    memory: &M,
    catalog: Seq<ToolSchemaView>,
    input: AgentInputView,
    events: Seq<Event>,
)
    requires
        coherent(initial_state(input)),
    ensures
        coherent(replayed(memory, catalog, input, events).run.state),
{
    law_runs_are_sound(memory, catalog, input, events);
    law_history_begins_with_input(memory, catalog, input, events);
}

/// The user messages of a coherent conversation: the carried one, unless it is
/// among the kept ones, the kept ones, and those that the run added.
proof fn lemma_conversation_texts(state: AgentStateView)
    requires
        coherent(state),
    ensures
        user_texts(conversation(state)) == (if user_texts(state.input.recent).len() > 0 {
            Seq::empty()
        } else {
            seq![state.input.user_message]
        }) + user_texts(state.input.recent) + user_texts(state.history.skip(2)),
        user_texts(state.history) == seq![state.input.user_message] + user_texts(
            state.history.skip(2),
        ),
{
    let system = text_message(Role::System, state.input.system_prompt);
    let user = text_message(Role::User, state.input.user_message);
    let recent = state.input.recent;
    let rest = state.history.skip(2);
    let opening = initial_state(state.input).history;
    assert(opening =~= Seq::empty().push(system).push(user));
    assert(state.history.take(2) =~= opening);
    assert(state.history =~= opening + rest);
    lemma_user_texts_push(Seq::empty(), system);
    lemma_user_texts_push(Seq::empty().push(system), user);
    assert(user_texts(opening) =~= seq![state.input.user_message]);
    lemma_user_texts_concat(opening, rest);
    lemma_last_user_text(recent);
    assert(state.history[1] == opening[1]);
    if user_texts(recent).len() > 0 {
        assert(opening_is_kept(state));
        assert(state.history.take(1) =~= Seq::empty().push(system));
        lemma_user_texts_concat(Seq::empty().push(system), recent);
        lemma_user_texts_concat(Seq::empty().push(system) + recent, rest);
    } else {
        assert(!opening_is_kept(state));
        lemma_user_texts_concat(opening, recent);
        lemma_user_texts_concat(opening + recent, rest);
    }
}

/// Across runs no user message is doubled or reordered: the user messages in the
/// conversation with which a continued run begins are the last ones, at least
/// one, of the conversation that was compacted. And the run that follows carries
/// over the last of those kept for it, as this law asks of the one before.
pub proof fn law_compaction_keeps_user_messages_in_order(state: AgentStateView, keep_recent: nat)
    requires
        coherent(state),
    ensures
        coherent(initial_state(compacted(state, keep_recent))),
        ({
            let before = user_texts(conversation(state));
            let after = user_texts(
                conversation(initial_state(compacted(state, keep_recent))),
            );
            &&& 1 <= after.len() <= before.len()
            &&& after == before.skip(before.len() - after.len())
        }),
{
    let next = compacted(state, keep_recent);
    let messages = conversation(state);
    let begun = initial_state(next);
    let dropped = dropped_count(messages.len(), keep_recent) as int;
    let before = user_texts(messages);
    lemma_conversation_texts(state);
    lemma_last_user_text(state.history);
    lemma_last_user_text(messages);
    lemma_last_user_text(state.input.recent);
    // The last user message of the history is that of the conversation.
    assert(next.user_message == before.last());
    assert(messages =~= messages.take(dropped) + next.recent);
    lemma_user_texts_concat(messages.take(dropped), next.recent);
    lemma_last_user_text(next.recent);
    assert(coherent(begun));
    lemma_conversation_texts(begun);
    assert(begun.history.skip(2) =~= Seq::empty());
    let after = user_texts(conversation(begun));
    assert(after =~= before.skip(before.len() - after.len()));
}

/// What a run is continued with is what the memory makes of its state, once the
/// history is longer than the threshold.
pub proof fn law_continued_input_is_the_compaction(
    memory: &SlidingWindowMemory,
    catalog: Seq<ToolSchemaView>,
    input: AgentInputView,
    events: Seq<Event>,
)
    ensures
        match replayed(memory, catalog, input, events).actions.last() {
            ActionView::ContinueAsNew(next) => {
                &&& next == compacted(
                    replayed(memory, catalog, input, events).run.state,
                    memory@.keep_recent as nat,
                )
                &&& replayed(memory, catalog, input, events).run.state.history.len()
                    > memory@.compact_threshold
            },
            _ => true,
        },
    decreases events.len(),
{
    if events.len() > 0 {
        law_continued_input_is_the_compaction(memory, catalog, input, events.drop_last());
        law_runs_are_sound(memory, catalog, input, events.drop_last());
    }
}

/// The answer of the model is the answer of the run: on whatever turn the reply
/// comes that a run waits for, a final answer is what the run reports, word for
/// word, as its last action, and what its history ends with. It counts the turns
/// before the one in which it was given, and the tool calls that were run.
pub proof fn law_final_answer_is_reported<M: MemoryProvider + ?Sized>(
    memory: &M,
    catalog: Seq<ToolSchemaView>,
    input: AgentInputView,
    events: Seq<Event>,
    answer: Seq<char>,
)
    requires
        replayed(memory, catalog, input, events).run.phase is AwaitingLlm,
    ensures
        ({
            let before = replayed(memory, catalog, input, events);
            let trace = replayed(
                memory,
                catalog,
                input,
                events.push(Event::Llm(LlmResponseView::Final { answer })),
            );
            &&& trace.run.phase is Ended
            &&& trace.actions.len() == before.actions.len() + 1
            &&& trace.actions.drop_last() == before.actions
            &&& trace.actions.last() is Finish
            &&& trace.actions.last()->Finish_0.final_answer == answer
            &&& trace.actions.last()->Finish_0.stop_reason == StopReason::FinalAnswer
            &&& trace.actions.last()->Finish_0.turns_used + 1 == llm_requests(trace.actions)
            &&& trace.actions.last()->Finish_0.tool_calls == before.run.state.tool_calls_executed
            &&& trace.run.state.history.drop_last() == before.run.state.history
            &&& trace.run.state.history.last().role == Role::Assistant
            &&& trace.run.state.history.last().content == answer
        }),
{
    let before = replayed(memory, catalog, input, events);
    let reply = Event::Llm(LlmResponseView::Final { answer });
    let all = events.push(reply);
    let trace = replayed(memory, catalog, input, all);
    assert(all.drop_last() =~= events);
    law_final_answer_is_the_result(memory, catalog, before.run.state, answer);
    law_runs_are_sound(memory, catalog, input, all);
    assert(trace.actions.drop_last() =~= before.actions);
}

/// A reply or a result that a run does not wait for changes nothing, and a
/// signalled message only joins those that are pending.
pub proof fn law_only_awaited_events_count<M: MemoryProvider + ?Sized>(
    memory: &M,
    catalog: Seq<ToolSchemaView>,
    trace: Trace,
    response: LlmResponseView,
    result: ToolResultView,
    text: Seq<char>,
)
    ensures
        !(trace.run.phase is AwaitingLlm) ==> extended(
            memory,
            catalog,
            trace,
            Event::Llm(response),
        ) == trace,
        !(trace.run.phase is AwaitingTools) ==> extended(
            memory,
            catalog,
            trace,
            Event::Tool(result),
        ) == trace,
        ({
            let after = extended(memory, catalog, trace, Event::UserMessage(text));
            let pending = after.run.state.pending_user_messages;
            &&& after.actions == trace.actions
            &&& after.run.phase == trace.run.phase
            &&& after.run.state.history == trace.run.state.history
            &&& after.run.state.input == trace.run.state.input
            &&& after.run.state.turn == trace.run.state.turn
            &&& after.run.state.tool_calls_executed == trace.run.state.tool_calls_executed
            &&& pending.len() == trace.run.state.pending_user_messages.len() + 1
            &&& pending.drop_last() == trace.run.state.pending_user_messages
            &&& pending.last() == text
        }),
{
    let after = extended(memory, catalog, trace, Event::UserMessage(text));
    assert(after.run.state.pending_user_messages.drop_last()
        =~= trace.run.state.pending_user_messages);
}

} // verus!
