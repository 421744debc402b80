//! Pluggable history compaction.
//!
//! Before every reasoning turn the agent loop consults a [`MemoryProvider`],
//! which decides whether the run continues as a new one with a compacted input.
//! The default is [`SlidingWindowMemory`].
//!
//! # Determinism contract
//!
//! A provider runs inside the agent loop, which is replayed from recorded
//! events. It must be
//!
//! - **pure**: no I/O, no clocks, no randomness. Given the same [`AgentState`],
//!   `should_compact` and `compact` return the same result every time;
//! - **stateless across calls**: a provider holds configuration, and all
//!   conversation state lives in [`AgentState`].
//!
//! [`MemoryProvider::compacts`] and [`MemoryProvider::compaction`] name the two
//! results as functions of the state.

use vstd::prelude::*;

use crate::state::{
    call_views, conversation, copy_schema, initial_state, last_user, last_user_text,
    law_conversation_of_a_first_run, message_views, messages_from, text_view, AgentInput,
    AgentInputView, AgentState, AgentStateView, Message, MessageView, Role, ToolCall, ToolCallView,
};
use crate::text::{
    byte_len, decimal, decimal_text, fitting, fitting_prefix, join, joined,
    law_joining_keeps_every_part, lemma_byte_len_concat, lemma_fitting_bounds_prefixes,
    lemma_fitting_is_longest, part_start, string_views,
};

verus! {

/// Default history length above which [`SlidingWindowMemory`] compacts.
pub const DEFAULT_COMPACT_THRESHOLD: usize = 200;

/// Default number of most recent messages that [`SlidingWindowMemory`]
/// preserves verbatim when compacting.
pub const DEFAULT_KEEP_RECENT: usize = 20;

/// Most bytes of a user's or an assistant's message that a summary quotes.
pub const SUMMARY_TEXT_BYTES: usize = 200;

/// Most bytes of a tool's output that a summary quotes.
pub const SUMMARY_TOOL_BYTES: usize = 120;

/// `text` cut to at most `max` bytes of whole characters, with an ellipsis where
/// something was cut.
pub open spec fn truncated(text: Seq<char>, max: nat) -> Seq<char> {
    if byte_len(text) <= max {
        text
    } else {
        text.take(fitting(text, max) as int).push('\u{2026}')
    }
}

/// Cuts `s` to at most `max` bytes, at a character boundary, and marks the cut
/// with an ellipsis. A text that fits is returned as it is.
pub fn truncate(s: &str, max: usize) -> (r: String)
    ensures
        r@ == truncated(s@, max as nat),
{
    if s.as_bytes().len() <= max {
        return s.to_owned();
    }
    proof {
        reveal_strlit("\u{2026}");
    }
    let r = fitting_prefix(s, max).to_owned().concat("\u{2026}");
    assert(r@ =~= truncated(s@, max as nat));
    r
}

/// Strategy for deciding when to compact agent history and how to do it.
///
/// See the module documentation for the contract that every implementation
/// must uphold.
pub trait MemoryProvider: core::fmt::Debug + Send + Sync + 'static {
    /// Whether the history of a run in this state is to be compacted. Never,
    /// unless an implementation says otherwise.
    open spec fn compacts(&self, state: AgentStateView) -> bool {
        false
    }

    /// The input of the run that follows one in this state. That of the run
    /// itself, unless an implementation says otherwise.
    open spec fn compaction(&self, state: AgentStateView) -> AgentInputView {
        state.input
    }

    /// Called every iteration of the agent loop. Returns `true` to continue as
    /// a new run with the [`AgentInput`] returned by [`Self::compact`].
    fn should_compact(&self, state: &AgentState) -> (r: bool)
        ensures
            r == self.compacts(state@),
    ;

    /// Produces the [`AgentInput`] that seeds the next run. Only called when
    /// [`Self::should_compact`] returned `true`.
    fn compact(&self, state: &AgentState) -> (r: AgentInput)
        ensures
            r@ == self.compaction(state@),
    ;
}

/// Sliding-window compaction: once the history is longer than
/// `compact_threshold`, everything older than the last `keep_recent` messages
/// becomes a text summary at the end of the system prompt, and the last
/// `keep_recent` messages are part of the next run's conversation verbatim. (A
/// kept tool message may answer a request that was summarized.)
///
/// `keep_recent` is less than `compact_threshold`. What counts against the
/// threshold is what a run adds itself: its history begins with two messages,
/// whatever was kept.
#[derive(Debug)]
pub struct SlidingWindowMemory {
    compact_threshold: usize,
    keep_recent: usize,
}

/// Settings of a [`SlidingWindowMemory`].
#[verifier::ext_equal]
pub struct WindowView {
    pub compact_threshold: usize,
    pub keep_recent: usize,
}

impl View for SlidingWindowMemory {
    type V = WindowView;

    closed spec fn view(&self) -> WindowView {
        WindowView { compact_threshold: self.compact_threshold, keep_recent: self.keep_recent }
    }
}

impl SlidingWindowMemory {
    #[verifier::type_invariant]
    spec fn wf(self) -> bool {
        self.keep_recent < self.compact_threshold
    }

    /// Constructs with [`DEFAULT_COMPACT_THRESHOLD`] / [`DEFAULT_KEEP_RECENT`].
    #[must_use]
    pub fn new() -> (r: Self)
        ensures
            r@ == (WindowView {
                compact_threshold: DEFAULT_COMPACT_THRESHOLD,
                keep_recent: DEFAULT_KEEP_RECENT,
            }),
    {
        SlidingWindowMemory {
            compact_threshold: DEFAULT_COMPACT_THRESHOLD,
            keep_recent: DEFAULT_KEEP_RECENT,
        }
    }

    /// Overrides the history length at which compaction fires, which must be
    /// greater than `keep_recent`: otherwise every iteration would compact.
    #[must_use]
    pub fn with_compact_threshold(self, n: usize) -> (r: Self)
        requires
            n > self@.keep_recent,
        ensures
            r@ == (WindowView { compact_threshold: n, keep_recent: self@.keep_recent }),
    {
        SlidingWindowMemory { compact_threshold: n, keep_recent: self.keep_recent }
    }

    /// Overrides the number of messages preserved verbatim after compaction,
    /// which must be less than `compact_threshold`: otherwise every iteration
    /// would compact.
    #[must_use]
    pub fn with_keep_recent(self, n: usize) -> (r: Self)
        requires
            n < self@.compact_threshold,
        ensures
            r@ == (WindowView { compact_threshold: self@.compact_threshold, keep_recent: n }),
    {
        SlidingWindowMemory { compact_threshold: self.compact_threshold, keep_recent: n }
    }

    /// [`Self::with_compact_threshold`] for any `n`: nothing where `n` is not
    /// greater than `keep_recent`.
    #[must_use]
    pub fn try_with_compact_threshold(self, n: usize) -> (r: Option<Self>)
        ensures
            match r {
                Some(window) => n > self@.keep_recent && window@ == (WindowView {
                    compact_threshold: n,
                    keep_recent: self@.keep_recent,
                }),
                None => n <= self@.keep_recent,
            },
    {
        if n > self.keep_recent {
            Some(self.with_compact_threshold(n))
        } else {
            None
        }
    }

    /// [`Self::with_keep_recent`] for any `n`: nothing where `n` is not less
    /// than `compact_threshold`.
    #[must_use]
    pub fn try_with_keep_recent(self, n: usize) -> (r: Option<Self>)
        ensures
            match r {
                Some(window) => n < self@.compact_threshold && window@ == (WindowView {
                    compact_threshold: self@.compact_threshold,
                    keep_recent: n,
                }),
                None => n >= self@.compact_threshold,
            },
    {
        if n < self.compact_threshold {
            Some(self.with_keep_recent(n))
        } else {
            None
        }
    }

    /// Inspects the current compaction trigger.
    #[must_use]
    pub fn compact_threshold(&self) -> (r: usize)
        ensures
            r == self@.compact_threshold,
            r > self@.keep_recent,
    {
        proof {
            use_type_invariant(self);
        }
        self.compact_threshold
    }

    /// Inspects the current keep-recent setting.
    #[must_use]
    pub fn keep_recent(&self) -> (r: usize)
        ensures
            r == self@.keep_recent,
            r < self@.compact_threshold,
    {
        proof {
            use_type_invariant(self);
        }
        self.keep_recent
    }
}

impl Clone for SlidingWindowMemory {
    fn clone(&self) -> (r: Self)
        ensures
            r@ == self@,
    {
        proof {
            use_type_invariant(self);
        }
        SlidingWindowMemory {
            compact_threshold: self.compact_threshold,
            keep_recent: self.keep_recent,
        }
    }
}

impl Default for SlidingWindowMemory {
    fn default() -> (r: Self)
        ensures
            r@ == (WindowView {
                compact_threshold: DEFAULT_COMPACT_THRESHOLD,
                keep_recent: DEFAULT_KEEP_RECENT,
            }),
    {
        SlidingWindowMemory::new()
    }
}

impl MemoryProvider for SlidingWindowMemory {
    open spec fn compacts(&self, state: AgentStateView) -> bool {
        state.history.len() > self@.compact_threshold
    }

    open spec fn compaction(&self, state: AgentStateView) -> AgentInputView {
        compacted(state, self@.keep_recent as nat)
    }

    fn should_compact(&self, state: &AgentState) -> (r: bool) {
        state.history.len() > self.compact_threshold
    }

    fn compact(&self, state: &AgentState) -> (r: AgentInput) {
        compact_sliding_window(state, self.keep_recent)
    }
}

impl<M: MemoryProvider + ?Sized> MemoryProvider for std::sync::Arc<M> {
    open spec fn compacts(&self, state: AgentStateView) -> bool {
        (**self).compacts(state)
    }

    open spec fn compaction(&self, state: AgentStateView) -> AgentInputView {
        (**self).compaction(state)
    }

    fn should_compact(&self, state: &AgentState) -> (r: bool) {
        (**self).should_compact(state)
    }

    fn compact(&self, state: &AgentState) -> (r: AgentInput) {
        (**self).compact(state)
    }
}

/// The names of the called tools.
pub open spec fn call_names(calls: Seq<ToolCallView>) -> Seq<Seq<char>> {
    Seq::new(calls.len(), |i: int| calls[i].name)
}

/// What a summary says of a message. System messages are not mentioned.
pub open spec fn summary_line(message: MessageView) -> Option<Seq<char>> {
    match message.role {
        Role::System => None,
        Role::User => Some("user: "@ + truncated(message.content, SUMMARY_TEXT_BYTES as nat)),
        Role::Assistant => if message.tool_calls.len() > 0 {
            Some(
                "assistant: called tools ["@ + joined(call_names(message.tool_calls), ", "@)
                    + "]"@,
            )
        } else {
            Some("assistant: "@ + truncated(message.content, SUMMARY_TEXT_BYTES as nat))
        },
        Role::Tool => Some("tool: "@ + truncated(message.content, SUMMARY_TOOL_BYTES as nat)),
    }
}

/// The lines of a summary of these messages, in their order.
pub open spec fn summary_lines(messages: Seq<MessageView>) -> Seq<Seq<char>>
    decreases messages.len(),
{
    if messages.len() == 0 {
        Seq::empty()
    } else {
        let before = summary_lines(messages.drop_last());
        match summary_line(messages.last()) {
            Some(line) => before.push(line),
            None => before,
        }
    }
}

/// Number of messages that are older than the last `keep_recent`.
pub open spec fn dropped_count(total: nat, keep_recent: nat) -> nat {
    if total > keep_recent {
        (total - keep_recent) as nat
    } else {
        0
    }
}

/// The summary of everything older than the last `keep_recent` messages; empty
/// where there is nothing to say.
pub open spec fn summary(history: Seq<MessageView>, keep_recent: nat) -> Seq<char> {
    let dropped = dropped_count(history.len(), keep_recent);
    let lines = summary_lines(history.take(dropped as int));
    if lines.len() == 0 {
        Seq::empty()
    } else {
        "\n\n[Prior conversation summary, "@ + decimal(dropped) + " messages dropped]\n"@ + joined(
            lines,
            "\n"@,
        )
    }
}

/// The input that sliding-window compaction makes of a state.
pub open spec fn compacted(state: AgentStateView, keep_recent: nat) -> AgentInputView {
    AgentInputView {
        system_prompt: state.input.system_prompt + summary(conversation(state), keep_recent),
        user_message: match last_user(state.history) {
            Some(content) => content,
            None => Seq::empty(),
        },
        max_turns: state.input.max_turns,
        output_schema: state.input.output_schema,
        recent: conversation(state).skip(
            dropped_count(conversation(state).len(), keep_recent) as int,
        ),
    }
}

fn names_of(calls: &Vec<ToolCall>) -> (r: Vec<String>)
    ensures
        string_views(r@) == call_names(call_views(calls@)),
{
    let mut names: Vec<String> = Vec::new();
    let mut i: usize = 0;
    while i < calls.len()
        invariant
            i <= calls.len(),
            names.len() == i,
            forall|j: int| 0 <= j < i ==> names@[j]@ == calls@[j].name@,
        decreases calls.len() - i,
    {
        names.push(calls[i].name.clone());
        i = i + 1;
    }
    assert(string_views(names@) =~= call_names(call_views(calls@)));
    names
}

fn line_of(message: &Message) -> (r: Option<String>)
    ensures
        text_view(r) == summary_line(message@),
{
    match message.role {
        Role::System => None,
        Role::User => Some(
            "user: ".to_owned().concat(
                truncate(message.content.as_str(), SUMMARY_TEXT_BYTES).as_str(),
            ),
        ),
        Role::Assistant => if message.tool_calls.len() > 0 {
            let names = names_of(&message.tool_calls);
            Some(
                "assistant: called tools [".to_owned().concat(join(&names, ", ").as_str()).concat(
                    "]",
                ),
            )
        } else {
            Some(
                "assistant: ".to_owned().concat(
                    truncate(message.content.as_str(), SUMMARY_TEXT_BYTES).as_str(),
                ),
            )
        },
        Role::Tool => Some(
            "tool: ".to_owned().concat(
                truncate(message.content.as_str(), SUMMARY_TOOL_BYTES).as_str(),
            ),
        ),
    }
}

fn summary_text(history: &Vec<Message>, keep_recent: usize) -> (r: String)
    ensures
        r@ == summary(message_views(history@), keep_recent as nat),
{
    let total: usize = history.len();
    let dropped: usize = if total > keep_recent {
        total - keep_recent
    } else {
        0
    };
    let ghost views = message_views(history@);
    let mut lines: Vec<String> = Vec::new();
    let mut i: usize = 0;
    while i < dropped
        invariant
            i <= dropped <= history.len(),
            views == message_views(history@),
            string_views(lines@) == summary_lines(views.take(i as int)),
        decreases dropped - i,
    {
        let ghost before = lines@;
        if let Some(line) = line_of(&history[i]) {
            lines.push(line);
            assert(string_views(lines@) =~= string_views(before).push(line@));
        }
        assert(views.take(i + 1).drop_last() =~= views.take(i as int));
        i = i + 1;
    }
    if lines.len() == 0 {
        String::new()
    } else {
        "\n\n[Prior conversation summary, ".to_owned().concat(decimal_text(dropped).as_str()).concat(
            " messages dropped]\n",
        ).concat(join(&lines, "\n").as_str())
    }
}

/// Pure sliding-window compaction kernel.
///
/// Preserves the system prompt, summarizes everything before the last
/// `keep_recent` messages into a text block appended to the system prompt,
/// keeps those messages verbatim, carries the last user message over, and
/// threads through `max_turns` and `output_schema`.
///
/// Exposed for a custom [`MemoryProvider`] that wants the summary's format.
pub fn compact_sliding_window(state: &AgentState, keep_recent: usize) -> (r: AgentInput)
    ensures
        r@ == compacted(state@, keep_recent as nat),
{
    let messages = state.conversation();
    let summary_block = summary_text(&messages, keep_recent);
    let total: usize = messages.len();
    let dropped: usize = if total > keep_recent {
        total - keep_recent
    } else {
        0
    };
    AgentInput {
        system_prompt: state.input.system_prompt.clone().concat(summary_block.as_str()),
        user_message: match last_user_text(&state.history) {
            Some(content) => content,
            None => String::new(),
        },
        max_turns: state.input.max_turns,
        output_schema: copy_schema(&state.input.output_schema),
        recent: messages_from(&messages, dropped),
    }
}

/// Truncation: a text that fits is unchanged. Any other is cut to its longest
/// prefix of whole characters within the limit, followed by an ellipsis, which
/// takes three bytes.
pub proof fn law_truncation_is_tight(text: Seq<char>, max: nat, n: int)
    requires
        0 <= n <= text.len(),
    ensures
        byte_len(text) <= max ==> truncated(text, max) == text,
        byte_len(text) > max ==> {
            let kept = truncated(text, max).drop_last();
            &&& truncated(text, max).last() == '\u{2026}'
            &&& kept.is_prefix_of(text)
            &&& byte_len(kept) <= max
            &&& byte_len(text.take(n)) <= max ==> n <= kept.len()
        },
        byte_len(truncated(text, max)) <= max + 3,
{
    lemma_fitting_is_longest(text, max);
    if byte_len(text.take(n)) <= max {
        lemma_fitting_bounds_prefixes(text, max, n);
    }
    if byte_len(text) > max {
        let kept = text.take(fitting(text, max) as int);
        let mark = seq!['\u{2026}'];
        assert(truncated(text, max).drop_last() =~= kept);
        assert(truncated(text, max) =~= kept + mark);
        lemma_byte_len_concat(kept, mark);
        assert(mark.drop_first() =~= Seq::empty());
        assert(byte_len(Seq::<char>::empty()) == 0);
        assert(byte_len(mark) == 3);
    }
}

/// A summary goes message by message: the lines of a conversation are those of
/// its beginning followed by those of the rest.
pub proof fn law_summary_goes_message_by_message(
    beginning: Seq<MessageView>,
    rest: Seq<MessageView>,
)
    ensures
        summary_lines(beginning + rest) == summary_lines(beginning) + summary_lines(rest),
    decreases rest.len(),
{
    if rest.len() == 0 {
        assert(beginning + rest =~= beginning);
    } else {
        assert((beginning + rest).drop_last() =~= beginning + rest.drop_last());
        law_summary_goes_message_by_message(beginning, rest.drop_last());
    }
}

/// Every message but a system message has a line of its own in a summary, and
/// there are no other lines.
pub proof fn law_summary_has_a_line_per_message(messages: Seq<MessageView>)
    ensures
        summary_lines(messages).len() == spoken(messages),
    decreases messages.len(),
{
    if messages.len() > 0 {
        law_summary_has_a_line_per_message(messages.drop_last());
    }
}

/// Number of messages other than system messages.
pub open spec fn spoken(messages: Seq<MessageView>) -> nat
    decreases messages.len(),
{
    if messages.len() == 0 {
        0
    } else {
        spoken(messages.drop_last()) + if messages.last().role == Role::System {
            0nat
        } else {
            1
        }
    }
}

/// The last user message is carried over: the one that no other user message
/// follows. Without any, the text is empty.
pub proof fn law_compaction_carries_last_user_message(
    state: AgentStateView,
    keep_recent: nat,
    i: int,
)
    requires
        -1 <= i < state.history.len(),
        i >= 0 ==> state.history[i].role == Role::User,
        forall|j: int|
            i < j < state.history.len() ==> (#[trigger] state.history[j]).role != Role::User,
    ensures
        compacted(state, keep_recent).user_message == if i >= 0 {
            state.history[i].content
        } else {
            Seq::empty()
        },
{
    lemma_last_user(state.history, i);
}

proof fn lemma_last_user(history: Seq<MessageView>, i: int)
    requires
        -1 <= i < history.len(),
        i >= 0 ==> history[i].role == Role::User,
        forall|j: int| i < j < history.len() ==> (#[trigger] history[j]).role != Role::User,
    ensures
        last_user(history) == if i >= 0 {
            Some(history[i].content)
        } else {
            None
        },
    decreases history.len(),
{
    if i < history.len() - 1 {
        assert(history.last().role != Role::User);
        assert forall|j: int| i < j < history.len() - 1 implies (
        #[trigger] history.drop_last()[j]).role != Role::User by {
            assert(history.drop_last()[j] == history[j]);
        }
        lemma_last_user(history.drop_last(), i);
    }
}

/// Compaction keeps the system prompt and only ever adds to it, and keeps the
/// cap on turns and the output schema.
pub proof fn law_compaction_keeps_settings(state: AgentStateView, keep_recent: nat)
    ensures
        state.input.system_prompt.is_prefix_of(compacted(state, keep_recent).system_prompt),
        compacted(state, keep_recent).max_turns == state.input.max_turns,
        compacted(state, keep_recent).output_schema == state.input.output_schema,
{
    let prompt = state.input.system_prompt;
    assert((prompt + summary(conversation(state), keep_recent)).take(prompt.len() as int) =~= prompt);
}

/// Where nothing is older than the last `keep_recent` messages, the system
/// prompt stays as it is.
pub proof fn law_nothing_dropped_changes_no_prompt(state: AgentStateView, keep_recent: nat)
    requires
        conversation(state).len() <= keep_recent,
    ensures
        compacted(state, keep_recent).system_prompt == state.input.system_prompt,
{
    assert(conversation(state).take(0) =~= Seq::empty());
    assert(summary_lines(Seq::empty()) =~= Seq::empty());
    assert(state.input.system_prompt + Seq::empty() =~= state.input.system_prompt);
}

/// Compaction splits a conversation in two: what is older is summarized, and the
/// last `keep_recent` messages, or all of a shorter conversation, are kept as
/// they are.
pub proof fn law_compaction_keeps_recent_messages(state: AgentStateView, keep_recent: nat)
    ensures
        compacted(state, keep_recent).recent.len() == if conversation(state).len() > keep_recent {
            keep_recent
        } else {
            conversation(state).len()
        },
        conversation(state) == conversation(state).take(
            dropped_count(conversation(state).len(), keep_recent) as int,
        ) + compacted(state, keep_recent).recent,
{
    let messages = conversation(state);
    let dropped = dropped_count(messages.len(), keep_recent) as int;
    assert(messages =~= messages.take(dropped) + messages.skip(dropped));
}

/// Where the history is longer than the window by its two opening messages, as
/// it is whenever [`SlidingWindowMemory`] compacts, the kept messages are the
/// last `keep_recent` of the history.
pub proof fn law_kept_messages_end_the_history(state: AgentStateView, keep_recent: nat)
    requires
        state.history.len() >= keep_recent + 2,
    ensures
        compacted(state, keep_recent).recent == state.history.skip(
            state.history.len() - keep_recent,
        ),
{
    assert(compacted(state, keep_recent).recent =~= state.history.skip(
        state.history.len() - keep_recent,
    ));
}

/// The kept messages end the conversation with which the next run begins,
/// verbatim and in order.
pub proof fn law_kept_messages_enter_the_next_run(state: AgentStateView, keep_recent: nat)
    ensures
        ({
            let next = compacted(state, keep_recent);
            let begun = conversation(initial_state(next));
            &&& begun.len() >= next.recent.len() + 1
            &&& begun.skip(begun.len() - next.recent.len()) == next.recent
        }),
{
    let next = compacted(state, keep_recent);
    let begun = conversation(initial_state(next));
    assert(begun.skip(begun.len() - next.recent.len()) =~= next.recent);
}

/// A run seeded with a compacted input is not compacted at once. (A threshold of
/// one message is passed by every run: each begins with two.)
pub proof fn law_compacted_input_does_not_compact_at_once(
    memory: &SlidingWindowMemory,
    state: AgentStateView,
)
    requires
        memory@.compact_threshold >= 2,
    ensures
        !memory.compacts(initial_state(memory.compaction(state))),
{
}

/// Compacting a run that has only begun, with room for its messages, changes
/// nothing but to keep them.
pub proof fn law_compacting_a_new_run_keeps_everything(input: AgentInputView, keep_recent: nat)
    requires
        keep_recent >= 2,
        input.recent.len() == 0,
    ensures
        compacted(initial_state(input), keep_recent) == (AgentInputView {
            recent: initial_state(input).history,
            ..input
        }),
{
    law_conversation_of_a_first_run(initial_state(input));
    law_nothing_dropped_changes_no_prompt(initial_state(input), keep_recent);
    lemma_last_user(initial_state(input).history, 1);
    assert(initial_state(input).history.skip(0) =~= initial_state(input).history);
}

/// The window compacts where the history is longer than the threshold, and only
/// there.
pub proof fn law_window_compacts_above_its_threshold(
    memory: &SlidingWindowMemory,
    state: AgentStateView,
)
    ensures
        state.history.len() <= memory@.compact_threshold ==> !memory.compacts(state),
        state.history.len() >= memory@.compact_threshold + 1 ==> memory.compacts(state),
        memory.compaction(state) == compacted(state, memory@.keep_recent as nat),
{
}

/// A shared provider decides as the one that is shared.
pub proof fn law_shared_memory_decides_alike<M: MemoryProvider>(
    shared: std::sync::Arc<M>,
    state: AgentStateView,
)
    ensures
        shared.compacts(state) == (*shared).compacts(state),
        shared.compaction(state) == (*shared).compaction(state),
{
}

/// What is dropped and what is kept add up, and what is kept is `keep_recent`
/// messages or all there are.
pub proof fn law_dropped_and_kept_add_up(total: nat, keep_recent: nat)
    ensures
        total <= keep_recent ==> dropped_count(total, keep_recent) == 0,
        total >= keep_recent ==> dropped_count(total, keep_recent) + keep_recent == total,
{
}

/// The names of the called tools are those of each call, in order.
pub proof fn law_call_names_show_every_call(calls: Seq<ToolCallView>, i: int)
    requires
        0 <= i < calls.len(),
    ensures
        call_names(calls).len() == calls.len(),
        call_names(calls)[i] == calls[i].name,
{
}

/// A summary says who spoke and quotes what was said: up to 200 bytes of a
/// user's or the assistant's text, up to 120 of a tool's, and the names of the
/// tools where the assistant called any. System messages are left out.
pub proof fn law_summary_line_quotes_the_message(message: MessageView)
    ensures
        message.role == Role::System <==> summary_line(message) is None,
        message.role == Role::User ==> {
            let line = summary_line(message)->0;
            &&& line.take(6) == "user: "@
            &&& line.skip(6) == truncated(message.content, 200)
        },
        message.role == Role::Assistant && message.tool_calls.len() == 0 ==> {
            let line = summary_line(message)->0;
            &&& line.take(11) == "assistant: "@
            &&& line.skip(11) == truncated(message.content, 200)
        },
        message.role == Role::Assistant && message.tool_calls.len() > 0 ==> {
            let line = summary_line(message)->0;
            &&& line.take(25) == "assistant: called tools ["@
            &&& line.skip(25).drop_last() == joined(call_names(message.tool_calls), ", "@)
            &&& line.last() == ']'
        },
        message.role == Role::Tool ==> {
            let line = summary_line(message)->0;
            &&& line.take(6) == "tool: "@
            &&& line.skip(6) == truncated(message.content, 120)
        },
{
    reveal_strlit("user: ");
    reveal_strlit("assistant: ");
    reveal_strlit("assistant: called tools [");
    reveal_strlit("]");
    reveal_strlit("tool: ");
    if let Some(line) = summary_line(message) {
        match message.role {
            Role::User => {
                assert(line.take(6) =~= "user: "@);
                assert(line.skip(6) =~= truncated(message.content, 200));
            },
            Role::Assistant => {
                if message.tool_calls.len() > 0 {
                    let names = joined(call_names(message.tool_calls), ", "@);
                    assert(line.take(25) =~= "assistant: called tools ["@);
                    assert(line.skip(25).drop_last() =~= names);
                } else {
                    assert(line.take(11) =~= "assistant: "@);
                    assert(line.skip(11) =~= truncated(message.content, 200));
                }
            },
            Role::Tool => {
                assert(line.take(6) =~= "tool: "@);
                assert(line.skip(6) =~= truncated(message.content, 120));
            },
            Role::System => {},
        }
    }
}

/// Among the lines of a summary, that of a message comes after those of the
/// messages before it that are no system messages.
pub proof fn law_summary_has_the_line_of_every_message(messages: Seq<MessageView>, i: int)
    requires
        0 <= i < messages.len(),
        messages[i].role != Role::System,
    ensures
        0 <= spoken(messages.take(i)) < summary_lines(messages).len(),
        summary_line(messages[i]) == Some(
            summary_lines(messages)[spoken(messages.take(i)) as int],
        ),
    decreases messages.len(),
{
    let before = messages.drop_last();
    if i < messages.len() - 1 {
        law_summary_has_the_line_of_every_message(before, i);
        assert(before.take(i) =~= messages.take(i));
    } else {
        assert(messages.take(i) =~= before);
        law_summary_has_a_line_per_message(before);
    }
}

/// A compacted prompt is the prompt of the run, a heading that counts what was
/// dropped, and then every line of the summary, each on a line of its own, in
/// order and to the end.
pub proof fn law_compacted_prompt_holds_every_line(state: AgentStateView, keep_recent: nat, j: int)
    requires
        0 <= j < summary_lines(
            conversation(state).take(
                dropped_count(conversation(state).len(), keep_recent) as int,
            ),
        ).len(),
    ensures
        ({
            let dropped = dropped_count(conversation(state).len(), keep_recent);
            let lines = summary_lines(conversation(state).take(dropped as int));
            let prompt = compacted(state, keep_recent).system_prompt;
            let body = prompt.len() - (part_start(lines, lines.len() as int) - 1);
            let start = body + part_start(lines, j);
            let own = state.input.system_prompt.len() as int;
            &&& own < body <= start
            &&& prompt.take(own) == state.input.system_prompt
            &&& prompt.subrange(own, own + 31) == "\n\n[Prior conversation summary, "@
            &&& prompt.subrange(own + 31, body - 19) == decimal(dropped)
            &&& prompt.subrange(body - 19, body) == " messages dropped]\n"@
            &&& start + lines[j].len() <= prompt.len()
            &&& prompt.subrange(start, start + lines[j].len() as int) == lines[j]
            &&& prompt[start - 1] == '\n'
            &&& j + 1 < lines.len() ==> prompt[start + lines[j].len()] == '\n'
            &&& j + 1 == lines.len() ==> start + lines[j].len() == prompt.len()
        }),
{
    reveal_strlit("\n\n[Prior conversation summary, ");
    reveal_strlit(" messages dropped]\n");
    reveal_strlit("\n");
    let dropped = dropped_count(conversation(state).len(), keep_recent);
    let lines = summary_lines(conversation(state).take(dropped as int));
    let prompt = compacted(state, keep_recent).system_prompt;
    let own = state.input.system_prompt.len() as int;
    let text = joined(lines, "\n"@);
    assert("\n"@ =~= seq!['\n']);
    law_joining_keeps_every_part(lines, '\n', j);
    let heading = "\n\n[Prior conversation summary, "@ + decimal(dropped)
        + " messages dropped]\n"@;
    let body = own + heading.len();
    assert(prompt =~= state.input.system_prompt + heading + text);
    let start = body + part_start(lines, j);
    assert(prompt.take(own) =~= state.input.system_prompt);
    assert(prompt.subrange(own, own + 31) =~= "\n\n[Prior conversation summary, "@);
    assert(prompt.subrange(own + 31, body - 19) =~= decimal(dropped));
    assert(prompt.subrange(body - 19, body) =~= " messages dropped]\n"@);
    assert(prompt.subrange(start, start + lines[j].len() as int) =~= text.subrange(
        part_start(lines, j),
        part_start(lines, j) + lines[j].len() as int,
    ));
    if j == 0 {
        assert(part_start(lines, 0) == 0);
        assert(prompt[start - 1] == " messages dropped]\n"@[18]);
    } else {
        assert(prompt[start - 1] == text[part_start(lines, j) - 1]);
    }
    if j + 1 < lines.len() {
        assert(prompt[start + lines[j].len()] == text[part_start(lines, j) + lines[j].len()]);
    } else {
        assert(part_start(lines, j + 1) == part_start(lines, j) + lines[j].len() + 1);
    }
}

/// No dropped message is lost: each but a system message is quoted in the
/// compacted prompt, by its own line. The index is where that line begins.
pub proof fn law_dropped_messages_are_quoted(state: AgentStateView, keep_recent: nat, i: int) -> (at:
    int)
    requires
        0 <= i < conversation(state).len() - keep_recent,
        conversation(state)[i].role != Role::System,
    ensures
        ({
            let prompt = compacted(state, keep_recent).system_prompt;
            let line = summary_line(conversation(state)[i])->0;
            &&& state.input.system_prompt.len() < at
            &&& at + line.len() <= prompt.len()
            &&& prompt.subrange(at, at + line.len() as int) == line
            &&& prompt[at - 1] == '\n'
            &&& at + line.len() == prompt.len() || prompt[at + line.len()] == '\n'
        }),
{
    let dropped = dropped_count(conversation(state).len(), keep_recent) as int;
    let older = conversation(state).take(dropped);
    let lines = summary_lines(older);
    law_summary_has_the_line_of_every_message(older, i);
    let j = spoken(older.take(i)) as int;
    law_compacted_prompt_holds_every_line(state, keep_recent, j);
    compacted(state, keep_recent).system_prompt.len() - (part_start(lines, lines.len() as int) - 1)
        + part_start(lines, j)
}

/// Where only system messages are dropped, the prompt stays as it is.
pub proof fn law_nothing_said_changes_no_prompt(state: AgentStateView, keep_recent: nat)
    requires
        spoken(
            conversation(state).take(
                dropped_count(conversation(state).len(), keep_recent) as int,
            ),
        ) == 0,
    ensures
        compacted(state, keep_recent).system_prompt == state.input.system_prompt,
{
    law_summary_has_a_line_per_message(
        conversation(state).take(dropped_count(conversation(state).len(), keep_recent) as int),
    );
    assert(state.input.system_prompt + Seq::empty() =~= state.input.system_prompt);
}

/// The view of a window shows its settings.
proof fn law_view_shows_the_settings(memory: SlidingWindowMemory)
    ensures
        memory@.compact_threshold == memory.compact_threshold,
        memory@.keep_recent == memory.keep_recent,
{
}

} // verus!
