//! Assembles what a worker needs to run agents.
//!
//! The builder is generic in what it only hands on: the client `C`, the
//! provider `L`, the tools `T` and a memory provider `M`.

use vstd::prelude::*;

use crate::activities::AgentActivities;
use crate::memory::{
    compacted, MemoryProvider, SlidingWindowMemory, WindowView, DEFAULT_COMPACT_THRESHOLD,
    DEFAULT_KEEP_RECENT,
};
use crate::state::{
    schema_views, AgentInput, AgentInputView, AgentState, AgentStateView, ToolSchema,
    ToolSchemaView,
};
use crate::text::converts;
use crate::tool::{
    distinct_names, registered, schemas_of, ToolRegistry, ToolRegistryBuilder,
};

verus! {

/// The memory provider of a worker: its own, or the default one.
#[derive(Debug)]
pub enum WorkerMemory<M> {
    Default(SlidingWindowMemory),
    Custom(M),
}

impl<M> WorkerMemory<M> {
    /// The given provider, or a [`SlidingWindowMemory`] with its defaults.
    pub fn or_default(memory: Option<M>) -> (r: Self)
        ensures
            match (memory, r) {
                (Some(m), WorkerMemory::Custom(chosen)) => chosen == m,
                (None, WorkerMemory::Default(window)) => window@ == (WindowView {
                    compact_threshold: DEFAULT_COMPACT_THRESHOLD,
                    keep_recent: DEFAULT_KEEP_RECENT,
                }),
                _ => false,
            },
    {
        match memory {
            Some(m) => WorkerMemory::Custom(m),
            None => WorkerMemory::Default(SlidingWindowMemory::default()),
        }
    }
}

impl<M: MemoryProvider> MemoryProvider for WorkerMemory<M> {
    open spec fn compacts(&self, state: AgentStateView) -> bool {
        match self {
            WorkerMemory::Default(window) => window.compacts(state),
            WorkerMemory::Custom(m) => m.compacts(state),
        }
    }

    open spec fn compaction(&self, state: AgentStateView) -> AgentInputView {
        match self {
            WorkerMemory::Default(window) => window.compaction(state),
            WorkerMemory::Custom(m) => m.compaction(state),
        }
    }

    fn should_compact(&self, state: &AgentState) -> (r: bool) {
        match self {
            WorkerMemory::Default(window) => window.should_compact(state),
            WorkerMemory::Custom(m) => m.should_compact(state),
        }
    }

    fn compact(&self, state: &AgentState) -> (r: AgentInput) {
        match self {
            WorkerMemory::Default(window) => window.compact(state),
            WorkerMemory::Custom(m) => m.compact(state),
        }
    }
}

/// Fluent builder for an agent worker.
///
/// A provider is required. Tools, queue name and memory are optional.
pub struct AgentWorkerBuilder<C, L, T, M> {
    client: C,
    llm: Option<L>,
    tools: ToolRegistryBuilder<T>,
    queue: String,
    memory: Option<M>,
}

/// Settings of an [`AgentWorkerBuilder`].
#[verifier::ext_equal]
pub struct WorkerView<C, L, T, M> {
    pub client: C,
    pub llm: Option<L>,
    pub tools: Seq<(ToolSchemaView, T)>,
    pub queue: Seq<char>,
    pub memory: Option<M>,
}

impl<C, L, T, M> View for AgentWorkerBuilder<C, L, T, M> {
    type V = WorkerView<C, L, T, M>;

    closed spec fn view(&self) -> WorkerView<C, L, T, M> {
        WorkerView {
            client: self.client,
            llm: self.llm,
            tools: self.tools@,
            queue: self.queue@,
            memory: self.memory,
        }
    }
}

/// What a worker is started with.
pub struct WorkerPlan<C, L, T, M> {
    pub client: C,
    pub queue: String,
    pub activities: AgentActivities<L, T>,
    /// The descriptions of the tools, part of every request to the model.
    pub catalog: Vec<ToolSchema>,
    pub memory: WorkerMemory<M>,
}

impl<C, L, T, M> AgentWorkerBuilder<C, L, T, M> {
    /// Starts a new builder bound to an already connected client.
    #[must_use]
    pub fn new(client: C) -> (r: Self)
        ensures
            r@ == (WorkerView {
                client,
                llm: None::<L>,
                tools: Seq::<(ToolSchemaView, T)>::empty(),
                queue: "agents"@,
                memory: None::<M>,
            }),
    {
        AgentWorkerBuilder {
            client,
            llm: None,
            tools: ToolRegistry::builder(),
            queue: "agents".to_owned(),
            memory: None,
        }
    }

    /// Required. The provider that is asked on every turn.
    #[must_use]
    pub fn llm(self, llm: L) -> (r: Self)
        ensures
            r@ == (WorkerView { llm: Some(llm), ..self@ }),
    {
        AgentWorkerBuilder { llm: Some(llm), ..self }
    }

    /// Registers a tool. Call once per tool the agent should be allowed to use.
    #[must_use]
    pub fn tool(self, schema: ToolSchema, tool: T) -> (r: Self)
        ensures
            r@ == (WorkerView { tools: registered(self@.tools, schema@, tool), ..self@ }),
    {
        AgentWorkerBuilder { tools: self.tools.add(schema, tool), ..self }
    }

    /// Overrides the default task queue name (`"agents"`).
    #[must_use]
    pub fn queue<S: Into<String>>(self, queue: S) -> (r: Self)
        ensures
            r@ == (WorkerView { queue: r@.queue, ..self@ }),
            converts(queue, r@.queue),
    {
        AgentWorkerBuilder { queue: queue.into(), ..self }
    }

    /// Overrides the memory provider. Defaults to
    /// [`SlidingWindowMemory::default`].
    #[must_use]
    pub fn memory(self, memory: M) -> (r: Self)
        ensures
            r@ == (WorkerView { memory: Some(memory), ..self@ }),
    {
        AgentWorkerBuilder { memory: Some(memory), ..self }
    }

    /// Whether [`Self::llm`] was called.
    pub fn has_llm(&self) -> (r: bool)
        ensures
            r == self@.llm is Some,
    {
        self.llm.is_some()
    }

    /// Settles what the worker is started with. The library adds no tools of
    /// its own: the catalog lists what was registered, in the order of first
    /// registration.
    ///
    /// [`Self::llm`] must have been called.
    pub fn plan(self) -> (r: WorkerPlan<C, L, T, M>)
        requires
            self@.llm is Some,
        ensures
            r.client == self@.client,
            r.queue@ == self@.queue,
            r.activities.llm == self@.llm->0,
            r.activities.tools@ == self@.tools,
            schema_views(r.catalog@) == schemas_of(self@.tools),
            distinct_names(self@.tools),
            match (self@.memory, r.memory) {
                (Some(m), WorkerMemory::Custom(chosen)) => chosen == m,
                (None, WorkerMemory::Default(window)) => window@ == (WindowView {
                    compact_threshold: DEFAULT_COMPACT_THRESHOLD,
                    keep_recent: DEFAULT_KEEP_RECENT,
                }),
                _ => false,
            },
    {
        let tools = self.tools.build();
        let catalog = tools.to_schemas();
        WorkerPlan {
            client: self.client,
            queue: self.queue,
            activities: AgentActivities::new(self.llm.unwrap(), tools),
            catalog,
            memory: WorkerMemory::or_default(self.memory),
        }
    }
}

/// A worker without a memory provider of its own compacts as
/// [`SlidingWindowMemory`] does with its published defaults.
pub proof fn law_default_memory_is_the_sliding_window<M: MemoryProvider>(
    memory: WorkerMemory<M>,
    window: SlidingWindowMemory,
    state: AgentStateView,
)
    requires
        memory == WorkerMemory::<M>::Default(window),
        window@ == (WindowView {
            compact_threshold: DEFAULT_COMPACT_THRESHOLD,
            keep_recent: DEFAULT_KEEP_RECENT,
        }),
    ensures
        memory.compacts(state) == (state.history.len() > 200),
        memory.compaction(state) == compacted(state, 20),
{
}

/// A memory provider of the worker's own decides, and is asked for the input of
/// the next run, as it is.
pub proof fn law_own_memory_decides<M: MemoryProvider>(own: M, state: AgentStateView)
    ensures
        WorkerMemory::Custom(own).compacts(state) == own.compacts(state),
        WorkerMemory::Custom(own).compaction(state) == own.compaction(state),
{
}

/// The view of a builder shows all of its settings as they are.
proof fn law_view_shows_the_builder<C, L, T, M>(builder: AgentWorkerBuilder<C, L, T, M>)
    ensures
        builder@.client == builder.client,
        builder@.llm == builder.llm,
        builder@.tools == builder.tools@,
        builder@.queue == builder.queue@,
        builder@.memory == builder.memory,
{
}

} // verus!
