//! Tool registry: a name-based dispatch table for the tools of a worker.
//!
//! The agent loop knows tools by name only. A tool is registered with what it
//! says of itself, its [`ToolSchema`], and with the handle `T` by which the
//! worker runs it. Tools are listed in the order in which their names were first
//! registered, so that workers with the same registrations send the same catalog
//! to the model.

use vstd::pervasive::cloned;
use vstd::prelude::*;

use crate::state::{schema_views, ToolSchema, ToolSchemaView};
use crate::text::string_views;

verus! {

struct Entry<T> {
    schema: ToolSchema,
    tool: T,
}

/// The contents of the entries, in order.
spec fn entry_views<T>(entries: Seq<Entry<T>>) -> Seq<(ToolSchemaView, T)> {
    Seq::new(entries.len(), |i: int| (entries[i].schema@, entries[i].tool))
}

/// The index of the tool with this name.
pub open spec fn position<T>(tools: Seq<(ToolSchemaView, T)>, name: Seq<char>) -> Option<int>
    decreases tools.len(),
{
    if tools.len() == 0 {
        None
    } else if tools.last().0.name == name {
        Some(tools.len() - 1)
    } else {
        position(tools.drop_last(), name)
    }
}

/// The handle of the tool with this name.
pub open spec fn lookup<T>(tools: Seq<(ToolSchemaView, T)>, name: Seq<char>) -> Option<T> {
    match position(tools, name) {
        Some(i) => Some(tools[i].1),
        None => None,
    }
}

/// The tools with one more registered: in place of the one with its name, or
/// after all others where there is none.
pub open spec fn registered<T>(
    tools: Seq<(ToolSchemaView, T)>,
    schema: ToolSchemaView,
    tool: T,
) -> Seq<(ToolSchemaView, T)> {
    match position(tools, schema.name) {
        Some(i) => tools.update(i, (schema, tool)),
        None => tools.push((schema, tool)),
    }
}

/// The tools after these registrations, in order.
pub open spec fn all_registered<T>(registrations: Seq<(ToolSchemaView, T)>) -> Seq<
    (ToolSchemaView, T),
>
    decreases registrations.len(),
{
    if registrations.len() == 0 {
        Seq::empty()
    } else {
        let last = registrations.last();
        registered(all_registered(registrations.drop_last()), last.0, last.1)
    }
}

/// The schemas of the tools, in order.
pub open spec fn schemas_of<T>(tools: Seq<(ToolSchemaView, T)>) -> Seq<ToolSchemaView> {
    Seq::new(tools.len(), |i: int| tools[i].0)
}

/// The names of the tools, in order.
pub open spec fn names_of<T>(tools: Seq<(ToolSchemaView, T)>) -> Seq<Seq<char>> {
    Seq::new(tools.len(), |i: int| tools[i].0.name)
}

/// Whether no name occurs twice.
pub open spec fn distinct_names<T>(tools: Seq<(ToolSchemaView, T)>) -> bool {
    forall|i: int, j: int|
        0 <= i < j < tools.len() ==> (#[trigger] tools[i]).0.name != (#[trigger] tools[j]).0.name
}

/// `position` finds a tool with the name if there is one.
pub proof fn lemma_position<T>(tools: Seq<(ToolSchemaView, T)>, name: Seq<char>)
    ensures
        match position(tools, name) {
            Some(i) => 0 <= i < tools.len() && tools[i].0.name == name,
            None => forall|i: int| 0 <= i < tools.len() ==> (#[trigger] tools[i]).0.name != name,
        },
    decreases tools.len(),
{
    if tools.len() > 0 && tools.last().0.name != name {
        lemma_position(tools.drop_last(), name);
        if position(tools.drop_last(), name) is None {
            assert forall|i: int| 0 <= i < tools.len() implies (#[trigger] tools[i]).0.name
                != name by {
                if i < tools.len() - 1 {
                    assert(tools.drop_last()[i] == tools[i]);
                }
            }
        }
    }
}

/// Where names are distinct, `position` finds the only tool with the name.
proof fn lemma_position_is_unique<T>(tools: Seq<(ToolSchemaView, T)>, i: int)
    requires
        distinct_names(tools),
        0 <= i < tools.len(),
    ensures
        position(tools, tools[i].0.name) == Some(i),
{
    lemma_position(tools, tools[i].0.name);
    if let Some(p) = position(tools, tools[i].0.name) {
        if p < i {
            assert(tools[p].0.name != tools[i].0.name);
        } else if i < p {
            assert(tools[i].0.name != tools[p].0.name);
        }
    } else {
        assert(tools[i].0.name != tools[i].0.name);
    }
}

proof fn lemma_registered_distinct<T>(
    tools: Seq<(ToolSchemaView, T)>,
    schema: ToolSchemaView,
    tool: T,
)
    requires
        distinct_names(tools),
    ensures
        distinct_names(registered(tools, schema, tool)),
{
    lemma_position(tools, schema.name);
    let after = registered(tools, schema, tool);
    assert forall|i: int, j: int| 0 <= i < j < after.len() implies (#[trigger] after[i]).0.name != (
    #[trigger] after[j]).0.name by {
        if j < tools.len() {
            assert(tools[i].0.name != tools[j].0.name);
        }
    }
}

/// After a registration its tool is found under its name, and every other name
/// finds what it found before.
pub proof fn law_registration_is_found<T>(
    tools: Seq<(ToolSchemaView, T)>,
    schema: ToolSchemaView,
    tool: T,
    name: Seq<char>,
)
    requires
        distinct_names(tools),
    ensures
        distinct_names(registered(tools, schema, tool)),
        lookup(registered(tools, schema, tool), schema.name) == Some(tool),
        name != schema.name ==> lookup(registered(tools, schema, tool), name) == lookup(
            tools,
            name,
        ),
{
    lemma_registered_distinct(tools, schema, tool);
    let after = registered(tools, schema, tool);
    lemma_position(tools, schema.name);
    lemma_position(tools, name);
    lemma_position(after, name);
    match position(tools, schema.name) {
        Some(i) => lemma_position_is_unique(after, i),
        None => lemma_position_is_unique(after, tools.len() as int),
    }
    if name != schema.name {
        match position(tools, name) {
            Some(i) => {
                assert(after[i] == tools[i]);
                lemma_position_is_unique(after, i);
            },
            None => {
                if let Some(i) = position(after, name) {
                    assert(i < tools.len());
                    assert(tools[i].0.name != name);
                }
            },
        }
    }
}

/// Of two registrations under one name, the later one counts, and the tools are
/// as if there had been no other.
pub proof fn law_later_registration_wins<T>(
    tools: Seq<(ToolSchemaView, T)>,
    earlier: ToolSchemaView,
    old_tool: T,
    later: ToolSchemaView,
    new_tool: T,
)
    requires
        distinct_names(tools),
        earlier.name == later.name,
    ensures
        registered(registered(tools, earlier, old_tool), later, new_tool) == registered(
            tools,
            later,
            new_tool,
        ),
{
    lemma_registered_distinct(tools, earlier, old_tool);
    lemma_position(tools, later.name);
    let between = registered(tools, earlier, old_tool);
    match position(tools, later.name) {
        Some(i) => {
            lemma_position_is_unique(between, i);
        },
        None => {
            lemma_position_is_unique(between, tools.len() as int);
        },
    }
    assert(registered(between, later, new_tool) =~= registered(tools, later, new_tool));
}

/// The names among these, each where it first occurs.
pub open spec fn first_occurrences(names: Seq<Seq<char>>) -> Seq<Seq<char>>
    decreases names.len(),
{
    if names.len() == 0 {
        Seq::empty()
    } else {
        let before = first_occurrences(names.drop_last());
        if before.contains(names.last()) {
            before
        } else {
            before.push(names.last())
        }
    }
}

/// Tools are listed in the order in which their names were first registered,
/// each once.
pub proof fn law_tools_are_in_order_of_first_registration<T>(
    registrations: Seq<(ToolSchemaView, T)>,
)
    ensures
        names_of(all_registered(registrations)) == first_occurrences(names_of(registrations)),
        distinct_names(all_registered(registrations)),
    decreases registrations.len(),
{
    let all = all_registered(registrations);
    if registrations.len() == 0 {
        assert(names_of(all) =~= Seq::empty());
    } else {
        law_tools_are_in_order_of_first_registration(registrations.drop_last());
        let before = all_registered(registrations.drop_last());
        let last = registrations.last();
        lemma_registered_distinct(before, last.0, last.1);
        lemma_position(before, last.0.name);
        assert(names_of(registrations).drop_last() =~= names_of(registrations.drop_last()));
        match position(before, last.0.name) {
            Some(i) => {
                assert(names_of(before)[i] == last.0.name);
                assert(names_of(all) =~= names_of(before));
            },
            None => {
                assert forall|i: int| 0 <= i < before.len() implies names_of(before)[i]
                    != last.0.name by {
                    assert(before[i].0.name != last.0.name);
                }
                assert(names_of(all) =~= names_of(before).push(last.0.name));
            },
        }
    }
}

/// Workers that register tools with the same schemas in the same order have the
/// same catalog, order and all, whatever their handles are.
pub proof fn law_equal_registrations_give_equal_catalogs<T>(
    one: Seq<(ToolSchemaView, T)>,
    other: Seq<(ToolSchemaView, T)>,
)
    requires
        schemas_of(one) == schemas_of(other),
    ensures
        schemas_of(all_registered(one)) == schemas_of(all_registered(other)),
    decreases one.len(),
{
    assert(schemas_of(one).len() == schemas_of(other).len());
    if one.len() == 0 {
        assert(schemas_of(all_registered(one)) =~= schemas_of(all_registered(other)));
    } else {
        assert(schemas_of(one.drop_last()) =~= schemas_of(one).drop_last());
        assert(schemas_of(other.drop_last()) =~= schemas_of(other).drop_last());
        law_equal_registrations_give_equal_catalogs(one.drop_last(), other.drop_last());
        let a = all_registered(one.drop_last());
        let b = all_registered(other.drop_last());
        let schema = one.last().0;
        assert(schemas_of(one).last() == schemas_of(other).last());
        lemma_position_goes_by_schema(a, b, schema.name);
        lemma_position(a, schema.name);
        assert(schemas_of(a).len() == schemas_of(b).len());
        assert forall|i: int| 0 <= i < a.len() implies a[i].0 == b[i].0 by {
            assert(schemas_of(a)[i] == schemas_of(b)[i]);
        }
        assert(schemas_of(all_registered(one)) =~= schemas_of(all_registered(other)));
    }
}

proof fn lemma_position_goes_by_schema<T>(
    one: Seq<(ToolSchemaView, T)>,
    other: Seq<(ToolSchemaView, T)>,
    name: Seq<char>,
)
    requires
        schemas_of(one) == schemas_of(other),
    ensures
        position(one, name) == position(other, name),
    decreases one.len(),
{
    assert(schemas_of(one).len() == one.len());
    assert(schemas_of(other).len() == other.len());
    if one.len() > 0 {
        assert(schemas_of(one).last() == one.last().0);
        assert(schemas_of(other).last() == other.last().0);
        assert(schemas_of(one.drop_last()) =~= schemas_of(one).drop_last());
        assert(schemas_of(other.drop_last()) =~= schemas_of(other).drop_last());
        lemma_position_goes_by_schema(one.drop_last(), other.drop_last(), name);
    }
}

fn index_of<T>(entries: &Vec<Entry<T>>, name: &str) -> (r: Option<usize>)
    ensures
        match r {
            Some(i) => i < entries.len() && position(entry_views(entries@), name@) == Some(
                i as int,
            ),
            None => position(entry_views(entries@), name@) is None,
        },
{
    let wanted = name.to_owned();
    let ghost views = entry_views(entries@);
    let mut i: usize = entries.len();
    assert(views.take(i as int) =~= views);
    while i > 0
        invariant
            i <= entries.len(),
            wanted@ == name@,
            views == entry_views(entries@),
            position(views, name@) == position(views.take(i as int), name@),
        decreases i,
    {
        assert(views.take(i as int).drop_last() =~= views.take(i - 1));
        if entries[i - 1].schema.name == wanted {
            return Some(i - 1);
        }
        i = i - 1;
    }
    None
}

/// Immutable map of tool name to tool.
pub struct ToolRegistry<T> {
    tools: Vec<Entry<T>>,
}

impl<T> View for ToolRegistry<T> {
    type V = Seq<(ToolSchemaView, T)>;

    closed spec fn view(&self) -> Seq<(ToolSchemaView, T)> {
        entry_views(self.tools@)
    }
}

impl<T> ToolRegistry<T> {
    #[verifier::type_invariant]
    spec fn wf(self) -> bool {
        distinct_names(entry_views(self.tools@))
    }

    /// Starts building a registry.
    pub fn builder() -> (r: ToolRegistryBuilder<T>)
        ensures
            r@ == Seq::<(ToolSchemaView, T)>::empty(),
    {
        ToolRegistryBuilder::default()
    }

    /// Looks up a registered tool by its name. Returns `None` if no tool with
    /// that name was registered.
    pub fn get(&self, name: &str) -> (r: Option<&T>)
        ensures
            match r {
                Some(tool) => lookup(self@, name@) == Some(*tool),
                None => lookup(self@, name@) is None,
            },
    {
        match index_of(&self.tools, name) {
            Some(i) => Some(&self.tools[i].tool),
            None => None,
        }
    }

    /// The names of every registered tool, in the order in which they were first
    /// registered.
    pub fn names(&self) -> (r: Vec<String>)
        ensures
            string_views(r@) == names_of(self@),
            distinct_names(self@),
    {
        proof {
            use_type_invariant(self);
        }
        let mut out: Vec<String> = Vec::new();
        let mut i: usize = 0;
        while i < self.tools.len()
            invariant
                i <= self.tools.len(),
                out.len() == i,
                forall|j: int| 0 <= j < i ==> (#[trigger] out@[j])@ == self.tools@[j].schema.name@,
            decreases self.tools.len() - i,
        {
            out.push(self.tools[i].schema.name.clone());
            i = i + 1;
        }
        assert(string_views(out@) =~= names_of(self@));
        out
    }

    /// The descriptions of every registered tool, to send to the model each
    /// turn, in the order in which their names were first registered.
    pub fn to_schemas(&self) -> (r: Vec<ToolSchema>)
        ensures
            schema_views(r@) == schemas_of(self@),
            distinct_names(self@),
    {
        proof {
            use_type_invariant(self);
        }
        let mut out: Vec<ToolSchema> = Vec::new();
        let mut i: usize = 0;
        while i < self.tools.len()
            invariant
                i <= self.tools.len(),
                out.len() == i,
                forall|j: int| 0 <= j < i ==> (#[trigger] out@[j])@ == self.tools@[j].schema@,
            decreases self.tools.len() - i,
        {
            out.push(self.tools[i].schema.clone());
            i = i + 1;
        }
        assert(schema_views(out@) =~= schemas_of(self@));
        out
    }
}

impl<T> Default for ToolRegistry<T> {
    fn default() -> (r: Self)
        ensures
            r@ == Seq::<(ToolSchemaView, T)>::empty(),
    {
        let r = ToolRegistry { tools: Vec::new() };
        assert(r@ =~= Seq::empty());
        r
    }
}

impl<T: Clone> Clone for ToolRegistry<T> {
    fn clone(&self) -> (r: Self)
        ensures
            schemas_of(r@) == schemas_of(self@),
            forall|i: int| 0 <= i < self@.len() ==> cloned(self@[i].1, (#[trigger] r@[i]).1),
    {
        proof {
            use_type_invariant(self);
        }
        let mut tools: Vec<Entry<T>> = Vec::new();
        let mut i: usize = 0;
        while i < self.tools.len()
            invariant
                i <= self.tools.len(),
                tools.len() == i,
                forall|j: int|
                    0 <= j < i ==> {
                        &&& (#[trigger] tools@[j]).schema@ == self.tools@[j].schema@
                        &&& cloned(self.tools@[j].tool, tools@[j].tool)
                    },
            decreases self.tools.len() - i,
        {
            tools.push(
                Entry { schema: self.tools[i].schema.clone(), tool: self.tools[i].tool.clone() },
            );
            i = i + 1;
        }
        let ghost after = entry_views(tools@);
        proof {
            assert(schemas_of(after) =~= schemas_of(self@));
            assert forall|a: int, b: int| 0 <= a < b < after.len() implies (
            #[trigger] after[a]).0.name != (#[trigger] after[b]).0.name by {
                assert(schemas_of(after)[a] == schemas_of(self@)[a]);
                assert(schemas_of(after)[b] == schemas_of(self@)[b]);
                assert(self@[a].0.name != self@[b].0.name);
            }
            assert forall|k: int| 0 <= k < self@.len() implies cloned(
                self@[k].1,
                (#[trigger] after[k]).1,
            ) by {
                assert(cloned(self.tools@[k].tool, tools@[k].tool));
            }
        }
        ToolRegistry { tools }
    }
}

/// Fluent builder for [`ToolRegistry`]. Use via [`ToolRegistry::builder`].
pub struct ToolRegistryBuilder<T> {
    tools: Vec<Entry<T>>,
}

impl<T> View for ToolRegistryBuilder<T> {
    type V = Seq<(ToolSchemaView, T)>;

    closed spec fn view(&self) -> Seq<(ToolSchemaView, T)> {
        entry_views(self.tools@)
    }
}

impl<T> ToolRegistryBuilder<T> {
    #[verifier::type_invariant]
    spec fn wf(self) -> bool {
        distinct_names(entry_views(self.tools@))
    }

    /// Registers a tool under the name in its schema. Later registrations with
    /// the same name overwrite earlier ones.
    #[must_use]
    pub fn add(self, schema: ToolSchema, tool: T) -> (r: Self)
        ensures
            r@ == registered(self@, schema@, tool),
            distinct_names(r@),
    {
        proof {
            use_type_invariant(&self);
            lemma_registered_distinct(self@, schema@, tool);
            lemma_position(self@, schema.name@);
        }
        let ghost after = registered(self@, schema@, tool);
        let mut tools = self.tools;
        match index_of(&tools, schema.name.as_str()) {
            Some(i) => tools.set(i, Entry { schema, tool }),
            None => tools.push(Entry { schema, tool }),
        }
        assert(entry_views(tools@) =~= after);
        ToolRegistryBuilder { tools }
    }

    /// Freezes the builder into an immutable [`ToolRegistry`].
    pub fn build(self) -> (r: ToolRegistry<T>)
        ensures
            r@ == self@,
            distinct_names(r@),
    {
        proof {
            use_type_invariant(&self);
        }
        ToolRegistry { tools: self.tools }
    }
}

impl<T> Default for ToolRegistryBuilder<T> {
    fn default() -> (r: Self)
        ensures
            r@ == Seq::<(ToolSchemaView, T)>::empty(),
    {
        let r = ToolRegistryBuilder { tools: Vec::new() };
        assert(r@ =~= Seq::empty());
        r
    }
}

/// Every registered tool is found under its name, and a name under which none
/// was registered finds nothing.
pub proof fn law_lookup_finds_by_name<T>(
    tools: Seq<(ToolSchemaView, T)>,
    i: int,
    name: Seq<char>,
)
    requires
        distinct_names(tools),
        0 <= i < tools.len(),
    ensures
        lookup(tools, tools[i].0.name) == Some(tools[i].1),
        (forall|j: int| 0 <= j < tools.len() ==> (#[trigger] tools[j]).0.name != name) ==> lookup(
            tools,
            name,
        ) is None,
{
    lemma_position_is_unique(tools, i);
    lemma_position(tools, name);
}

/// A registration puts in just its own tool, with the schema as it was given,
/// and leaves every other tool and schema where and as it is. The index is that
/// of the tool that was put in.
pub proof fn law_registration_changes_one_entry<T>(
    tools: Seq<(ToolSchemaView, T)>,
    schema: ToolSchemaView,
    tool: T,
) -> (at: int)
    ensures
        0 <= at < registered(tools, schema, tool).len(),
        registered(tools, schema, tool)[at] == (schema, tool),
        forall|j: int|
            0 <= j < tools.len() && j != at ==> registered(tools, schema, tool)[j] == (
            #[trigger] tools[j]),
        at < tools.len() ==> tools[at].0.name == schema.name && registered(
            tools,
            schema,
            tool,
        ).len() == tools.len(),
        at >= tools.len() ==> registered(tools, schema, tool).len() == tools.len() + 1
            && forall|j: int|
            0 <= j < tools.len() ==> (#[trigger] tools[j]).0.name != schema.name,
{
    lemma_position(tools, schema.name);
    match position(tools, schema.name) {
        Some(i) => i,
        None => tools.len() as int,
    }
}

/// The lists of schemas and of names show every tool, in order.
pub proof fn law_lists_show_every_tool<T>(tools: Seq<(ToolSchemaView, T)>, i: int)
    requires
        0 <= i < tools.len(),
    ensures
        schemas_of(tools).len() == tools.len(),
        schemas_of(tools)[i] == tools[i].0,
        names_of(tools).len() == tools.len(),
        names_of(tools)[i] == tools[i].0.name,
{
}

/// A view shows every entry with its schema and its handle, in order.
proof fn law_view_shows_every_entry<T>(entries: Seq<Entry<T>>, i: int)
    requires
        0 <= i < entries.len(),
    ensures
        entry_views(entries).len() == entries.len(),
        entry_views(entries)[i].0 == entries[i].schema@,
        entry_views(entries)[i].1 == entries[i].tool,
{
}

} // verus!
