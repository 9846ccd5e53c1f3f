//! The executor's view of a graph, provider-pluggable. Implementations:
//! [`MemoryGraph`], [`EmptyGraph`] and the overlay of pending writes.

use vstd::prelude::*;
use vstd::string::*;

use crate::ast::Direction;
use crate::exec::value::{
    self, EntityId, EntityIdView, NodeValue, NodeValueView, RelValue, RelValueView, Value,
    ValueView,
};
use crate::text;

verus! {

/// What a graph holds, as far as queries can see it.
pub struct GraphView {
    /// Every node, in a stable order.
    pub nodes: Seq<NodeValueView>,
    /// The relationships incident to a node in a direction, of the given types
    /// (all where there are none), each with its neighbour.
    pub expand: spec_fn(EntityIdView, Direction, Seq<Seq<char>>) -> Seq<
        (RelValueView, NodeValueView),
    >,
    /// A node by its identity.
    pub node: spec_fn(EntityIdView) -> Option<NodeValueView>,
}

/// Whether a node carries every one of `labels`.
pub open spec fn carries(node: NodeValueView, labels: Seq<Seq<char>>) -> bool {
    forall|i: int| 0 <= i < labels.len() ==> node.labels.contains(#[trigger] labels[i])
}

/// Those of the first `n` nodes that carry every one of `labels`.
pub open spec fn labelled(
    nodes: Seq<NodeValueView>,
    labels: Seq<Seq<char>>,
    n: nat,
) -> Seq<NodeValueView>
    decreases n,
{
    if n == 0 || n > nodes.len() {
        seq![]
    } else {
        let before = labelled(nodes, labels, (n - 1) as nat);
        if carries(nodes[n - 1], labels) {
            before.push(nodes[n - 1])
        } else {
            before
        }
    }
}

/// Relationships with their neighbours.
pub open spec fn steps_view(v: Seq<(RelValue, NodeValue)>) -> Seq<(RelValueView, NodeValueView)> {
    Seq::new(v.len(), |i: int| (v[i].0@, v[i].1@))
}

/// Whether `node` carries every one of `labels`.
pub(crate) fn carries_all(node: &NodeValue, labels: &Vec<String>) -> (r: bool)
    ensures
        r == carries(node@, text::strings_view(labels@)),
{
    let ghost wanted = text::strings_view(labels@);
    let mut i: usize = 0;
    while i < labels.len()
        invariant
            i <= labels.len(),
            wanted == text::strings_view(labels@),
            forall|k: int| 0 <= k < i ==> node@.labels.contains(#[trigger] wanted[k]),
        decreases labels.len() - i,
    {
        if !text::strings_contain(&node.labels, labels[i].as_str()) {
            assert(!node@.labels.contains(wanted[i as int]));
            return false;
        }
        i += 1;
    }
    true
}

/// Read access to one graph state.
pub trait GraphSource {
    /// What the graph holds.
    open spec fn graph(&self) -> GraphView {
        arbitrary()
    }

    /// Every node, in a stable order.
    fn all_nodes(&self) -> (r: Vec<NodeValue>)
        ensures
            value::node_values_view(r@) == self.graph().nodes,
    ;

    /// Nodes carrying every one of `labels` (empty set = all nodes).
    fn nodes_by_labels(&self, labels: &Vec<String>) -> (r: Vec<NodeValue>)
        ensures
            value::node_values_view(r@) == labelled(
                self.graph().nodes,
                text::strings_view(labels@),
                self.graph().nodes.len(),
            ),
    {
        let nodes = self.all_nodes();
        let ghost all = self.graph().nodes;
        let ghost wanted = text::strings_view(labels@);
        let mut out: Vec<NodeValue> = Vec::new();
        let mut i: usize = 0;
        proof {
            assert(value::node_values_view(out@) =~= labelled(all, wanted, 0));
        }
        while i < nodes.len()
            invariant
                i <= nodes.len(),
                all == value::node_values_view(nodes@),
                wanted == text::strings_view(labels@),
                value::node_values_view(out@) == labelled(all, wanted, i as nat),
            decreases nodes.len() - i,
        {
            assert(all[i as int] == nodes@[i as int]@);
            if carries_all(&nodes[i], labels) {
                let node = nodes[i].dup();
                proof {
                    assert(value::node_values_view(out@.push(node)) =~= value::node_values_view(out@).push(
                        node@,
                    ));
                }
                out.push(node);
            }
            i += 1;
        }
        out
    }

    /// Nodes an equality on the declared index `index_name` selects for
    /// `value`. `None` means this source has no such index, so the caller
    /// falls back to a label scan; `Some` is a candidate superset, nodes of
    /// this graph, that the caller still filters. Indexes are null/NaN-blind,
    /// so a null or NaN `value` selects nothing. The default has no indexes.
    fn nodes_by_index(&self, index_name: &str, value: &Value) -> (r: Option<Vec<NodeValue>>)
        ensures
            r matches Some(found) ==> forall|i: int|
                0 <= i < found@.len() ==> self.graph().nodes.contains((#[trigger] found@[i])@),
    {
        None
    }

    /// Relationships incident to `node` in `direction`, filtered to `types`
    /// when non-empty. Each result is (relationship, neighbour).
    fn expand(&self, node: &EntityId, direction: Direction, types: &Vec<String>) -> (r: Vec<
        (RelValue, NodeValue),
    >)
        ensures
            steps_view(r@) == (self.graph().expand)(node@, direction, text::strings_view(types@)),
    ;

    /// A node by id (path/pattern re-anchoring).
    fn node(&self, id: &EntityId) -> (r: Option<NodeValue>)
        ensures
            (self.graph().node)(id@) == match r {
                Some(n) => Some(n@),
                None => None,
            },
    ;
}

/// A query's net effect on a graph.
#[derive(Debug)]
pub struct WriteChanges {
    pub upserted_nodes: Vec<NodeValue>,
    pub upserted_rels: Vec<RelValue>,
    pub deleted_nodes: Vec<EntityId>,
    pub deleted_rels: Vec<RelValue>,
}

/// The value that a [`WriteChanges`] stands for.
pub struct WriteChangesView {
    pub upserted_nodes: Seq<NodeValueView>,
    pub upserted_rels: Seq<RelValueView>,
    pub deleted_nodes: Seq<EntityIdView>,
    pub deleted_rels: Seq<RelValueView>,
}

/// A simple in-memory property graph.
#[derive(Debug)]
pub struct MemoryGraph {
    pub nodes: Vec<NodeValue>,
    pub rels: Vec<RelValue>,
    /// Monotonic source of stable ids for elements folded in by
    /// [`MemoryGraph::apply`]; never reused, so successive applies cannot
    /// collide.
    pub next_id: u64,
}

/// The value that a [`MemoryGraph`] stands for.
pub struct MemoryGraphView {
    pub nodes: Seq<NodeValueView>,
    pub rels: Seq<RelValueView>,
    pub next_id: u64,
}

impl WriteChanges {
    pub open spec fn view(&self) -> WriteChangesView
    {
        WriteChangesView {
            upserted_nodes: value::node_values_view(self.upserted_nodes@),
            upserted_rels: value::rel_values_view(self.upserted_rels@),
            deleted_nodes: entity_ids_view(self.deleted_nodes@),
            deleted_rels: value::rel_values_view(self.deleted_rels@),
        }
    }
}

impl MemoryGraph {
    pub open spec fn view(&self) -> MemoryGraphView
    {
        MemoryGraphView {
            nodes: value::node_values_view(self.nodes@),
            rels: value::rel_values_view(self.rels@),
            next_id: self.next_id,
        }
    }
}

pub open spec fn entity_ids_view(v: Seq<EntityId>) -> Seq<EntityIdView>
{
    Seq::new(v.len(), |i: int| v[i]@)
}

// --- Graphs in memory --------------------------------------------------------------------------

/// The first of `nodes` from `i` on with the identity `id`.
pub open spec fn find_node(nodes: Seq<NodeValueView>, id: EntityIdView, i: int) -> Option<
    NodeValueView,
>
    decreases nodes.len() - i,
{
    if i < 0 || i >= nodes.len() {
        None
    } else if nodes[i].id == id {
        Some(nodes[i])
    } else {
        find_node(nodes, id, i + 1)
    }
}

/// The other end of a relationship seen from `node` in `direction`, if it runs
/// that way.
pub open spec fn other_end(rel: RelValueView, node: EntityIdView, direction: Direction) -> Option<
    EntityIdView,
> {
    match direction {
        Direction::Out => if rel.start == node {
            Some(rel.end)
        } else {
            None
        },
        Direction::In => if rel.end == node {
            Some(rel.start)
        } else {
            None
        },
        Direction::Undirected => if rel.start == node {
            Some(rel.end)
        } else if rel.end == node {
            Some(rel.start)
        } else {
            None
        },
    }
}

/// Whether a relationship is of one of `types`, or there are none.
pub open spec fn of_types(rel: RelValueView, types: Seq<Seq<char>>) -> bool {
    types.len() == 0 || types.contains(rel.rel_type)
}

/// The expansion of `node` along the first `n` of `rels`; a relationship whose
/// other end is no node of the graph leads nowhere.
pub open spec fn expanded(
    find: spec_fn(EntityIdView) -> Option<NodeValueView>,
    rels: Seq<RelValueView>,
    node: EntityIdView,
    direction: Direction,
    types: Seq<Seq<char>>,
    n: nat,
) -> Seq<(RelValueView, NodeValueView)>
    decreases n,
{
    if n == 0 || n > rels.len() {
        seq![]
    } else {
        let before = expanded(find, rels, node, direction, types, (n - 1) as nat);
        let rel = rels[n - 1];
        if !of_types(rel, types) {
            before
        } else {
            match other_end(rel, node, direction) {
                None => before,
                Some(id) => match find(id) {
                    None => before,
                    Some(neighbour) => before.push((rel, neighbour)),
                },
            }
        }
    }
}

pub(crate) fn end_seen<'a>(rel: &'a RelValue, node: &EntityId, direction: Direction) -> (r: Option<
    &'a EntityId,
>)
    ensures
        other_end(rel@, node@, direction) == match r {
            Some(id) => Some(id@),
            None => None,
        },
{
    match direction {
        Direction::Out => if rel.start.same(node) {
            Some(&rel.end)
        } else {
            None
        },
        Direction::In => if rel.end.same(node) {
            Some(&rel.start)
        } else {
            None
        },
        Direction::Undirected => if rel.start.same(node) {
            Some(&rel.end)
        } else if rel.end.same(node) {
            Some(&rel.start)
        } else {
            None
        },
    }
}

pub(crate) fn has_type(rel: &RelValue, types: &Vec<String>) -> (r: bool)
    ensures
        r == of_types(rel@, text::strings_view(types@)),
{
    types.len() == 0 || text::strings_contain(types, rel.rel_type.as_str())
}

pub(crate) fn search_node<'a>(nodes: &'a Vec<NodeValue>, id: &EntityId) -> (r: Option<
    &'a NodeValue,
>)
    ensures
        find_node(value::node_values_view(nodes@), id@, 0) == match r {
            Some(n) => Some(n@),
            None => None,
        },
{
    let mut i: usize = 0;
    while i < nodes.len()
        invariant
            i <= nodes.len(),
            find_node(value::node_values_view(nodes@), id@, 0) == find_node(
                value::node_values_view(nodes@),
                id@,
                i as int,
            ),
        decreases nodes.len() - i,
    {
        assert(value::node_values_view(nodes@)[i as int] == nodes@[i as int]@);
        if nodes[i].id.same(id) {
            return Some(&nodes[i]);
        }
        i += 1;
    }
    None
}

impl MemoryGraphView {
    /// What queries see of the graph.
    pub open spec fn graph(self) -> GraphView {
        let find = |id: EntityIdView| find_node(self.nodes, id, 0);
        GraphView {
            nodes: self.nodes,
            expand: |node: EntityIdView, direction: Direction, types: Seq<Seq<char>>|
                expanded(find, self.rels, node, direction, types, self.rels.len()),
            node: find,
        }
    }
}

impl GraphSource for MemoryGraph {
    open spec fn graph(&self) -> GraphView {
        self@.graph()
    }

    fn all_nodes(&self) -> Vec<NodeValue> {
        value::dup_node_values(&self.nodes)
    }

    fn expand(&self, node: &EntityId, direction: Direction, types: &Vec<String>) -> Vec<
        (RelValue, NodeValue),
    > {
        let ghost rels = self@.rels;
        let ghost find = |id: EntityIdView| find_node(self@.nodes, id, 0);
        let ghost wanted = text::strings_view(types@);
        let mut out: Vec<(RelValue, NodeValue)> = Vec::new();
        let mut i: usize = 0;
        proof {
            assert(steps_view(out@) =~= expanded(find, rels, node@, direction, wanted, 0));
        }
        while i < self.rels.len()
            invariant
                i <= self.rels.len(),
                rels == self@.rels,
                wanted == text::strings_view(types@),
                find == (|id: EntityIdView| find_node(self@.nodes, id, 0)),
                steps_view(out@) == expanded(find, rels, node@, direction, wanted, i as nat),
            decreases self.rels.len() - i,
        {
            let rel = &self.rels[i];
            assert(rels[i as int] == rel@);
            if has_type(rel, types) {
                if let Some(id) = end_seen(rel, node, direction) {
                    if let Some(neighbour) = search_node(&self.nodes, id) {
                        let step = (rel.dup(), neighbour.dup());
                        proof {
                            assert(steps_view(out@.push(step)) =~= steps_view(out@).push(
                                (step.0@, step.1@),
                            ));
                        }
                        out.push(step);
                    }
                }
            }
            i += 1;
        }
        out
    }

    fn node(&self, id: &EntityId) -> Option<NodeValue> {
        match search_node(&self.nodes, id) {
            Some(n) => Some(n.dup()),
            None => None,
        }
    }
}

/// The empty graph.
pub struct EmptyGraph;

impl GraphSource for EmptyGraph {
    open spec fn graph(&self) -> GraphView {
        GraphView {
            nodes: seq![],
            expand: |node: EntityIdView, direction: Direction, types: Seq<Seq<char>>| seq![],
            node: |id: EntityIdView| None,
        }
    }

    fn all_nodes(&self) -> Vec<NodeValue> {
        let out: Vec<NodeValue> = Vec::new();
        assert(value::node_values_view(out@) =~= seq![]);
        out
    }

    fn expand(&self, node: &EntityId, direction: Direction, types: &Vec<String>) -> Vec<
        (RelValue, NodeValue),
    > {
        let out: Vec<(RelValue, NodeValue)> = Vec::new();
        assert(steps_view(out@) =~= seq![]);
        out
    }

    fn node(&self, id: &EntityId) -> Option<NodeValue> {
        None
    }
}

// --- Procedures -----------------------------------------------------------------------------------

/// Rows of values.
pub open spec fn value_rows_view(v: Seq<Vec<Value>>) -> Seq<Seq<ValueView>> {
    Seq::new(v.len(), |i: int| value::values_view(v[i]@))
}

/// Runs `CALL acetone.*` procedures. The executor knows the procedure
/// catalogue (arity, yield columns) but not how to compute the results: those
/// need a repository (history, diff, blame, conflicts). Callers without one use
/// [`NoProcedures`].
pub trait ProcedureProvider {
    /// What a call comes to: its rows, or a message.
    open spec fn outcome(&self, name: Seq<char>, args: Seq<ValueView>) -> Result<
        Seq<Seq<ValueView>>,
        Seq<char>,
    > {
        arbitrary()
    }

    /// Run procedure `name` (already existence- and arity-checked by the
    /// binder) with evaluated `args`. Returns one row per result, each a full
    /// tuple aligned to the procedure's declared yield columns (in declaration
    /// order). `Err(message)` for a bad argument or a procedure this provider
    /// cannot serve.
    ///
    /// The executor binds columns by position; a short tuple yields nulls for
    /// the columns it lacks, and what a long one holds beyond them is not
    /// read.
    fn call(&self, name: &str, args: &Vec<Value>) -> (r: Result<Vec<Vec<Value>>, String>)
        ensures
            self.outcome(name@, value::values_view(args@)) == match r {
                Ok(rows) => Ok::<_, Seq<char>>(value_rows_view(rows@)),
                Err(message) => Err(message@),
            },
    ;
}

/// A provider that serves no procedures: every `CALL` is an error.
pub struct NoProcedures;

impl ProcedureProvider for NoProcedures {
    open spec fn outcome(&self, name: Seq<char>, args: Seq<ValueView>) -> Result<
        Seq<Seq<ValueView>>,
        Seq<char>,
    > {
        Err(
            "procedure "@ + name
                + " needs a repository-backed provider; this query has none"@,
        )
    }

    fn call(&self, name: &str, args: &Vec<Value>) -> Result<Vec<Vec<Value>>, String> {
        Err(
            text::join3(
                "procedure ",
                name,
                " needs a repository-backed provider; this query has none",
            ),
        )
    }
}

// --- Versions -------------------------------------------------------------------------------------

/// Resolves the graph a clause queries: the base (checked-out) version, or the
/// version at a refspec for a clause-group `AT`. Distinct `MATCH ... AT <ref>`
/// clauses in one query may address distinct versions, so `at` yields an owned
/// source that is held for the clause's duration.
pub trait VersionResolver {
    type Base: GraphSource;

    type Version: GraphSource;

    /// What the base version holds.
    open spec fn base_graph(&self) -> GraphView {
        arbitrary()
    }

    /// What the version at a refspec holds, or why there is none.
    open spec fn graph_at(&self, refspec: Seq<char>) -> Result<GraphView, Seq<char>> {
        arbitrary()
    }

    /// The base version: the graph a `MATCH` with no `AT` queries.
    fn base(&self) -> (r: &Self::Base)
        ensures
            r.graph() == self.base_graph(),
    ;

    /// The graph at `refspec`. Errs (message only) if the ref cannot be
    /// resolved or this resolver has no repository behind it.
    fn at(&self, refspec: &str) -> (r: Result<Self::Version, String>)
        ensures
            self.graph_at(refspec@) == match r {
                Ok(version) => Ok::<_, Seq<char>>(version.graph()),
                Err(message) => Err(message@),
            },
    ;
}

/// Wraps a single graph as a resolver: `AT` is unsupported (no repository
/// behind it).
pub struct SingleVersion<'a, G: GraphSource> {
    graph: &'a G,
}

impl<'a, G: GraphSource> SingleVersion<'a, G> {
    pub closed spec fn only(&self) -> GraphView {
        self.graph.graph()
    }

    pub fn new(graph: &'a G) -> (r: Self)
        ensures
            r.only() == graph.graph(),
    {
        SingleVersion { graph }
    }
}

impl<'a, G: GraphSource> VersionResolver for SingleVersion<'a, G> {
    type Base = G;

    type Version = EmptyGraph;

    open spec fn base_graph(&self) -> GraphView {
        self.only()
    }

    open spec fn graph_at(&self, refspec: Seq<char>) -> Result<GraphView, Seq<char>> {
        Err(
            "AT '"@ + refspec
                + "' needs a repository-backed resolver; this query has a single fixed graph"@,
        )
    }

    fn base(&self) -> &G {
        self.graph
    }

    fn at(&self, refspec: &str) -> Result<EmptyGraph, String> {
        Err(
            text::join3(
                "AT '",
                refspec,
                "' needs a repository-backed resolver; this query has a single fixed graph",
            ),
        )
    }
}

} // verus!
