//! What the ways of a graph are, and what patterns, `UNWIND`, `DELETE` and `MERGE` make
//! of them.

use vstd::prelude::*;

use crate::ast::Direction;
use crate::bind::bound::{
    BoundExprView, BoundNodePatternView, BoundPathPatternView, BoundRelPatternView,
    BoundSetItemView, VarId,
};
use crate::exec::adapter::{self, SnapshotView};
use crate::exec::change;
use crate::exec::create::{self, Given};
use crate::exec::delete::{self, Doomed};
use crate::exec::expression_laws;
use crate::exec::fault::ExecErrorView;
use crate::exec::feed;
use crate::exec::id_index;
use crate::exec::identity_laws;
use crate::exec::merge;
use crate::exec::overlay::OverlayView;
use crate::exec::pattern_laws::{self, Way};
use crate::exec::row;
use crate::exec::semantics::{self, Env, Spent};
use crate::exec::source::{self, GraphView};
use crate::exec::value::{EntityIdView, NodeValueView, PropertyMapView, RelValueView, ValueView};
use crate::exec::walk::{self, Matched};
use crate::span::Span;

verus! {

// --- Ways -------------------------------------------------------------------------------------------

/// Whether a relationship runs between two nodes in a direction, seen from the first.
pub open spec fn runs(
    rel: RelValueView,
    from: EntityIdView,
    to: EntityIdView,
    direction: Direction,
) -> bool {
    match direction {
        Direction::Out => rel.start == from && rel.end == to,
        Direction::In => rel.end == from && rel.start == to,
        Direction::Undirected => (rel.start == from && rel.end == to) || (rel.end == from
            && rel.start == to),
    }
}

/// Whether a relationship of a list leads from a node to another in a direction, and is
/// of one of the types where there are any.
pub open spec fn is_way(
    find: spec_fn(EntityIdView) -> Option<NodeValueView>,
    rels: Seq<RelValueView>,
    node: EntityIdView,
    direction: Direction,
    types: Seq<Seq<char>>,
    way: Way,
) -> bool {
    &&& rels.contains(way.0)
    &&& types.len() == 0 || types.contains(way.0.rel_type)
    &&& exists|to: EntityIdView| #[trigger] runs(way.0, node, to, direction) && find(to) == Some(
        way.1,
    )
}

proof fn lemma_expanded(
    find: spec_fn(EntityIdView) -> Option<NodeValueView>,
    rels: Seq<RelValueView>,
    node: EntityIdView,
    direction: Direction,
    types: Seq<Seq<char>>,
    n: nat,
)
    requires
        n <= rels.len(),
    ensures
        ({
            let ways = source::expanded(find, rels, node, direction, types, n);
            &&& forall|i: int|
                0 <= i < ways.len() ==> is_way(
                    find,
                    rels,
                    node,
                    direction,
                    types,
                    #[trigger] ways[i],
                )
            &&& forall|k: int, to: EntityIdView|
                0 <= k < n && (types.len() == 0 || types.contains(rels[k].rel_type))
                    && #[trigger] runs(rels[k], node, to, direction) && find(to) is Some
                    ==> ways.contains((rels[k], find(to)->0))
        }),
    decreases n,
{
    if n > 0 {
        lemma_expanded(find, rels, node, direction, types, (n - 1) as nat);
        let before = source::expanded(find, rels, node, direction, types, (n - 1) as nat);
        let ways = source::expanded(find, rels, node, direction, types, n);
        let rel = rels[n - 1];
        assert forall|i: int| 0 <= i < ways.len() implies is_way(
            find,
            rels,
            node,
            direction,
            types,
            #[trigger] ways[i],
        ) by {
            if i < before.len() {
                assert(ways[i] == before[i]);
            } else {
                assert(rels[n - 1] == rel);
                let to = source::other_end(rel, node, direction)->0;
                assert(ways[i].0 == rel);
                assert(rels.contains(rel));
                assert(runs(rel, node, to, direction) && find(to) == Some(ways[i].1));
                assert(runs(ways[i].0, node, to, direction));
            }
        }
        assert forall|k: int, to: EntityIdView|
            0 <= k < n && (types.len() == 0 || types.contains(rels[k].rel_type))
                && #[trigger] runs(rels[k], node, to, direction) && find(
                to,
            ) is Some implies ways.contains((rels[k], find(to)->0)) by {
            let way = (rels[k], find(to)->0);
            if k < n - 1 {
                assert(before.contains(way));
                assert(ways[before.index_of(way)] == way);
            } else {
                assert(source::other_end(rel, node, direction) == Some(to));
                assert(ways[before.len() as int] == way);
            }
        }
    }
}

/// The ways of a node over relationships are those that run from it in the direction, to
/// a node of the graph, and are of one of the types; none is left out.
pub proof fn every_way_is_listed(
    find: spec_fn(EntityIdView) -> Option<NodeValueView>,
    rels: Seq<RelValueView>,
    node: EntityIdView,
    direction: Direction,
    types: Seq<Seq<char>>,
    way: Way,
)
    ensures
        source::expanded(find, rels, node, direction, types, rels.len()).contains(way) <==> is_way(
            find,
            rels,
            node,
            direction,
            types,
            way,
        ),
{
    lemma_expanded(find, rels, node, direction, types, rels.len());
    let ways = source::expanded(find, rels, node, direction, types, rels.len());
    if ways.contains(way) {
        assert(is_way(find, rels, node, direction, types, ways[ways.index_of(way)]));
    }
    if is_way(find, rels, node, direction, types, way) {
        let to = choose|to: EntityIdView| #[trigger]
            runs(way.0, node, to, direction) && find(to) == Some(way.1);
        let k = rels.index_of(way.0);
        assert(runs(rels[k], node, to, direction));
    }
}

proof fn lemma_live_pushed(o: OverlayView, later: OverlayView, n: nat)
    requires
        n <= o.created_rels.len(),
        o.created_rels.is_prefix_of(later.created_rels),
        later.deleted_rels == o.deleted_rels,
    ensures
        later.live_created_rels(n) == o.live_created_rels(n),
    decreases n,
{
    if n > 0 {
        lemma_live_pushed(o, later, (n - 1) as nat);
        assert(o.created_rels[n - 1] == later.created_rels[n - 1]);
    }
}

/// A created relationship leads from its start to its end, and back against its
/// direction.
pub proof fn a_created_relationship_leads_both_ways(
    o: OverlayView,
    start: EntityIdView,
    rel_type: Seq<char>,
    end: EntityIdView,
    properties: PropertyMapView,
)
    requires
        identity_laws::keeps_identities(o),
    ensures
        ({
            let (later, rel) = o.with_rel(start, rel_type, end, properties);
            let out = (later.graph().expand)(start, Direction::Out, seq![rel_type]);
            let back = (later.graph().expand)(end, Direction::In, seq![rel_type]);
            &&& o.find(end) matches Some(n) ==> out.contains((rel, n))
            &&& o.find(start) matches Some(n) ==> back.contains((rel, n))
        }),
{
    let (later, rel) = o.with_rel(start, rel_type, end, properties);
    let types = seq![rel_type];
    identity_laws::the_next_identity_is_new(o);
    let n = o.created_rels.len();
    assert(o.created_rels.is_prefix_of(later.created_rels));
    lemma_live_pushed(o, later, n);
    assert(later.created_rels[n as int] == rel);
    assert(!later.rel_is_gone(rel.id));
    let created = later.live_created_rels(later.created_rels.len());
    assert(created == o.live_created_rels(n).push(rel));
    assert(created[created.len() - 1] == rel);
    assert(types[0] == rel_type);
    let find = |id: EntityIdView| later.find(id);
    assert(later.find(end) == o.find(end));
    assert(later.find(start) == o.find(start));
    let ahead = source::expanded(find, created, start, Direction::Out, types, created.len());
    let behind = source::expanded(find, created, end, Direction::In, types, created.len());
    let out = later.ways(start, Direction::Out, types);
    let back = later.ways(end, Direction::In, types);
    if let Some(m) = o.find(end) {
        assert(runs(rel, start, end, Direction::Out) && find(end) == Some(m));
        every_way_is_listed(find, created, start, Direction::Out, types, (rel, m));
        let i = ahead.index_of((rel, m));
        assert(out[out.len() - ahead.len() + i] == (rel, m));
    }
    if let Some(m) = o.find(start) {
        assert(runs(rel, end, start, Direction::In) && find(start) == Some(m));
        every_way_is_listed(find, created, end, Direction::In, types, (rel, m));
        let i = behind.index_of((rel, m));
        assert(back[back.len() - behind.len() + i] == (rel, m));
    }
}

// --- Snapshots --------------------------------------------------------------------------------------

proof fn lemma_every_position(ids: Seq<EntityIdView>, n: nat, id: EntityIdView, k: int)
    requires
        0 <= k < n <= ids.len(),
        ids.len() <= usize::MAX,
        ids[k] == id,
    ensures
        id_index::positions_of(ids, n, id).contains(k as usize),
    decreases n,
{
    let all = id_index::positions_of(ids, n, id);
    let before = id_index::positions_of(ids, (n - 1) as nat, id);
    if k < n - 1 {
        lemma_every_position(ids, (n - 1) as nat, id, k);
        assert(all[before.index_of(k as usize)] == k as usize);
    } else {
        assert(all[before.len() as int] == k as usize);
    }
}

proof fn lemma_ways_at(
    s: SnapshotView,
    at: Seq<usize>,
    n: nat,
    node: EntityIdView,
    types: Seq<Seq<char>>,
    without: bool,
)
    requires
        n <= at.len(),
        forall|j: int| 0 <= j < at.len() ==> (#[trigger] at[j]) < s.rels.len(),
    ensures
        ({
            let ways = s.ways_at(at, n, node, types, without);
            &&& forall|i: int|
                0 <= i < ways.len() ==> exists|j: int|
                    0 <= j < n && s.incident(s.rels[#[trigger] at[j] as int], node, types) == Some(
                        #[trigger] ways[i],
                    )
            &&& forall|j: int|
                0 <= j < n && !(without && s.rels[#[trigger] at[j] as int].start == node) ==> (
                s.incident(s.rels[at[j] as int], node, types) matches Some(way) ==> ways.contains(
                    way,
                ))
        }),
    decreases n,
{
    if n > 0 {
        lemma_ways_at(s, at, (n - 1) as nat, node, types, without);
        let before = s.ways_at(at, (n - 1) as nat, node, types, without);
        let ways = s.ways_at(at, n, node, types, without);
        assert forall|i: int| 0 <= i < ways.len() implies exists|j: int|
            0 <= j < n && s.incident(s.rels[#[trigger] at[j] as int], node, types) == Some(
                #[trigger] ways[i],
            ) by {
            if i < before.len() {
                assert(ways[i] == before[i]);
                let j = choose|j: int|
                    0 <= j < n - 1 && s.incident(s.rels[#[trigger] at[j] as int], node, types)
                        == Some(before[i]);
                assert(0 <= j < n && s.incident(s.rels[at[j] as int], node, types) == Some(
                    ways[i],
                ));
            } else {
                assert(s.incident(s.rels[at[n - 1] as int], node, types) == Some(ways[i]));
            }
        }
        assert forall|j: int|
            0 <= j < n && !(without && s.rels[#[trigger] at[j] as int].start == node) implies (
        s.incident(s.rels[at[j] as int], node, types) matches Some(way) ==> ways.contains(way)) by {
            if let Some(way) = s.incident(s.rels[at[j] as int], node, types) {
                if j < n - 1 {
                    assert(before.contains(way));
                    assert(ways[before.index_of(way)] == way);
                } else {
                    assert(ways[before.len() as int] == way);
                }
            }
        }
    }
}

proof fn lemma_incident(
    s: SnapshotView,
    k: int,
    node: EntityIdView,
    types: Seq<Seq<char>>,
    direction: Direction,
    way: Way,
)
    requires
        0 <= k < s.rels.len(),
        s.incident(s.rels[k], node, types) == Some(way),
        direction == Direction::Out ==> s.rels[k].start == node,
        direction == Direction::In ==> s.rels[k].end == node,
    ensures
        is_way(|id: EntityIdView| s.find(id), s.rels, node, direction, types, way),
{
    let rel = s.rels[k];
    assert(s.rels.contains(rel));
    let to = source::other_end(rel, node, Direction::Undirected)->0;
    assert(runs(way.0, node, to, direction));
}

/// The ways of a snapshot are those of its relationships; none is left out.
pub proof fn a_snapshot_lists_every_way(
    s: SnapshotView,
    node: EntityIdView,
    direction: Direction,
    types: Seq<Seq<char>>,
    way: Way,
)
    requires
        s.rels.len() <= usize::MAX,
    ensures
        (s.graph().expand)(node, direction, types).contains(way) <==> is_way(
            |id: EntityIdView| s.find(id),
            s.rels,
            node,
            direction,
            types,
            way,
        ),
{
    let starts = adapter::starts_of(s.rels);
    let ends = adapter::ends_of(s.rels);
    let out_at = id_index::positions_of(starts, s.rels.len(), node);
    let in_at = id_index::positions_of(ends, s.rels.len(), node);
    id_index::lemma_positions(starts, s.rels.len(), node);
    id_index::lemma_positions(ends, s.rels.len(), node);
    lemma_ways_at(s, out_at, out_at.len(), node, types, false);
    lemma_ways_at(s, in_at, in_at.len(), node, types, false);
    lemma_ways_at(s, in_at, in_at.len(), node, types, true);
    let out = s.ways_out(node, types);
    let back = s.ways_in(node, types, false);
    let rest = s.ways_in(node, types, true);
    let all = (s.graph().expand)(node, direction, types);
    let find = |id: EntityIdView| s.find(id);
    if all.contains(way) {
        let i = all.index_of(way);
        if direction == Direction::Out || (direction == Direction::Undirected && i < out.len()) {
            assert(out[i] == way);
            let j = choose|j: int|
                0 <= j < out_at.len() && s.incident(
                    s.rels[#[trigger] out_at[j] as int],
                    node,
                    types,
                ) == Some(out[i]);
            assert(starts[out_at[j] as int] == node);
            lemma_incident(s, out_at[j] as int, node, types, direction, way);
        } else if direction == Direction::In {
            assert(back[i] == way);
            let j = choose|j: int|
                0 <= j < in_at.len() && s.incident(
                    s.rels[#[trigger] in_at[j] as int],
                    node,
                    types,
                ) == Some(back[i]);
            assert(ends[in_at[j] as int] == node);
            lemma_incident(s, in_at[j] as int, node, types, direction, way);
        } else {
            let h = i - out.len();
            assert(rest[h] == way);
            let j = choose|j: int|
                0 <= j < in_at.len() && s.incident(
                    s.rels[#[trigger] in_at[j] as int],
                    node,
                    types,
                ) == Some(rest[h]);
            assert(ends[in_at[j] as int] == node);
            lemma_incident(s, in_at[j] as int, node, types, direction, way);
        }
    }
    if is_way(find, s.rels, node, direction, types, way) {
        let to = choose|to: EntityIdView| #[trigger]
            runs(way.0, node, to, direction) && find(to) == Some(way.1);
        let k = s.rels.index_of(way.0);
        let rel = s.rels[k];
        assert(rel == way.0);
        assert(s.find(to) == Some(way.1));
        assert(s.incident(rel, node, types) == Some(way));
        if rel.start == node && direction != Direction::In {
            assert(starts[k] == node);
            lemma_every_position(starts, s.rels.len(), node, k);
            let j = out_at.index_of(k as usize);
            assert(out_at[j] == k as usize);
            assert(out.contains(way));
            assert(all[out.index_of(way)] == way);
        } else {
            assert(ends[k] == node);
            lemma_every_position(ends, s.rels.len(), node, k);
            let j = in_at.index_of(k as usize);
            assert(in_at[j] == k as usize);
            if direction == Direction::In {
                assert(back.contains(way));
                assert(all[back.index_of(way)] == way);
            } else {
                assert(rest.contains(way));
                assert(all[out.len() + rest.index_of(way)] == way);
            }
        }
    }
}

// --- Pattern predicates -----------------------------------------------------------------------------

/// Whether a way meets a step: it is one of the node before it, it is the relationship and
/// leads to the node that the row has for the variables of the step, and the node carries
/// the labels.
#[verifier::opaque]
pub open spec fn meets(
    step: (BoundRelPatternView, BoundNodePatternView),
    from: NodeValueView,
    way: Way,
    row: Map<u32, ValueView>,
    graph: GraphView,
) -> bool {
    &&& (graph.expand)(from.id, step.0.direction, step.0.types).contains(way)
    &&& step.0.var matches Some(v) ==> row.dom().contains(v.0) && (
    row[v.0] matches ValueView::Relationship(r) && r.id == way.0.id)
    &&& step.1.var matches Some(v) ==> row.dom().contains(v.0) && (row[v.0] matches ValueView::Node(
        n,
    ) && n.id == way.1.id)
    &&& forall|i: int|
        0 <= i < step.1.labels.len() ==> way.1.labels.contains(#[trigger] step.1.labels[i])
}

/// Whether the steps from `at` on can be walked from a node.
pub open spec fn can_walk(
    steps: Seq<(BoundRelPatternView, BoundNodePatternView)>,
    at: int,
    from: NodeValueView,
    row: Map<u32, ValueView>,
    graph: GraphView,
) -> bool
    decreases steps.len() - at,
{
    at < 0 || at >= steps.len() || exists|way: Way|
        #[trigger] meets(steps[at], from, way, row, graph) && can_walk(
            steps,
            at + 1,
            way.1,
            row,
            graph,
        )
}

proof fn lemma_fits(
    step: (BoundRelPatternView, BoundNodePatternView),
    from: NodeValueView,
    way: Way,
    row: Map<u32, ValueView>,
    graph: GraphView,
)
    requires
        (graph.expand)(from.id, step.0.direction, step.0.types).contains(way),
    ensures
        semantics::fits(row, step, way) <==> meets(step, from, way, row, graph),
{
    reveal(semantics::fits);
    reveal(meets);
}

proof fn lemma_probed(
    steps: Seq<(BoundRelPatternView, BoundNodePatternView)>,
    at: int,
    from: NodeValueView,
    row: Map<u32, ValueView>,
    graph: GraphView,
)
    requires
        0 <= at <= steps.len(),
        forall|k: int| 0 <= k < steps.len() ==> (#[trigger] steps[k]).0.var_length is None,
    ensures
        semantics::probed(steps, at, from, row, graph) == Ok::<bool, ExecErrorView>(
            can_walk(steps, at, from, row, graph),
        ),
    decreases steps.len() - at, 1int, 0int,
{
    semantics::lemma_probed(steps, at, from, row, graph);
    if at < steps.len() {
        let ways = (graph.expand)(from.id, steps[at].0.direction, steps[at].0.types);
        lemma_probed_any(steps, at, from, 0, row, graph);
        if can_walk(steps, at, from, row, graph) {
            let way = choose|way: Way| #[trigger]
                meets(steps[at], from, way, row, graph) && can_walk(
                    steps,
                    at + 1,
                    way.1,
                    row,
                    graph,
                );
            assert(ways.contains(way)) by {
                reveal(meets);
            }
            assert(ways[ways.index_of(way)] == way);
        }
    }
}

proof fn lemma_probed_any(
    steps: Seq<(BoundRelPatternView, BoundNodePatternView)>,
    at: int,
    from: NodeValueView,
    i: int,
    row: Map<u32, ValueView>,
    graph: GraphView,
)
    requires
        0 <= at < steps.len(),
        0 <= i <= (graph.expand)(from.id, steps[at].0.direction, steps[at].0.types).len(),
        forall|k: int| 0 <= k < steps.len() ==> (#[trigger] steps[k]).0.var_length is None,
    ensures
        ({
            let ways = (graph.expand)(from.id, steps[at].0.direction, steps[at].0.types);
            semantics::probed_any(steps, at, ways, i, row, graph) == Ok::<bool, ExecErrorView>(
                exists|j: int|
                    i <= j < ways.len() && meets(steps[at], from, #[trigger] ways[j], row, graph)
                        && can_walk(steps, at + 1, ways[j].1, row, graph),
            )
        }),
    decreases
            steps.len() - at,
            0int,
            (graph.expand)(from.id, steps[at].0.direction, steps[at].0.types).len() - i,
{
    let ways = (graph.expand)(from.id, steps[at].0.direction, steps[at].0.types);
    semantics::lemma_probed_any(steps, at, ways, i, row, graph);
    if i < ways.len() {
        assert(ways.contains(ways[i]));
        lemma_fits(steps[at], from, ways[i], row, graph);
        lemma_probed(steps, at + 1, ways[i].1, row, graph);
        lemma_probed_any(steps, at, from, i + 1, row, graph);
    }
}

proof fn lemma_starts(
    pattern: BoundPathPatternView,
    starts: Seq<NodeValueView>,
    i: int,
    row: Map<u32, ValueView>,
    graph: GraphView,
)
    requires
        0 <= i <= starts.len(),
        forall|k: int|
            0 <= k < pattern.steps.len() ==> (#[trigger] pattern.steps[k]).0.var_length is None,
    ensures
        semantics::probed_starts(pattern, starts, i, row, graph) == Ok::<bool, ExecErrorView>(
            exists|j: int|
                i <= j < starts.len() && source::carries(
                    #[trigger] starts[j],
                    pattern.start.labels,
                ) && can_walk(pattern.steps, 0, starts[j], row, graph),
        ),
    decreases starts.len() - i,
{
    if i < starts.len() {
        lemma_probed(pattern.steps, 0, starts[i], row, graph);
        lemma_starts(pattern, starts, i + 1, row, graph);
    }
}

/// Whether a pattern can start at a node: it is one of the graph, or the one that the row
/// has for the variable, and carries the labels.
pub open spec fn can_start(
    pattern: BoundPathPatternView,
    n: NodeValueView,
    row: Map<u32, ValueView>,
    graph: GraphView,
) -> bool {
    &&& forall|i: int|
        0 <= i < pattern.start.labels.len() ==> n.labels.contains(
            #[trigger] pattern.start.labels[i],
        )
    &&& match pattern.start.var {
        Some(v) => row.dom().contains(v.0) && row[v.0] == ValueView::Node(n),
        None => graph.nodes.contains(n),
    }
}

pub(crate) proof fn lemma_all_labelled(
    nodes: Seq<NodeValueView>,
    labels: Seq<Seq<char>>,
    n: nat,
    k: int,
)
    requires
        0 <= k < n <= nodes.len(),
        source::carries(nodes[k], labels),
    ensures
        source::labelled(nodes, labels, n).contains(nodes[k]),
    decreases n,
{
    let all = source::labelled(nodes, labels, n);
    let before = source::labelled(nodes, labels, (n - 1) as nat);
    if k < n - 1 {
        lemma_all_labelled(nodes, labels, (n - 1) as nat, k);
        assert(all[before.index_of(nodes[k])] == nodes[k]);
    } else {
        assert(all[before.len() as int] == nodes[k]);
    }
}

/// A pattern in a condition is true exactly where there is a walk through the graph that
/// meets it.
pub proof fn a_pattern_is_true_where_it_can_be_walked(
    pattern: BoundPathPatternView,
    row: Map<u32, ValueView>,
    graph: GraphView,
)
    requires
        forall|k: int|
            0 <= k < pattern.steps.len() ==> (#[trigger] pattern.steps[k]).0.var_length is None,
    ensures
        semantics::pattern_holds(pattern, row, graph) == Ok::<bool, ExecErrorView>(
            exists|n: NodeValueView| #[trigger]
                can_start(pattern, n, row, graph) && can_walk(pattern.steps, 0, n, row, graph),
        ),
{
    let labels = pattern.start.labels;
    match pattern.start.var {
        Some(v) => {
            if let ValueView::Node(n) = row::row_get(row, v) {
                let starts = seq![n];
                lemma_starts(pattern, starts, 0, row, graph);
                assert(starts[0] == n);
                assert(source::carries(n, labels) <==> can_start(pattern, n, row, graph));
            }
        },
        None => {
            let starts = source::labelled(graph.nodes, labels, graph.nodes.len());
            lemma_starts(pattern, starts, 0, row, graph);
            assert forall|j: int| 0 <= j < starts.len() implies graph.nodes.contains(
                #[trigger] starts[j],
            ) by {
                pattern_laws::lemma_labelled(graph.nodes, labels, graph.nodes.len(), j);
            }
            assert forall|n: NodeValueView| #[trigger]
                can_start(pattern, n, row, graph) implies starts.contains(n) by {
                let k = graph.nodes.index_of(n);
                lemma_all_labelled(graph.nodes, labels, graph.nodes.len(), k);
            }
            assert forall|j: int|
                0 <= j < starts.len() && source::carries(
                    #[trigger] starts[j],
                    labels,
                ) implies can_start(pattern, starts[j], row, graph) by {}
            assert forall|n: NodeValueView|
                can_start(pattern, n, row, graph) implies #[trigger] source::carries(n, labels) by {}
            if exists|n: NodeValueView| #[trigger]
                can_start(pattern, n, row, graph) && can_walk(pattern.steps, 0, n, row, graph) {
                let n = choose|n: NodeValueView| #[trigger]
                    can_start(pattern, n, row, graph) && can_walk(
                        pattern.steps,
                        0,
                        n,
                        row,
                        graph,
                    );
                assert(starts[starts.index_of(n)] == n);
                assert(source::carries(n, labels));
            }
        },
    }
}

// --- Unwind -----------------------------------------------------------------------------------------

/// `UNWIND` makes of a row one row for each element of the list, in order, with the
/// element under the alias and nothing else changed; null has no elements.
pub proof fn unwinding_makes_a_row_for_each_element(
    row: Map<u32, ValueView>,
    expr: BoundExprView,
    alias: VarId,
    span: Span,
    env: Env,
    spent: Spent,
    items: Seq<ValueView>,
    i: int,
    v: u32,
)
    ensures
        expression_laws::finding(expr, row, env, spent) == Ok::<_, ExecErrorView>(
            ValueView::List(items),
        ) ==> (feed::row_unwound(row, expr, alias, span, env, spent).result matches Ok(rows)
            && rows.len() == items.len() && (0 <= i < rows.len() ==> rows[i].dom().contains(alias.0)
            && rows[i][alias.0] == items[i] && (v != alias.0 ==> (rows[i].dom().contains(v)
            <==> row.dom().contains(v)) && (row.dom().contains(v) ==> rows[i][v] == row[v])))),
        expression_laws::finding(expr, row, env, spent) == Ok::<_, ExecErrorView>(ValueView::Null)
            ==> (feed::row_unwound(row, expr, alias, span, env, spent).result matches Ok(rows)
            && rows.len() == 0),
{
    reveal(feed::row_unwound);
    reveal(semantics::value_of);
    reveal(expression_laws::finding);
}

/// Rows one after the other.
pub open spec fn in_turn(parts: Seq<Seq<Map<u32, ValueView>>>, n: nat) -> Seq<Map<u32, ValueView>>
    decreases n,
{
    if n == 0 || n > parts.len() {
        seq![]
    } else {
        in_turn(parts, (n - 1) as nat) + parts[n - 1]
    }
}

proof fn lemma_in_turn(
    parts: Seq<Seq<Map<u32, ValueView>>>,
    more: Seq<Map<u32, ValueView>>,
    n: nat,
)
    requires
        n <= parts.len(),
    ensures
        in_turn(parts.push(more), n) == in_turn(parts, n),
    decreases n,
{
    if n > 0 {
        lemma_in_turn(parts, more, (n - 1) as nat);
        assert(parts.push(more)[n - 1] == parts[n - 1]);
    }
}

/// Whether parts are what `UNWIND` makes of rows, one after the other.
pub open spec fn unwind(
    rows: Seq<Map<u32, ValueView>>,
    parts: Seq<Seq<Map<u32, ValueView>>>,
    expr: BoundExprView,
    alias: VarId,
    span: Span,
    env: Env,
) -> bool {
    forall|i: int|
        0 <= i < parts.len() ==> can_unwind(rows[i], #[trigger] parts[i], expr, alias, span, env)
}

#[verifier::opaque]
pub open spec fn can_unwind(
    row: Map<u32, ValueView>,
    part: Seq<Map<u32, ValueView>>,
    expr: BoundExprView,
    alias: VarId,
    span: Span,
    env: Env,
) -> bool {
    exists|s: Spent|
        (#[trigger] feed::row_unwound(row, expr, alias, span, env, s)).result == Ok::<
            _,
            ExecErrorView,
        >(part)
}

proof fn lemma_unwound(
    rows: Seq<Map<u32, ValueView>>,
    i: int,
    expr: BoundExprView,
    alias: VarId,
    span: Span,
    env: Env,
    spent: Spent,
    parts: Seq<Seq<Map<u32, ValueView>>>,
) -> (all: Seq<Seq<Map<u32, ValueView>>>)
    requires
        0 <= i <= rows.len(),
        parts.len() == i,
        unwind(rows, parts, expr, alias, span, env),
    ensures
        feed::unwound_from(
            rows,
            i,
            expr,
            alias,
            span,
            env,
            spent,
            in_turn(parts, i as nat),
        ).result matches Ok(out) ==> all.len() == rows.len() && unwind(
            rows,
            all,
            expr,
            alias,
            span,
            env,
        ) && out == in_turn(all, rows.len()),
    decreases rows.len() - i,
{
    reveal(feed::unwound_from);
    if i < rows.len() {
        let r = feed::row_unwound(rows[i], expr, alias, span, env, spent);
        if let Ok(found) = r.result {
            let out = in_turn(parts, i as nat);
            let a = walk::appended_from(found, 0, out, r.spent);
            pattern_laws::lemma_appended(found, 0, out, r.spent);
            assert(found.skip(0) =~= found);
            let more = parts.push(found);
            lemma_in_turn(parts, found, i as nat);
            assert(in_turn(more, (i + 1) as nat) == out + found);
            assert(can_unwind(rows[i], found, expr, alias, span, env)) by {
                reveal(can_unwind);
            }
            assert forall|k: int| 0 <= k < more.len() implies can_unwind(
                rows[k],
                #[trigger] more[k],
                expr,
                alias,
                span,
                env,
            ) by {
                if k < i {
                    assert(more[k] == parts[k]);
                }
            }
            lemma_unwound(rows, i + 1, expr, alias, span, env, a.spent, more)
        } else {
            parts
        }
    } else {
        parts
    }
}

/// `UNWIND` makes of several rows what it makes of each, one after the other.
pub proof fn unwinding_goes_row_by_row(
    rows: Seq<Map<u32, ValueView>>,
    expr: BoundExprView,
    alias: VarId,
    span: Span,
    env: Env,
    spent: Spent,
)
    ensures
        feed::unwound_from(rows, 0, expr, alias, span, env, spent, seq![]).result matches Ok(out)
            ==> exists|parts: Seq<Seq<Map<u32, ValueView>>>|
            parts.len() == rows.len() && #[trigger] unwind(rows, parts, expr, alias, span, env)
                && out == in_turn(parts, rows.len()),
{
    let none = Seq::<Seq<Map<u32, ValueView>>>::empty();
    assert(in_turn(none, 0) =~= seq![]);
    let all = lemma_unwound(rows, 0, expr, alias, span, env, spent, none);
}

// --- Delete -----------------------------------------------------------------------------------------

/// What `DELETE` takes of a value: a node or a relationship itself, every element of a
/// path, nothing of null.
pub proof fn deleting_takes_what_it_names(d: Doomed, v: ValueView, span: Span, k: int)
    ensures
        delete::doomed_with(d, v, span) matches Ok(all) ==> {
            &&& d.nodes.is_prefix_of(all.nodes)
            &&& d.rels.is_prefix_of(all.rels)
            &&& v matches ValueView::Node(n) ==> all.nodes == d.nodes.push(n.id) && all.rels
                == d.rels
            &&& v matches ValueView::Relationship(r) ==> all.rels == d.rels.push(r) && all.nodes
                == d.nodes
            &&& v matches ValueView::Path(p) ==> all.nodes.len() == d.nodes.len() + p.nodes.len()
                && all.rels.len() == d.rels.len() + p.rels.len() && (0 <= k < p.nodes.len()
                ==> all.nodes[d.nodes.len() + k] == p.nodes[k].id) && (0 <= k < p.rels.len()
                ==> all.rels[d.rels.len() + k] == p.rels[k])
            &&& v is Null ==> all == d
        },
        delete::doomed_with(d, v, span) is Ok <==> v is Null || v is Node || v is Relationship
            || v is Path,
{
    if let Ok(all) = delete::doomed_with(d, v, span) {
        assert(all.nodes.take(d.nodes.len() as int) =~= d.nodes);
        assert(all.rels.take(d.rels.len() as int) =~= d.rels);
        assert(d.nodes.is_prefix_of(all.nodes));
        assert(d.rels.is_prefix_of(all.rels));
    }
}

proof fn lemma_marked_grows(
    targets: Seq<BoundExprView>,
    k: int,
    row: Map<u32, ValueView>,
    env: Env,
    spent: Spent,
    d: Doomed,
)
    requires
        0 <= k <= targets.len(),
    ensures
        delete::targets_marked(targets, k, row, env, spent, d).result matches Ok(all)
            ==> d.nodes.is_prefix_of(all.nodes) && d.rels.is_prefix_of(all.rels),
    decreases targets.len() - k,
{
    reveal(delete::targets_marked);
    if k < targets.len() {
        let x = semantics::value_of(targets[k], row, env, spent);
        if let Ok(v) = x.result {
            let span = semantics::bound_place(targets[k]);
            deleting_takes_what_it_names(d, v, span, 0);
            if let Ok(next) = delete::doomed_with(d, v, span) {
                lemma_marked_grows(targets, k + 1, row, env, x.spent, next);
                if let Ok(all) = delete::targets_marked(
                    targets,
                    k + 1,
                    row,
                    env,
                    x.spent,
                    next,
                ).result {
                    assert(all.nodes.take(d.nodes.len() as int) =~= d.nodes);
                    assert(all.rels.take(d.rels.len() as int) =~= d.rels);
                    assert(d.nodes.is_prefix_of(all.nodes));
                    assert(d.rels.is_prefix_of(all.rels));
                }
            }
        }
    } else {
        assert(d.nodes.is_prefix_of(d.nodes));
        assert(d.rels.is_prefix_of(d.rels));
    }
}

/// What the first target of a `DELETE` names is deleted, whatever the others are.
pub proof fn what_a_target_names_is_deleted(
    targets: Seq<BoundExprView>,
    row: Map<u32, ValueView>,
    env: Env,
    spent: Spent,
    d: Doomed,
    v: ValueView,
)
    requires
        targets.len() > 0,
        expression_laws::finding(targets[0], row, env, spent) == Ok::<_, ExecErrorView>(v),
    ensures
        delete::targets_marked(targets, 0, row, env, spent, d).result matches Ok(all) ==> {
            &&& v matches ValueView::Node(n) ==> all.nodes.contains(n.id)
            &&& v matches ValueView::Relationship(r) ==> all.rels.contains(r)
        },
{
    reveal(delete::targets_marked);
    reveal(semantics::value_of);
    reveal(expression_laws::finding);
    let x = semantics::value_of(targets[0], row, env, spent);
    let span = semantics::bound_place(targets[0]);
    deleting_takes_what_it_names(d, v, span, 0);
    if let Ok(next) = delete::doomed_with(d, v, span) {
        lemma_marked_grows(targets, 1, row, env, x.spent, next);
        if let Ok(all) = delete::targets_marked(targets, 1, row, env, x.spent, next).result {
            if let ValueView::Node(n) = v {
                assert(next.nodes[d.nodes.len() as int] == n.id);
                assert(all.nodes[d.nodes.len() as int] == n.id);
            }
            if let ValueView::Relationship(r) = v {
                assert(next.rels[d.rels.len() as int] == r);
                assert(all.rels[d.rels.len() as int] == r);
            }
        }
    }
}

// --- Merge ------------------------------------------------------------------------------------------

/// `MERGE` of a row goes by `ON MATCH` alone where the pattern matches; where it does not,
/// it makes the row that creating the pattern makes, with `ON CREATE` applied to it.
pub proof fn merging_matches_or_creates(
    row: Map<u32, ValueView>,
    pattern: BoundPathPatternView,
    on_create: Seq<BoundSetItemView>,
    on_match: Seq<BoundSetItemView>,
    other: Seq<BoundSetItemView>,
    o: OverlayView,
    given: Given,
    spent: Spent,
    out: Seq<Map<u32, ValueView>>,
)
    ensures
        ({
            let found = walk::continued_from(
                pattern,
                seq![Matched { row, used: seq![] }],
                0,
                given.env(o.graph()),
                spent,
                seq![],
            );
            let made = create::path_made(pattern, row, o, given, found.spent);
            found.result matches Ok(states) ==> {
                &&& states.len() > 0 ==> merge::row_merged(
                    row,
                    pattern,
                    on_create,
                    on_match,
                    o,
                    given,
                    spent,
                    out,
                ) == merge::row_merged(row, pattern, other, on_match, o, given, spent, out)
                &&& states.len() == 0 ==> merge::row_merged(
                    row,
                    pattern,
                    on_create,
                    on_match,
                    o,
                    given,
                    spent,
                    out,
                ) == merge::row_merged(row, pattern, on_create, other, o, given, spent, out)
                &&& states.len() == 0 ==> (made.result matches Ok((after, later))
                    ==> (merge::row_merged(
                    row,
                    pattern,
                    on_create,
                    on_match,
                    o,
                    given,
                    spent,
                    out,
                ).result matches Ok((rows, end)) ==> change::items_set(
                    on_create,
                    0,
                    after,
                    later,
                    given,
                    made.spent,
                ).result matches Ok((last, set)) && end == set && rows == out.push(last)))
            }
        }),
{
    reveal(merge::row_merged);
    reveal(merge::matches_set);
    let found = walk::continued_from(
        pattern,
        seq![Matched { row, used: seq![] }],
        0,
        given.env(o.graph()),
        spent,
        seq![],
    );
    let made = create::path_made(pattern, row, o, given, found.spent);
    if let Ok((after, later)) = made.result {
        let one = seq![Matched { row: after, used: seq![] }];
        let w = change::items_set(on_create, 0, after, later, given, made.spent);
        assert(one[0].row == after);
        if let Ok((last, set)) = w.result {
            let c = w.spent.budget.row(out.len());
            let spent = semantics::with_budget(w.spent, c.budget);
            assert(merge::matches_set(one, 1, on_create, set, given, spent, out.push(last)).result
                == Ok::<_, ExecErrorView>((out.push(last), set)));
        }
    }
}

} // verus!
