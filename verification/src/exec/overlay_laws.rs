//! What queries see of pending changes.

use vstd::prelude::*;

use crate::ast::Direction;
use crate::exec::delete;
use crate::exec::fault::ExecErrorView;
use crate::exec::ids;
use crate::exec::overlay::{self, OverlayView, Tally};
use crate::exec::source::{self, GraphView};
use crate::exec::value::{EntityIdView, NodeValueView, PropertyMapView, RelValueView};
use crate::span::Span;

verus! {

// --- Finding ----------------------------------------------------------------------------------------

pub(crate) proof fn lemma_found_node(nodes: Seq<NodeValueView>, id: EntityIdView, i: int)
    requires
        0 <= i <= nodes.len(),
    ensures
        source::find_node(nodes, id, i) matches Some(n) ==> n.id == id,
        source::find_node(nodes, id, i) is None <==> forall|k: int|
            i <= k < nodes.len() ==> (#[trigger] nodes[k]).id != id,
    decreases nodes.len() - i,
{
    if i < nodes.len() && nodes[i].id != id {
        lemma_found_node(nodes, id, i + 1);
    }
}

pub(crate) proof fn lemma_found_rel(rels: Seq<RelValueView>, id: EntityIdView, i: int)
    requires
        0 <= i <= rels.len(),
    ensures
        overlay::find_rel(rels, id, i) matches Some(r) ==> r.id == id,
        overlay::find_rel(rels, id, i) is None <==> forall|k: int|
            i <= k < rels.len() ==> (#[trigger] rels[k]).id != id,
    decreases rels.len() - i,
{
    if i < rels.len() && rels[i].id != id {
        lemma_found_rel(rels, id, i + 1);
    }
}

pub(crate) proof fn lemma_find_pushed(
    nodes: Seq<NodeValueView>,
    node: NodeValueView,
    id: EntityIdView,
    i: int,
)
    requires
        0 <= i <= nodes.len(),
    ensures
        source::find_node(nodes.push(node), id, i) == (match source::find_node(nodes, id, i) {
            Some(n) => Some(n),
            None => if node.id == id {
                Some(node)
            } else {
                None
            },
        }),
    decreases nodes.len() - i,
{
    if i < nodes.len() {
        lemma_find_pushed(nodes, node, id, i + 1);
    } else {
        assert(source::find_node(nodes.push(node), id, i + 1) is None);
    }
}

pub(crate) proof fn lemma_find_versioned(
    nodes: Seq<NodeValueView>,
    node: NodeValueView,
    id: EntityIdView,
    i: int,
)
    requires
        0 <= i <= nodes.len(),
    ensures
        source::find_node(overlay::with_version(nodes, node, i), id, i) == (if id == node.id {
            Some(node)
        } else {
            source::find_node(nodes, id, i)
        }),
        overlay::with_version(nodes, node, i).len() >= nodes.len(),
        forall|k: int| 0 <= k < i ==> overlay::with_version(nodes, node, i)[k] == nodes[k],
    decreases nodes.len() - i,
{
    if i >= nodes.len() {
        lemma_find_pushed(nodes, node, id, i);
    } else if nodes[i].id == node.id {
        let after = nodes.update(i, node);
        lemma_find_same(nodes, after, id, i + 1);
    } else {
        lemma_find_versioned(nodes, node, id, i + 1);
    }
}

proof fn lemma_find_same(
    a: Seq<NodeValueView>,
    b: Seq<NodeValueView>,
    id: EntityIdView,
    i: int,
)
    requires
        0 <= i,
        a.len() == b.len(),
        forall|k: int| i <= k < a.len() ==> a[k] == b[k],
    ensures
        source::find_node(a, id, i) == source::find_node(b, id, i),
    decreases a.len() - i,
{
    if i < a.len() {
        lemma_find_same(a, b, id, i + 1);
    }
}

// --- Nothing pending --------------------------------------------------------------------------------

proof fn lemma_base_nodes(base: GraphView, n: nat)
    requires
        n <= base.nodes.len(),
    ensures
        OverlayView::over(base).live_base_nodes(n) == base.nodes.take(n as int),
    decreases n,
{
    let o = OverlayView::over(base);
    if n == 0 {
        assert(base.nodes.take(0) =~= o.live_base_nodes(0));
    } else {
        lemma_base_nodes(base, (n - 1) as nat);
        assert(base.nodes.take(n as int) =~= base.nodes.take(n - 1).push(base.nodes[n - 1]));
    }
}

proof fn lemma_base_ways(
    base: GraphView,
    ways: Seq<(RelValueView, NodeValueView)>,
    n: nat,
)
    requires
        n <= ways.len(),
    ensures
        OverlayView::over(base).live_ways(ways, n) == ways.take(n as int),
    decreases n,
{
    let o = OverlayView::over(base);
    if n == 0 {
        assert(ways.take(0) =~= o.live_ways(ways, 0));
    } else {
        lemma_base_ways(base, ways, (n - 1) as nat);
        assert(ways.take(n as int) =~= ways.take(n - 1).push(ways[n - 1]));
    }
}

/// With nothing pending, queries see the base.
pub proof fn nothing_pending_shows_the_base(
    base: GraphView,
    id: EntityIdView,
    direction: Direction,
    types: Seq<Seq<char>>,
)
    ensures
        OverlayView::over(base).graph().nodes == base.nodes,
        (OverlayView::over(base).graph().node)(id) == (base.node)(id),
        (OverlayView::over(base).graph().expand)(id, direction, types) == (base.expand)(
            id,
            direction,
            types,
        ),
{
    let o = OverlayView::over(base);
    lemma_base_nodes(base, base.nodes.len());
    assert(o.graph().nodes =~= base.nodes);
    let ways = (base.expand)(id, direction, types);
    lemma_base_ways(base, ways, ways.len());
    assert(o.ways(id, direction, types) =~= ways);
}

// --- Nodes ------------------------------------------------------------------------------------------

/// Whether the identity that the next created element gets is free.
pub open spec fn next_is_free(o: OverlayView) -> bool {
    let id = ids::overlay_id(o.count_created());
    !o.node_is_gone(id) && o.own_node(id) is None
}

proof fn lemma_live_created_same(a: OverlayView, b: OverlayView, n: nat)
    requires
        n <= a.created_nodes.len(),
        n <= b.created_nodes.len(),
        a.deleted_nodes == b.deleted_nodes,
        forall|k: int| 0 <= k < n ==> a.created_nodes[k] == b.created_nodes[k],
    ensures
        a.live_created_nodes(n) == b.live_created_nodes(n),
    decreases n,
{
    if n > 0 {
        lemma_live_created_same(a, b, (n - 1) as nat);
    }
}

proof fn lemma_live_base_same(a: OverlayView, b: OverlayView, n: nat)
    requires
        a.base == b.base,
        a.deleted_nodes == b.deleted_nodes,
        a.changed_nodes == b.changed_nodes,
    ensures
        a.live_base_nodes(n) == b.live_base_nodes(n),
    decreases n,
{
    if n > 0 && n <= a.base.nodes.len() {
        lemma_live_base_same(a, b, (n - 1) as nat);
    }
}

/// A created node is found, and listed behind the others; nothing else changes.
pub proof fn a_created_node_is_seen(
    o: OverlayView,
    labels: Seq<Seq<char>>,
    properties: PropertyMapView,
    other: EntityIdView,
)
    requires
        next_is_free(o),
    ensures
        ({
            let (after, node) = o.with_node(labels, properties);
            &&& after.graph().nodes == o.graph().nodes.push(node)
            &&& (after.graph().node)(node.id) == Some(node)
            &&& other != node.id ==> (after.graph().node)(other) == (o.graph().node)(other)
        }),
{
    let (after, node) = o.with_node(labels, properties);
    lemma_find_pushed(o.created_nodes, node, node.id, 0);
    lemma_find_pushed(o.created_nodes, node, other, 0);
    lemma_live_base_same(o, after, o.base.nodes.len());
    lemma_live_created_same(o, after, o.created_nodes.len());
    assert(after.live_created_nodes(after.created_nodes.len()) == o.live_created_nodes(
        o.created_nodes.len(),
    ).push(node));
    assert(after.graph().nodes =~= o.graph().nodes.push(node));
}

/// A changed node is found as it is now; no other node changes.
pub proof fn a_changed_node_is_seen_as_it_is(
    o: OverlayView,
    node: NodeValueView,
    t: Tally,
    other: EntityIdView,
)
    requires
        !o.node_is_gone(node.id),
    ensures
        ({
            let after = o.with_node_version(node, t);
            &&& (after.graph().node)(node.id) == Some(node)
            &&& other != node.id ==> (after.graph().node)(other) == (o.graph().node)(other)
        }),
{
    let after = o.with_node_version(node, t);
    lemma_found_node(o.created_nodes, node.id, 0);
    if source::find_node(o.created_nodes, node.id, 0) is Some {
        lemma_find_versioned(o.created_nodes, node, node.id, 0);
        lemma_find_versioned(o.created_nodes, node, other, 0);
    } else {
        lemma_find_versioned(o.changed_nodes, node, node.id, 0);
        lemma_find_versioned(o.changed_nodes, node, other, 0);
    }
}

proof fn lemma_live_base_ids(o: OverlayView, n: nat)
    ensures
        forall|k: int|
            0 <= k < o.live_base_nodes(n).len() ==> !o.node_is_gone(
                (#[trigger] o.live_base_nodes(n)[k]).id,
            ),
    decreases n,
{
    if n > 0 && n <= o.base.nodes.len() {
        lemma_live_base_ids(o, (n - 1) as nat);
        lemma_found_node(o.changed_nodes, o.base.nodes[n - 1].id, 0);
        let before = o.live_base_nodes((n - 1) as nat);
        let after = o.live_base_nodes(n);
        assert forall|k: int| 0 <= k < after.len() implies !o.node_is_gone(
            (#[trigger] after[k]).id,
        ) by {
            if k < before.len() {
                assert(after[k] == before[k]);
            }
        }
    }
}

proof fn lemma_live_created_ids(o: OverlayView, n: nat)
    ensures
        forall|k: int|
            0 <= k < o.live_created_nodes(n).len() ==> !o.node_is_gone(
                (#[trigger] o.live_created_nodes(n)[k]).id,
            ),
    decreases n,
{
    if n > 0 && n <= o.created_nodes.len() {
        lemma_live_created_ids(o, (n - 1) as nat);
        let before = o.live_created_nodes((n - 1) as nat);
        let after = o.live_created_nodes(n);
        assert forall|k: int| 0 <= k < after.len() implies !o.node_is_gone(
            (#[trigger] after[k]).id,
        ) by {
            if k < before.len() {
                assert(after[k] == before[k]);
            }
        }
    }
}

/// A deleted node is neither found nor listed; every other node is found as
/// before.
pub proof fn a_deleted_node_is_not_seen(o: OverlayView, id: EntityIdView, other: EntityIdView)
    ensures
        (o.without_node(id).graph().node)(id) is None,
        forall|k: int|
            0 <= k < o.without_node(id).graph().nodes.len() ==> (
            #[trigger] o.without_node(id).graph().nodes[k]).id != id,
        other != id ==> (o.without_node(id).graph().node)(other) == (o.graph().node)(other),
{
    let after = o.without_node(id);
    assert(after.node_is_gone(id)) by {
        if !o.node_is_gone(id) {
            assert(after.deleted_nodes.last() == id);
        }
    }
    lemma_live_base_ids(after, o.base.nodes.len());
    lemma_live_created_ids(after, o.created_nodes.len());
    if other != id {
        assert(after.node_is_gone(other) == o.node_is_gone(other)) by {
            if !o.node_is_gone(id) {
                if o.node_is_gone(other) {
                    assert(after.deleted_nodes[o.deleted_nodes.index_of(other)] == other);
                }
                if after.node_is_gone(other) {
                    assert(o.deleted_nodes[after.deleted_nodes.index_of(other)] == other);
                }
            }
        }
    }
}

// --- Relationships ----------------------------------------------------------------------------------

/// Whether `later` is `o` after deletions alone.
pub open spec fn only_deletes(o: OverlayView, later: OverlayView) -> bool {
    &&& later.base == o.base
    &&& later.created_nodes == o.created_nodes
    &&& later.changed_nodes == o.changed_nodes
    &&& later.created_rels == o.created_rels
    &&& later.changed_rels == o.changed_rels
    &&& forall|id: EntityIdView| #[trigger] o.node_is_gone(id) ==> later.node_is_gone(id)
    &&& forall|id: EntityIdView| #[trigger] o.rel_is_gone(id) ==> later.rel_is_gone(id)
}

proof fn lemma_without_node(o: OverlayView, id: EntityIdView)
    ensures
        only_deletes(o, o.without_node(id)),
        o.without_node(id).node_is_gone(id),
{
    let after = o.without_node(id);
    if !o.node_is_gone(id) {
        assert(after.deleted_nodes.last() == id);
        assert forall|x: EntityIdView| #[trigger] o.node_is_gone(x) implies after.node_is_gone(
            x,
        ) by {
            assert(after.deleted_nodes[o.deleted_nodes.index_of(x)] == x);
        }
    }
}

proof fn lemma_without_rel(o: OverlayView, rel: RelValueView)
    ensures
        only_deletes(o, o.without_rel(rel)),
        o.without_rel(rel).rel_is_gone(rel.id),
{
    let after = o.without_rel(rel);
    if !o.rel_is_gone(rel.id) {
        lemma_found_rel(after.deleted_rels, rel.id, 0);
        assert(after.deleted_rels.last().id == rel.id);
        assert forall|x: EntityIdView| #[trigger] o.rel_is_gone(x) implies after.rel_is_gone(
            x,
        ) by {
            lemma_found_rel(o.deleted_rels, x, 0);
            lemma_found_rel(after.deleted_rels, x, 0);
            let k = choose|k: int|
                0 <= k < o.deleted_rels.len() && (#[trigger] o.deleted_rels[k]).id == x;
            assert(after.deleted_rels[k] == o.deleted_rels[k]);
        }
    }
}

/// Whether a relationship of an identity is among ways.
pub open spec fn leads_along(ways: Seq<(RelValueView, NodeValueView)>, id: EntityIdView) -> bool {
    exists|k: int| 0 <= k < ways.len() && (#[trigger] ways[k]).0.id == id
}

proof fn lemma_live_ways(
    o: OverlayView,
    later: OverlayView,
    ways: Seq<(RelValueView, NodeValueView)>,
    n: nat,
)
    requires
        n <= ways.len(),
        only_deletes(o, later),
    ensures
        forall|k: int|
            0 <= k < later.live_ways(ways, n).len() ==> !later.rel_is_gone(
                (#[trigger] later.live_ways(ways, n)[k]).0.id,
            ) && leads_along(o.live_ways(ways, n), later.live_ways(ways, n)[k].0.id),
    decreases n,
{
    if n > 0 {
        lemma_live_ways(o, later, ways, (n - 1) as nat);
        let (rel, node) = ways[n - 1];
        lemma_found_rel(o.changed_rels, rel.id, 0);
        let was = o.live_ways(ways, (n - 1) as nat);
        let is = o.live_ways(ways, n);
        let before = later.live_ways(ways, (n - 1) as nat);
        let after = later.live_ways(ways, n);
        assert forall|k: int| 0 <= k < after.len() implies !later.rel_is_gone(
            (#[trigger] after[k]).0.id,
        ) && leads_along(is, after[k].0.id) by {
            if k < before.len() {
                assert(after[k] == before[k]);
                assert(leads_along(was, before[k].0.id));
                let j = choose|j: int|
                    0 <= j < was.len() && (#[trigger] was[j]).0.id == before[k].0.id;
                assert(is[j] == was[j]);
            } else {
                assert(!o.rel_is_gone(rel.id) && !o.node_is_gone(node.id));
                assert(is[was.len() as int].0.id == rel.id);
            }
        }
    }
}

proof fn lemma_live_created(o: OverlayView, later: OverlayView, n: nat)
    requires
        only_deletes(o, later),
    ensures
        forall|k: int|
            0 <= k < later.live_created_rels(n).len() ==> !later.rel_is_gone(
                (#[trigger] later.live_created_rels(n)[k]).id,
            ) && o.live_created_rels(n).contains(later.live_created_rels(n)[k]),
    decreases n,
{
    if n > 0 && n <= o.created_rels.len() {
        lemma_live_created(o, later, (n - 1) as nat);
        let rel = o.created_rels[n - 1];
        let was = o.live_created_rels((n - 1) as nat);
        let is = o.live_created_rels(n);
        let before = later.live_created_rels((n - 1) as nat);
        let after = later.live_created_rels(n);
        assert forall|k: int| 0 <= k < after.len() implies !later.rel_is_gone(
            (#[trigger] after[k]).id,
        ) && is.contains(after[k]) by {
            if k < before.len() {
                assert(after[k] == before[k]);
                assert(is[was.index_of(before[k])] == before[k]);
            } else {
                assert(is[was.len() as int] == rel);
            }
        }
    }
}

/// Whether a relationship leads from a node to one that is found.
spec fn leads(
    find: spec_fn(EntityIdView) -> Option<NodeValueView>,
    rel: RelValueView,
    node: EntityIdView,
    direction: Direction,
    types: Seq<Seq<char>>,
) -> bool {
    source::of_types(rel, types) && match source::other_end(rel, node, direction) {
        Some(id) => find(id) is Some,
        None => false,
    }
}

proof fn lemma_expanded(
    find: spec_fn(EntityIdView) -> Option<NodeValueView>,
    rels: Seq<RelValueView>,
    node: EntityIdView,
    direction: Direction,
    types: Seq<Seq<char>>,
    n: nat,
)
    requires
        n <= rels.len(),
    ensures
        forall|k: int|
            0 <= k < source::expanded(find, rels, node, direction, types, n).len() ==> leads(
                find,
                (#[trigger] source::expanded(find, rels, node, direction, types, n)[k]).0,
                node,
                direction,
                types,
            ) && rels.contains(source::expanded(find, rels, node, direction, types, n)[k].0),
        forall|k: int|
            0 <= k < n && leads(find, #[trigger] rels[k], node, direction, types) ==> leads_along(
                source::expanded(find, rels, node, direction, types, n),
                rels[k].id,
            ),
    decreases n,
{
    if n > 0 {
        lemma_expanded(find, rels, node, direction, types, (n - 1) as nat);
        let before = source::expanded(find, rels, node, direction, types, (n - 1) as nat);
        let after = source::expanded(find, rels, node, direction, types, n);
        assert(rels.contains(rels[n - 1]));
        assert forall|k: int|
            0 <= k < n && leads(find, #[trigger] rels[k], node, direction, types) implies leads_along(
            after,
            rels[k].id,
        ) by {
            if k < n - 1 {
                let j = choose|j: int|
                    0 <= j < before.len() && (#[trigger] before[j]).0.id == rels[k].id;
                assert(after[j] == before[j]);
            } else {
                assert(after[before.len() as int].0 == rels[k]);
            }
        }
    }
}

/// Deletions only take ways away: what is still followed was followed before and
/// is not deleted.
pub proof fn deletions_only_take_ways_away(
    o: OverlayView,
    later: OverlayView,
    node: EntityIdView,
    direction: Direction,
    types: Seq<Seq<char>>,
    k: int,
)
    requires
        only_deletes(o, later),
        0 <= k < (later.graph().expand)(node, direction, types).len(),
    ensures
        !later.rel_is_gone((later.graph().expand)(node, direction, types)[k].0.id),
        leads_along(
            (o.graph().expand)(node, direction, types),
            (later.graph().expand)(node, direction, types)[k].0.id,
        ),
{
    let from_base = (o.base.expand)(node, direction, types);
    let now = later.ways(node, direction, types);
    let then = o.ways(node, direction, types);
    let find_now = |id: EntityIdView| later.find(id);
    let find_then = |id: EntityIdView| o.find(id);
    let made_now = later.live_created_rels(later.created_rels.len());
    let made_then = o.live_created_rels(o.created_rels.len());
    lemma_live_ways(o, later, from_base, from_base.len());
    lemma_live_created(o, later, o.created_rels.len());
    lemma_expanded(find_now, made_now, node, direction, types, made_now.len());
    lemma_expanded(find_then, made_then, node, direction, types, made_then.len());
    let base_now = later.live_ways(from_base, from_base.len());
    let base_then = o.live_ways(from_base, from_base.len());
    let more_now = source::expanded(find_now, made_now, node, direction, types, made_now.len());
    let more_then = source::expanded(find_then, made_then, node, direction, types, made_then.len());
    assert(now == base_now + more_now);
    assert(then == base_then + more_then);
    if k < base_now.len() {
        assert(now[k] == base_now[k]);
        let j = choose|j: int|
            0 <= j < base_then.len() && (#[trigger] base_then[j]).0.id == now[k].0.id;
        assert(then[j] == base_then[j]);
    } else {
        let rel = more_now[k - base_now.len()].0;
        assert(now[k] == more_now[k - base_now.len()]);
        let at = made_now.index_of(rel);
        assert(made_now[at] == rel);
        assert(made_then.contains(rel));
        let was = made_then.index_of(rel);
        assert(made_then[was] == rel);
        assert(leads(find_then, made_then[was], node, direction, types));
        let j = choose|j: int|
            0 <= j < more_then.len() && (#[trigger] more_then[j]).0.id == rel.id;
        assert(then[base_then.len() + j] == more_then[j]);
    }
}

// --- Deleting ---------------------------------------------------------------------------------------

proof fn lemma_chain(a: OverlayView, b: OverlayView, c: OverlayView)
    requires
        only_deletes(a, b),
        only_deletes(b, c),
    ensures
        only_deletes(a, c),
{
}

proof fn lemma_rels_dropped(o: OverlayView, rels: Seq<RelValueView>, n: nat)
    requires
        n <= rels.len(),
    ensures
        only_deletes(o, delete::rels_dropped(o, rels, n)),
        forall|k: int|
            0 <= k < n ==> delete::rels_dropped(o, rels, n).rel_is_gone((#[trigger] rels[k]).id),
    decreases n,
{
    if n > 0 {
        lemma_rels_dropped(o, rels, (n - 1) as nat);
        let before = delete::rels_dropped(o, rels, (n - 1) as nat);
        lemma_without_rel(before, rels[n - 1]);
        lemma_chain(o, before, before.without_rel(rels[n - 1]));
    }
}

proof fn lemma_nodes_dropped(o: OverlayView, nodes: Seq<EntityIdView>, n: nat)
    requires
        n <= nodes.len(),
    ensures
        only_deletes(o, delete::nodes_dropped(o, nodes, n)),
        forall|k: int| 0 <= k < n ==> delete::nodes_dropped(o, nodes, n).node_is_gone(#[trigger] nodes[k]),
    decreases n,
{
    if n > 0 {
        lemma_nodes_dropped(o, nodes, (n - 1) as nat);
        let before = delete::nodes_dropped(o, nodes, (n - 1) as nat);
        lemma_without_node(before, nodes[n - 1]);
        lemma_chain(o, before, before.without_node(nodes[n - 1]));
    }
}

/// Whether a node has no relationship left.
pub open spec fn is_free(o: OverlayView, id: EntityIdView) -> bool {
    delete::incident(o, id).len() == 0
}

proof fn lemma_stays_free(o: OverlayView, later: OverlayView, id: EntityIdView)
    requires
        only_deletes(o, later),
        is_free(o, id),
    ensures
        is_free(later, id),
{
    if delete::incident(later, id).len() > 0 {
        deletions_only_take_ways_away(o, later, id, Direction::Undirected, seq![], 0);
    }
}

proof fn lemma_freed(o: OverlayView, id: EntityIdView)
    ensures
        ({
            let held = delete::incident(o, id);
            is_free(delete::rels_dropped(o, held, held.len()), id)
        }),
{
    let held = delete::incident(o, id);
    let later = delete::rels_dropped(o, held, held.len());
    lemma_rels_dropped(o, held, held.len());
    if delete::incident(later, id).len() > 0 {
        let now = (later.graph().expand)(id, Direction::Undirected, seq![]);
        let then = (o.graph().expand)(id, Direction::Undirected, seq![]);
        deletions_only_take_ways_away(o, later, id, Direction::Undirected, seq![], 0);
        let j = choose|j: int| 0 <= j < then.len() && (#[trigger] then[j]).0.id == now[0].0.id;
        assert(held[j] == then[j].0);
        assert(later.rel_is_gone(held[j].id));
    }
}

proof fn lemma_freed_from(
    o: OverlayView,
    nodes: Seq<EntityIdView>,
    i: int,
    detach: bool,
    span: Span,
)
    requires
        0 <= i <= nodes.len(),
        delete::freed_from(o, nodes, i, detach, span) is Ok,
    ensures
        only_deletes(o, delete::freed_from(o, nodes, i, detach, span)->Ok_0),
        forall|k: int|
            i <= k < nodes.len() ==> is_free(
                delete::freed_from(o, nodes, i, detach, span)->Ok_0,
                #[trigger] nodes[k],
            ),
    decreases nodes.len() - i,
{
    reveal(delete::freed_from);
    if i < nodes.len() {
        let held = delete::incident(o, nodes[i]);
        let next = delete::rels_dropped(o, held, held.len());
        let last = delete::freed_from(o, nodes, i, detach, span)->Ok_0;
        lemma_rels_dropped(o, held, held.len());
        lemma_freed_from(next, nodes, i + 1, detach, span);
        lemma_chain(o, next, last);
        lemma_freed(o, nodes[i]);
        lemma_stays_free(next, last, nodes[i]);
    }
}

/// Deleting leaves nothing behind: a deleted node is not found, and no
/// relationship is attached to it any more.
pub proof fn deleting_leaves_nothing_attached(
    o: OverlayView,
    nodes: Seq<EntityIdView>,
    detach: bool,
    span: Span,
    k: int,
)
    requires
        delete::freed_from(o, nodes, 0, detach, span) is Ok,
        0 <= k < nodes.len(),
    ensures
        ({
            let freed = delete::freed_from(o, nodes, 0, detach, span)->Ok_0;
            let after = delete::nodes_dropped(freed, nodes, nodes.len());
            &&& (after.graph().node)(nodes[k]) is None
            &&& is_free(after, nodes[k])
        }),
{
    let freed = delete::freed_from(o, nodes, 0, detach, span)->Ok_0;
    let after = delete::nodes_dropped(freed, nodes, nodes.len());
    lemma_freed_from(o, nodes, 0, detach, span);
    lemma_nodes_dropped(freed, nodes, nodes.len());
    lemma_stays_free(freed, after, nodes[k]);
    assert(after.node_is_gone(nodes[k]));
}

/// Without `DETACH`, a node that still has a relationship is not deleted.
pub proof fn a_connected_node_is_not_deleted(
    o: OverlayView,
    nodes: Seq<EntityIdView>,
    span: Span,
)
    requires
        nodes.len() > 0,
        !is_free(o, nodes[0]),
    ensures
        delete::freed_from(o, nodes, 0, false, span) == Err::<OverlayView, ExecErrorView>(
            delete::still_connected(span),
        ),
{
    reveal(delete::freed_from);
}

// --- Net effect -------------------------------------------------------------------------------------

proof fn lemma_live_nodes_same(
    a: OverlayView,
    b: OverlayView,
    nodes: Seq<NodeValueView>,
    more: Seq<NodeValueView>,
    n: nat,
)
    requires
        n <= nodes.len(),
        n <= more.len(),
        forall|k: int|
            0 <= k < n ==> (#[trigger] nodes[k]) == more[k] && a.node_is_gone(nodes[k].id)
                == b.node_is_gone(nodes[k].id),
    ensures
        overlay::live_nodes(a, nodes, n) == overlay::live_nodes(b, more, n),
    decreases n,
{
    if n > 0 {
        lemma_live_nodes_same(a, b, nodes, more, (n - 1) as nat);
        assert(nodes[n - 1] == more[n - 1]);
    }
}

proof fn lemma_live_rels_same(a: OverlayView, b: OverlayView, rels: Seq<RelValueView>, n: nat)
    requires
        a.deleted_rels == b.deleted_rels,
    ensures
        overlay::live_rels_of(a, rels, n) == overlay::live_rels_of(b, rels, n),
    decreases n,
{
    if n > 0 && n <= rels.len() {
        lemma_live_rels_same(a, b, rels, (n - 1) as nat);
    }
}

proof fn lemma_base_ids_same(a: Seq<EntityIdView>, b: Seq<EntityIdView>, n: nat)
    requires
        n <= a.len(),
        n <= b.len(),
        forall|k: int| 0 <= k < n ==> a[k] == b[k],
    ensures
        overlay::base_ids(a, n) == overlay::base_ids(b, n),
    decreases n,
{
    if n > 0 {
        lemma_base_ids_same(a, b, (n - 1) as nat);
    }
}

/// A node that is created and deleted again leaves no trace in the net effect.
pub proof fn creating_and_deleting_leaves_no_trace(
    o: OverlayView,
    labels: Seq<Seq<char>>,
    properties: PropertyMapView,
)
    requires
        next_is_free(o),
    ensures
        ({
            let (with, node) = o.with_node(labels, properties);
            with.without_node(node.id).net() == o.net()
        }),
{
    let (with, node) = o.with_node(labels, properties);
    let after = with.without_node(node.id);
    let id = node.id;
    ids::overlay_ids_are_tagged(o.count_created());
    assert(after.deleted_nodes == o.deleted_nodes.push(id));
    assert(after.deleted_nodes.last() == id);
    lemma_found_node(o.created_nodes, id, 0);
    lemma_found_node(o.changed_nodes, id, 0);
    assert forall|x: EntityIdView| x != id implies o.node_is_gone(x) == after.node_is_gone(x) by {
        if o.node_is_gone(x) {
            assert(after.deleted_nodes[o.deleted_nodes.index_of(x)] == x);
        }
        if after.node_is_gone(x) {
            assert(o.deleted_nodes[after.deleted_nodes.index_of(x)] == x);
        }
    }
    assert forall|k: int| 0 <= k < o.created_nodes.len() implies (
    #[trigger] after.created_nodes[k]) == o.created_nodes[k] && after.node_is_gone(
        after.created_nodes[k].id,
    ) == o.node_is_gone(after.created_nodes[k].id) by {
        assert(after.created_nodes[k] == o.created_nodes[k]);
        assert(o.created_nodes[k].id != id);
    }
    lemma_live_nodes_same(
        after,
        o,
        after.created_nodes,
        o.created_nodes,
        o.created_nodes.len(),
    );
    assert(after.created_nodes[o.created_nodes.len() as int] == node);
    assert(overlay::live_nodes(after, after.created_nodes, after.created_nodes.len()) == overlay::live_nodes(
        o,
        o.created_nodes,
        o.created_nodes.len(),
    ));
    lemma_live_nodes_same(after, o, o.changed_nodes, o.changed_nodes, o.changed_nodes.len());
    lemma_live_rels_same(after, o, o.created_rels, o.created_rels.len());
    lemma_live_rels_same(after, o, o.changed_rels, o.changed_rels.len());
    lemma_base_ids_same(after.deleted_nodes, o.deleted_nodes, o.deleted_nodes.len());
    assert(overlay::base_ids(after.deleted_nodes, after.deleted_nodes.len()) == overlay::base_ids(
        o.deleted_nodes,
        o.deleted_nodes.len(),
    ));
}

} // verus!
