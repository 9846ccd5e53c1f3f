//! What folding a query's changes into a graph in memory does to every node and
//! relationship.

use vstd::prelude::*;

use crate::exec::ids;
use crate::exec::memory::{self, Renaming};
use crate::exec::overlay;
use crate::exec::overlay_laws;
use crate::exec::source::{self, MemoryGraphView, WriteChangesView};
use crate::exec::value::{EntityIdView, NodeValueView, RelValueView};

verus! {

// --- Names ------------------------------------------------------------------------------------------

/// The identity that `id` has in the graph, once it was given one.
pub open spec fn named(names: Renaming, id: EntityIdView) -> EntityIdView {
    if ids::is_overlay_id(id) {
        memory::given_to(names.given, id, 0)->0
    } else {
        id
    }
}

/// Whether every identity that `a` gave stands in `b` as well.
pub open spec fn extends(a: Renaming, b: Renaming) -> bool {
    forall|id: EntityIdView|
        #[trigger] memory::given_to(a.given, id, 0) is Some ==> memory::given_to(b.given, id, 0)
            == memory::given_to(a.given, id, 0)
}

/// Whether `id` needs no new identity under `names`.
pub open spec fn is_named(names: Renaming, id: EntityIdView) -> bool {
    ids::is_overlay_id(id) ==> memory::given_to(names.given, id, 0) is Some
}

proof fn lemma_given_pushed(
    given: Seq<(EntityIdView, EntityIdView)>,
    x: (EntityIdView, EntityIdView),
    id: EntityIdView,
    i: int,
)
    requires
        0 <= i <= given.len(),
    ensures
        memory::given_to(given.push(x), id, i) == (match memory::given_to(given, id, i) {
            Some(known) => Some(known),
            None => if x.0 == id {
                Some(x.1)
            } else {
                None
            },
        }),
    decreases given.len() - i,
{
    if i < given.len() {
        assert(given.push(x)[i] == given[i]);
        lemma_given_pushed(given, x, id, i + 1);
    } else {
        assert(given.push(x)[i] == x);
        assert(memory::given_to(given.push(x), id, i + 1) is None);
    }
}

/// An identity once given stays, and naming an identity twice gives the same one.
pub proof fn names_once_given_stay(names: Renaming, id: EntityIdView)
    ensures
        extends(names, names.renamed(id).0),
        is_named(names.renamed(id).0, id),
        named(names.renamed(id).0, id) == names.renamed(id).1,
{
    let after = names.renamed(id).0;
    if ids::is_overlay_id(id) && memory::given_to(names.given, id, 0) is None {
        let x = (id, memory::stable_id(names.next));
        assert forall|other: EntityIdView| #[trigger]
            memory::given_to(names.given, other, 0) is Some implies memory::given_to(
            after.given,
            other,
            0,
        ) == memory::given_to(names.given, other, 0) by {
            lemma_given_pushed(names.given, x, other, 0);
        }
        lemma_given_pushed(names.given, x, id, 0);
    }
}

proof fn lemma_extends(a: Renaming, b: Renaming, c: Renaming)
    requires
        extends(a, b),
        extends(b, c),
    ensures
        extends(a, c),
{
    assert forall|id: EntityIdView| #[trigger]
        memory::given_to(a.given, id, 0) is Some implies memory::given_to(c.given, id, 0)
        == memory::given_to(a.given, id, 0) by {
        assert(memory::given_to(b.given, id, 0) is Some);
    }
}

proof fn lemma_stays_named(a: Renaming, b: Renaming, id: EntityIdView)
    requires
        extends(a, b),
        is_named(a, id),
    ensures
        is_named(b, id),
        named(b, id) == named(a, id),
{
}

// --- Nodes ------------------------------------------------------------------------------------------

/// What is put for the `k`-th of `put`.
pub open spec fn placed_node(
    nodes: Seq<NodeValueView>,
    put: Seq<NodeValueView>,
    k: int,
    names: Renaming,
) -> NodeValueView {
    let before = memory::upserted_nodes(nodes, put, k as nat, names).1;
    NodeValueView { id: before.renamed(put[k].id).1, ..put[k] }
}

/// Those that were there stay in their places, and change only where one with
/// their identity is put.
pub open spec fn nodes_keep_places(
    nodes: Seq<NodeValueView>,
    put: Seq<NodeValueView>,
    n: nat,
    names: Renaming,
) -> bool {
    let after = memory::upserted_nodes(nodes, put, n, names).0;
    &&& after.len() >= nodes.len()
    &&& forall|i: int| 0 <= i < nodes.len() ==> (#[trigger] after[i]).id == nodes[i].id
    &&& forall|i: int|
        0 <= i < nodes.len() && (forall|k: int|
            0 <= k < n ==> (#[trigger] placed_node(nodes, put, k, names)).id != nodes[i].id) ==> (
        #[trigger] after[i]) == nodes[i]
}

/// The last one put with an identity is found under it; under identities that
/// none was put with, what was found before.
pub open spec fn nodes_are_found(
    nodes: Seq<NodeValueView>,
    put: Seq<NodeValueView>,
    n: nat,
    names: Renaming,
) -> bool {
    let after = memory::upserted_nodes(nodes, put, n, names).0;
    &&& forall|k: int|
        0 <= k < n && (forall|j: int|
            k < j < n ==> (#[trigger] placed_node(nodes, put, j, names)).id != placed_node(
                nodes,
                put,
                k,
                names,
            ).id) ==> source::find_node(after, (#[trigger] placed_node(nodes, put, k, names)).id, 0)
            == Some(placed_node(nodes, put, k, names))
    &&& forall|id: EntityIdView|
        (forall|k: int| 0 <= k < n ==> (#[trigger] placed_node(nodes, put, k, names)).id != id)
            ==> #[trigger] source::find_node(after, id, 0) == source::find_node(nodes, id, 0)
}

/// Whether what is put for the `k`-th of `put` has the identities of `end`.
pub open spec fn node_is_named(
    nodes: Seq<NodeValueView>,
    put: Seq<NodeValueView>,
    k: int,
    names: Renaming,
    end: Renaming,
) -> bool {
    is_named(end, put[k].id) && placed_node(nodes, put, k, names) == (NodeValueView {
        id: named(end, put[k].id),
        ..put[k]
    })
}

/// What is put has the identities that it has in the end.
pub open spec fn nodes_are_named(
    nodes: Seq<NodeValueView>,
    put: Seq<NodeValueView>,
    n: nat,
    names: Renaming,
) -> bool {
    let end = memory::upserted_nodes(nodes, put, n, names).1;
    &&& extends(names, end)
    &&& forall|k: int| 0 <= k < n ==> #[trigger] node_is_named(nodes, put, k, names, end)
}

/// What folding the first `n` of `put` in does: those that were there stay in
/// their places, the ones put come in place of those with their identity or at
/// the end, and of several with one identity the last counts.
pub open spec fn nodes_folded(
    nodes: Seq<NodeValueView>,
    put: Seq<NodeValueView>,
    n: nat,
    names: Renaming,
) -> bool {
    &&& nodes_keep_places(nodes, put, n, names)
    &&& nodes_are_found(nodes, put, n, names)
    &&& nodes_are_named(nodes, put, n, names)
}

pub(crate) proof fn lemma_version_places(nodes: Seq<NodeValueView>, node: NodeValueView, i: int)
    requires
        0 <= i <= nodes.len(),
    ensures
        ({
            let after = overlay::with_version(nodes, node, i);
            &&& after.len() >= nodes.len()
            &&& forall|j: int| 0 <= j < nodes.len() ==> (#[trigger] after[j]).id == nodes[j].id
            &&& forall|j: int|
                0 <= j < nodes.len() && nodes[j].id != node.id ==> (#[trigger] after[j]) == nodes[j]
        }),
    decreases nodes.len() - i,
{
    if i < nodes.len() && nodes[i].id != node.id {
        lemma_version_places(nodes, node, i + 1);
    }
}

proof fn lemma_nodes_keep_places(
    nodes: Seq<NodeValueView>,
    put: Seq<NodeValueView>,
    n: nat,
    names: Renaming,
)
    requires
        n <= put.len(),
    ensures
        nodes_keep_places(nodes, put, n, names),
    decreases n,
{
    if n > 0 {
        let m = (n - 1) as nat;
        lemma_nodes_keep_places(nodes, put, m, names);
        let before = memory::upserted_nodes(nodes, put, m, names).0;
        let after = memory::upserted_nodes(nodes, put, n, names).0;
        let p = placed_node(nodes, put, m as int, names);
        assert(after == overlay::with_version(before, p, 0));
        lemma_version_places(before, p, 0);
        assert forall|i: int| 0 <= i < nodes.len() implies (#[trigger] after[i]).id
            == nodes[i].id by {
            assert(before[i].id == nodes[i].id);
        }
        assert forall|i: int|
            0 <= i < nodes.len() && (forall|k: int|
                0 <= k < n ==> (#[trigger] placed_node(nodes, put, k, names)).id != nodes[i].id) implies (
        #[trigger] after[i]) == nodes[i] by {
            assert(before[i] == nodes[i]);
        }
    }
}

proof fn lemma_nodes_are_found(
    nodes: Seq<NodeValueView>,
    put: Seq<NodeValueView>,
    n: nat,
    names: Renaming,
)
    requires
        n <= put.len(),
    ensures
        nodes_are_found(nodes, put, n, names),
    decreases n,
{
    if n > 0 {
        let m = (n - 1) as nat;
        lemma_nodes_are_found(nodes, put, m, names);
        let before = memory::upserted_nodes(nodes, put, m, names).0;
        let after = memory::upserted_nodes(nodes, put, n, names).0;
        let p = placed_node(nodes, put, m as int, names);
        assert(after == overlay::with_version(before, p, 0));
        assert forall|k: int|
            0 <= k < n && (forall|j: int|
                k < j < n ==> (#[trigger] placed_node(nodes, put, j, names)).id != placed_node(
                    nodes,
                    put,
                    k,
                    names,
                ).id) implies source::find_node(
            after,
            (#[trigger] placed_node(nodes, put, k, names)).id,
            0,
        ) == Some(placed_node(nodes, put, k, names)) by {
            let q = placed_node(nodes, put, k, names);
            overlay_laws::lemma_find_versioned(before, p, q.id, 0);
            if k < m {
                assert(p.id != q.id);
            }
        }
        assert forall|id: EntityIdView|
            (forall|k: int| 0 <= k < n ==> (#[trigger] placed_node(nodes, put, k, names)).id != id) implies #[trigger] source::find_node(
            after,
            id,
            0,
        ) == source::find_node(nodes, id, 0) by {
            overlay_laws::lemma_find_versioned(before, p, id, 0);
            assert(p.id != id);
        }
    }
}

proof fn lemma_nodes_are_named(
    nodes: Seq<NodeValueView>,
    put: Seq<NodeValueView>,
    n: nat,
    names: Renaming,
)
    requires
        n <= put.len(),
    ensures
        nodes_are_named(nodes, put, n, names),
    decreases n,
{
    if n > 0 {
        let m = (n - 1) as nat;
        lemma_nodes_are_named(nodes, put, m, names);
        let mid = memory::upserted_nodes(nodes, put, m, names).1;
        let end = memory::upserted_nodes(nodes, put, n, names).1;
        names_once_given_stay(mid, put[m as int].id);
        lemma_extends(names, mid, end);
        assert forall|k: int| 0 <= k < n implies #[trigger] node_is_named(
            nodes,
            put,
            k,
            names,
            end,
        ) by {
            if k < m {
                assert(node_is_named(nodes, put, k, names, mid));
                lemma_stays_named(mid, end, put[k].id);
            }
        }
    }
}

// --- Relationships ----------------------------------------------------------------------------------

/// Whether a relationship and its ends need no new identities under `names`.
pub open spec fn ends_named(names: Renaming, rel: RelValueView) -> bool {
    is_named(names, rel.id) && is_named(names, rel.start) && is_named(names, rel.end)
}

/// A relationship with the identities that it and its ends have in the graph.
pub open spec fn with_names(names: Renaming, rel: RelValueView) -> RelValueView {
    RelValueView {
        id: named(names, rel.id),
        start: named(names, rel.start),
        end: named(names, rel.end),
        ..rel
    }
}

proof fn lemma_find_rel_versioned(
    rels: Seq<RelValueView>,
    rel: RelValueView,
    id: EntityIdView,
    i: int,
)
    requires
        0 <= i <= rels.len(),
    ensures
        overlay::find_rel(overlay::with_rel_version(rels, rel, i), id, i) == (if id == rel.id {
            Some(rel)
        } else {
            overlay::find_rel(rels, id, i)
        }),
        overlay::with_rel_version(rels, rel, i).len() >= rels.len(),
        forall|k: int|
            0 <= k < i ==> overlay::with_rel_version(rels, rel, i)[k] == #[trigger] rels[k],
    decreases rels.len() - i,
{
    let after = overlay::with_rel_version(rels, rel, i);
    if i >= rels.len() {
        assert(after[i] == rel);
        assert(overlay::find_rel(after, id, i + 1) is None);
    } else if rels[i].id == rel.id {
        assert(after[i] == rel);
        lemma_find_rel_same(after, rels, id, i + 1);
    } else {
        lemma_find_rel_versioned(rels, rel, id, i + 1);
        assert(after[i] == rels[i]);
    }
}

proof fn lemma_find_rel_same(
    a: Seq<RelValueView>,
    b: Seq<RelValueView>,
    id: EntityIdView,
    i: int,
)
    requires
        0 <= i,
        a.len() == b.len(),
        forall|k: int| i <= k < a.len() ==> a[k] == b[k],
    ensures
        overlay::find_rel(a, id, i) == overlay::find_rel(b, id, i),
    decreases a.len() - i,
{
    if i < a.len() {
        lemma_find_rel_same(a, b, id, i + 1);
    }
}

/// What is put for the `k`-th of `put`.
pub open spec fn placed_rel(
    rels: Seq<RelValueView>,
    put: Seq<RelValueView>,
    k: int,
    names: Renaming,
) -> RelValueView {
    let before = memory::upserted_rels(rels, put, k as nat, names).1;
    let (one, id) = before.renamed(put[k].id);
    let (two, start) = one.renamed(put[k].start);
    let (_, end) = two.renamed(put[k].end);
    RelValueView { id, start, end, ..put[k] }
}

/// Those that were there stay in their places, and change only where one with
/// their identity is put.
pub open spec fn rels_keep_places(
    rels: Seq<RelValueView>,
    put: Seq<RelValueView>,
    n: nat,
    names: Renaming,
) -> bool {
    let after = memory::upserted_rels(rels, put, n, names).0;
    &&& after.len() >= rels.len()
    &&& forall|i: int| 0 <= i < rels.len() ==> (#[trigger] after[i]).id == rels[i].id
    &&& forall|i: int|
        0 <= i < rels.len() && (forall|k: int|
            0 <= k < n ==> (#[trigger] placed_rel(rels, put, k, names)).id != rels[i].id) ==> (
        #[trigger] after[i]) == rels[i]
}

/// The last one put with an identity is found under it; under identities that
/// none was put with, what was found before.
pub open spec fn rels_are_found(
    rels: Seq<RelValueView>,
    put: Seq<RelValueView>,
    n: nat,
    names: Renaming,
) -> bool {
    let after = memory::upserted_rels(rels, put, n, names).0;
    &&& forall|k: int|
        0 <= k < n && (forall|j: int|
            k < j < n ==> (#[trigger] placed_rel(rels, put, j, names)).id != placed_rel(
                rels,
                put,
                k,
                names,
            ).id) ==> overlay::find_rel(after, (#[trigger] placed_rel(rels, put, k, names)).id, 0)
            == Some(placed_rel(rels, put, k, names))
    &&& forall|id: EntityIdView|
        (forall|k: int| 0 <= k < n ==> (#[trigger] placed_rel(rels, put, k, names)).id != id)
            ==> #[trigger] overlay::find_rel(after, id, 0) == overlay::find_rel(rels, id, 0)
}

/// Whether what is put for the `k`-th of `put` has the identities of `end`.
pub open spec fn rel_is_named(
    rels: Seq<RelValueView>,
    put: Seq<RelValueView>,
    k: int,
    names: Renaming,
    end: Renaming,
) -> bool {
    ends_named(end, put[k]) && placed_rel(rels, put, k, names) == with_names(end, put[k])
}

/// What is put has the identities that it has in the end.
pub open spec fn rels_are_named(
    rels: Seq<RelValueView>,
    put: Seq<RelValueView>,
    n: nat,
    names: Renaming,
) -> bool {
    let end = memory::upserted_rels(rels, put, n, names).1;
    &&& extends(names, end)
    &&& forall|k: int| 0 <= k < n ==> #[trigger] rel_is_named(rels, put, k, names, end)
}

/// What folding the first `n` of `put` in does: those that were there stay in
/// their places, the ones put come in place of those with their identity or at
/// the end, and of several with one identity the last counts.
pub open spec fn rels_folded(
    rels: Seq<RelValueView>,
    put: Seq<RelValueView>,
    n: nat,
    names: Renaming,
) -> bool {
    &&& rels_keep_places(rels, put, n, names)
    &&& rels_are_found(rels, put, n, names)
    &&& rels_are_named(rels, put, n, names)
}

pub(crate) proof fn lemma_rel_version_places(rels: Seq<RelValueView>, rel: RelValueView, i: int)
    requires
        0 <= i <= rels.len(),
    ensures
        ({
            let after = overlay::with_rel_version(rels, rel, i);
            &&& after.len() >= rels.len()
            &&& forall|j: int| 0 <= j < rels.len() ==> (#[trigger] after[j]).id == rels[j].id
            &&& forall|j: int|
                0 <= j < rels.len() && rels[j].id != rel.id ==> (#[trigger] after[j]) == rels[j]
        }),
    decreases rels.len() - i,
{
    if i < rels.len() && rels[i].id != rel.id {
        lemma_rel_version_places(rels, rel, i + 1);
    }
}

proof fn lemma_rels_keep_places(
    rels: Seq<RelValueView>,
    put: Seq<RelValueView>,
    n: nat,
    names: Renaming,
)
    requires
        n <= put.len(),
    ensures
        rels_keep_places(rels, put, n, names),
    decreases n,
{
    if n > 0 {
        let m = (n - 1) as nat;
        lemma_rels_keep_places(rels, put, m, names);
        let before = memory::upserted_rels(rels, put, m, names).0;
        let after = memory::upserted_rels(rels, put, n, names).0;
        let p = placed_rel(rels, put, m as int, names);
        assert(after == overlay::with_rel_version(before, p, 0));
        lemma_rel_version_places(before, p, 0);
        assert forall|i: int| 0 <= i < rels.len() implies (#[trigger] after[i]).id
            == rels[i].id by {
            assert(before[i].id == rels[i].id);
        }
        assert forall|i: int|
            0 <= i < rels.len() && (forall|k: int|
                0 <= k < n ==> (#[trigger] placed_rel(rels, put, k, names)).id != rels[i].id) implies (
        #[trigger] after[i]) == rels[i] by {
            assert(before[i] == rels[i]);
        }
    }
}

proof fn lemma_rels_are_found(
    rels: Seq<RelValueView>,
    put: Seq<RelValueView>,
    n: nat,
    names: Renaming,
)
    requires
        n <= put.len(),
    ensures
        rels_are_found(rels, put, n, names),
    decreases n,
{
    if n > 0 {
        let m = (n - 1) as nat;
        lemma_rels_are_found(rels, put, m, names);
        let before = memory::upserted_rels(rels, put, m, names).0;
        let after = memory::upserted_rels(rels, put, n, names).0;
        let p = placed_rel(rels, put, m as int, names);
        assert(after == overlay::with_rel_version(before, p, 0));
        assert forall|k: int|
            0 <= k < n && (forall|j: int|
                k < j < n ==> (#[trigger] placed_rel(rels, put, j, names)).id != placed_rel(
                    rels,
                    put,
                    k,
                    names,
                ).id) implies overlay::find_rel(
            after,
            (#[trigger] placed_rel(rels, put, k, names)).id,
            0,
        ) == Some(placed_rel(rels, put, k, names)) by {
            let q = placed_rel(rels, put, k, names);
            lemma_find_rel_versioned(before, p, q.id, 0);
            if k < m {
                assert(p.id != q.id);
            }
        }
        assert forall|id: EntityIdView|
            (forall|k: int| 0 <= k < n ==> (#[trigger] placed_rel(rels, put, k, names)).id != id) implies #[trigger] overlay::find_rel(
            after,
            id,
            0,
        ) == overlay::find_rel(rels, id, 0) by {
            lemma_find_rel_versioned(before, p, id, 0);
            assert(p.id != id);
        }
    }
}

proof fn lemma_rels_are_named(
    rels: Seq<RelValueView>,
    put: Seq<RelValueView>,
    n: nat,
    names: Renaming,
)
    requires
        n <= put.len(),
    ensures
        rels_are_named(rels, put, n, names),
    decreases n,
{
    if n > 0 {
        let m = (n - 1) as nat;
        lemma_rels_are_named(rels, put, m, names);
        let mid = memory::upserted_rels(rels, put, m, names).1;
        let end = memory::upserted_rels(rels, put, n, names).1;
        let r = put[m as int];
        let (one, _) = mid.renamed(r.id);
        let (two, _) = one.renamed(r.start);
        names_once_given_stay(mid, r.id);
        names_once_given_stay(one, r.start);
        names_once_given_stay(two, r.end);
        lemma_extends(mid, one, two);
        lemma_extends(mid, two, end);
        lemma_extends(names, mid, end);
        lemma_extends(one, two, end);
        lemma_stays_named(one, end, r.id);
        lemma_stays_named(two, end, r.start);
        assert forall|k: int| 0 <= k < n implies #[trigger] rel_is_named(
            rels,
            put,
            k,
            names,
            end,
        ) by {
            if k < m {
                assert(rel_is_named(rels, put, k, names, mid));
                lemma_stays_named(mid, end, put[k].id);
                lemma_stays_named(mid, end, put[k].start);
                lemma_stays_named(mid, end, put[k].end);
            }
        }
    }
}

// --- Both -------------------------------------------------------------------------------------------

pub(crate) proof fn lemma_survivors(nodes: Seq<NodeValueView>, gone: Seq<EntityIdView>, n: nat)
    requires
        n <= nodes.len(),
    ensures
        memory::surviving_nodes(nodes, gone, n) == nodes.take(n as int).filter(
            |x: NodeValueView| !gone.contains(x.id),
        ),
    decreases n,
{
    let stays = |x: NodeValueView| !gone.contains(x.id);
    reveal(Seq::filter);
    if n > 0 {
        lemma_survivors(nodes, gone, (n - 1) as nat);
        assert(nodes.take(n as int).drop_last() =~= nodes.take(n - 1));
        assert(nodes.take(n as int).last() == nodes[n - 1]);
    }
}

pub(crate) proof fn lemma_surviving_rels(rels: Seq<RelValueView>, gone: Seq<RelValueView>, n: nat)
    requires
        n <= rels.len(),
    ensures
        memory::surviving_rels(rels, gone, n) == rels.take(n as int).filter(
            |x: RelValueView| overlay::find_rel(gone, x.id, 0) is None,
        ),
    decreases n,
{
    reveal(Seq::filter);
    if n > 0 {
        lemma_surviving_rels(rels, gone, (n - 1) as nat);
        assert(rels.take(n as int).drop_last() =~= rels.take(n - 1));
        assert(rels.take(n as int).last() == rels[n - 1]);
    }
}

/// What folding changes into a graph does: first the deleted nodes and
/// relationships go, the others staying in order; then what was created or
/// changed comes in place of what has its identity, or at the end, and nothing
/// else changes. Overlay identities get stable ones, one for each, and the ends
/// of relationships are named as the nodes are.
pub proof fn changes_are_folded_in(m: MemoryGraphView, changes: WriteChangesView)
    ensures
        ({
            let kept_nodes = m.nodes.filter(
                |x: NodeValueView| !changes.deleted_nodes.contains(x.id),
            );
            let kept_rels = m.rels.filter(
                |x: RelValueView| overlay::find_rel(changes.deleted_rels, x.id, 0) is None,
            );
            let put_nodes = changes.upserted_nodes;
            let put_rels = changes.upserted_rels;
            let start = Renaming { given: seq![], next: m.next_id as nat };
            let (nodes, names) = memory::upserted_nodes(
                kept_nodes,
                put_nodes,
                put_nodes.len(),
                start,
            );
            let (rels, end) = memory::upserted_rels(kept_rels, put_rels, put_rels.len(), names);
            &&& m.applied(changes).nodes == nodes
            &&& m.applied(changes).rels == rels
            &&& nodes_folded(kept_nodes, put_nodes, put_nodes.len(), start)
            &&& rels_folded(kept_rels, put_rels, put_rels.len(), names)
            &&& forall|k: int|
                0 <= k < put_nodes.len() ==> (#[trigger] placed_node(
                    kept_nodes,
                    put_nodes,
                    k,
                    start,
                )).id == named(end, put_nodes[k].id)
        }),
{
    lemma_survivors(m.nodes, changes.deleted_nodes, m.nodes.len());
    assert(m.nodes.take(m.nodes.len() as int) =~= m.nodes);
    lemma_surviving_rels(m.rels, changes.deleted_rels, m.rels.len());
    assert(m.rels.take(m.rels.len() as int) =~= m.rels);
    let kept_nodes = memory::surviving_nodes(m.nodes, changes.deleted_nodes, m.nodes.len());
    let kept_rels = memory::surviving_rels(m.rels, changes.deleted_rels, m.rels.len());
    let put_nodes = changes.upserted_nodes;
    let put_rels = changes.upserted_rels;
    let start = Renaming { given: seq![], next: m.next_id as nat };
    lemma_nodes_keep_places(kept_nodes, put_nodes, put_nodes.len(), start);
    lemma_nodes_are_found(kept_nodes, put_nodes, put_nodes.len(), start);
    lemma_nodes_are_named(kept_nodes, put_nodes, put_nodes.len(), start);
    let names = memory::upserted_nodes(kept_nodes, put_nodes, put_nodes.len(), start).1;
    lemma_rels_keep_places(kept_rels, put_rels, put_rels.len(), names);
    lemma_rels_are_found(kept_rels, put_rels, put_rels.len(), names);
    lemma_rels_are_named(kept_rels, put_rels, put_rels.len(), names);
    let end = memory::upserted_rels(kept_rels, put_rels, put_rels.len(), names).1;
    assert forall|k: int| 0 <= k < put_nodes.len() implies (#[trigger] placed_node(
        kept_nodes,
        put_nodes,
        k,
        start,
    )).id == named(end, put_nodes[k].id) by {
        assert(node_is_named(kept_nodes, put_nodes, k, start, names));
        lemma_stays_named(names, end, put_nodes[k].id);
    }
}

} // verus!
