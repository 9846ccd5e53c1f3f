//! What becomes of every node and relationship when a query's changes are folded
//! into a graph in memory, and which identities the created ones get.

use vstd::prelude::*;

use crate::exec::apply_laws;
use crate::exec::fold_laws;
use crate::exec::ids;
use crate::exec::memory::{self, Renaming};
use crate::exec::overlay;
use crate::exec::overlay_laws;
use crate::exec::source::{self, MemoryGraphView, WriteChangesView};
use crate::exec::value::{EntityIdView, NodeValueView, RelValueView};

verus! {

// --- Elements ---------------------------------------------------------------------------------------

/// The identities that folding changes in gives, all told.
pub open spec fn names_given(m: MemoryGraphView, changes: WriteChangesView) -> Renaming {
    let start = Renaming { given: seq![], next: m.next_id as nat };
    let names = memory::upserted_nodes(
        kept_nodes(m, changes),
        changes.upserted_nodes,
        changes.upserted_nodes.len(),
        start,
    ).1;
    memory::upserted_rels(
        kept_rels(m, changes),
        changes.upserted_rels,
        changes.upserted_rels.len(),
        names,
    ).1
}

/// The nodes of a graph that are not deleted, in order.
pub open spec fn kept_nodes(m: MemoryGraphView, changes: WriteChangesView) -> Seq<NodeValueView> {
    m.nodes.filter(|x: NodeValueView| !changes.deleted_nodes.contains(x.id))
}

/// The relationships of a graph that are not deleted, in order.
pub open spec fn kept_rels(m: MemoryGraphView, changes: WriteChangesView) -> Seq<RelValueView> {
    m.rels.filter(|x: RelValueView| overlay::find_rel(changes.deleted_rels, x.id, 0) is None)
}

/// The `k`-th created or changed node as the graph has it.
pub open spec fn put_node(m: MemoryGraphView, changes: WriteChangesView, k: int) -> NodeValueView {
    let node = changes.upserted_nodes[k];
    NodeValueView { id: fold_laws::named(names_given(m, changes), node.id), ..node }
}

/// The `k`-th created or changed relationship as the graph has it: its ends are
/// named as the nodes are.
pub open spec fn put_rel(m: MemoryGraphView, changes: WriteChangesView, k: int) -> RelValueView {
    fold_laws::with_names(names_given(m, changes), changes.upserted_rels[k])
}

/// Whether a node with an identity is created or changed.
pub open spec fn node_is_put(
    m: MemoryGraphView,
    changes: WriteChangesView,
    id: EntityIdView,
) -> bool {
    exists|k: int|
        0 <= k < changes.upserted_nodes.len() && (#[trigger] put_node(m, changes, k)).id == id
}

/// Whether a relationship with an identity is created or changed.
pub open spec fn rel_is_put(
    m: MemoryGraphView,
    changes: WriteChangesView,
    id: EntityIdView,
) -> bool {
    exists|k: int|
        0 <= k < changes.upserted_rels.len() && (#[trigger] put_rel(m, changes, k)).id == id
}

proof fn lemma_placed(m: MemoryGraphView, changes: WriteChangesView)
    ensures
        ({
            let start = Renaming { given: seq![], next: m.next_id as nat };
            let kept = kept_nodes(m, changes);
            let put = changes.upserted_nodes;
            let names = memory::upserted_nodes(kept, put, put.len(), start).1;
            &&& forall|k: int|
                0 <= k < put.len() ==> #[trigger] fold_laws::placed_node(kept, put, k, start)
                    == put_node(m, changes, k)
            &&& forall|k: int|
                0 <= k < changes.upserted_rels.len() ==> #[trigger] fold_laws::placed_rel(
                    kept_rels(m, changes),
                    changes.upserted_rels,
                    k,
                    names,
                ) == put_rel(m, changes, k)
        }),
{
    fold_laws::changes_are_folded_in(m, changes);
    let start = Renaming { given: seq![], next: m.next_id as nat };
    let kept = kept_nodes(m, changes);
    let put = changes.upserted_nodes;
    let names = memory::upserted_nodes(kept, put, put.len(), start).1;
    assert forall|k: int| 0 <= k < put.len() implies #[trigger] fold_laws::placed_node(
        kept,
        put,
        k,
        start,
    ) == put_node(m, changes, k) by {
        assert(fold_laws::node_is_named(kept, put, k, start, names));
    }
    assert forall|k: int|
        0 <= k < changes.upserted_rels.len() implies #[trigger] fold_laws::placed_rel(
        kept_rels(m, changes),
        changes.upserted_rels,
        k,
        names,
    ) == put_rel(m, changes, k) by {
        assert(fold_laws::rel_is_named(
            kept_rels(m, changes),
            changes.upserted_rels,
            k,
            names,
            names_given(m, changes),
        ));
    }
}

proof fn lemma_find_kept(nodes: Seq<NodeValueView>, gone: Seq<EntityIdView>, id: EntityIdView)
    ensures
        source::find_node(nodes.filter(|x: NodeValueView| !gone.contains(x.id)), id, 0) == (
        if gone.contains(id) {
            None
        } else {
            source::find_node(nodes, id, 0)
        }),
    decreases nodes.len(),
{
    reveal(Seq::filter);
    let stays = |x: NodeValueView| !gone.contains(x.id);
    if nodes.len() > 0 {
        let rest = nodes.drop_last();
        lemma_find_kept(rest, gone, id);
        assert(nodes =~= rest.push(nodes.last()));
        overlay_laws::lemma_find_pushed(rest, nodes.last(), id, 0);
        overlay_laws::lemma_find_pushed(rest.filter(stays), nodes.last(), id, 0);
    }
}

proof fn lemma_find_rel_pushed(
    rels: Seq<RelValueView>,
    rel: RelValueView,
    id: EntityIdView,
    i: int,
)
    requires
        0 <= i <= rels.len(),
    ensures
        overlay::find_rel(rels.push(rel), id, i) == (match overlay::find_rel(rels, id, i) {
            Some(r) => Some(r),
            None => if rel.id == id {
                Some(rel)
            } else {
                None
            },
        }),
    decreases rels.len() - i,
{
    if i < rels.len() {
        assert(rels.push(rel)[i] == rels[i]);
        lemma_find_rel_pushed(rels, rel, id, i + 1);
    } else {
        assert(rels.push(rel)[i] == rel);
        assert(overlay::find_rel(rels.push(rel), id, i + 1) is None);
    }
}

proof fn lemma_find_kept_rel(rels: Seq<RelValueView>, gone: Seq<RelValueView>, id: EntityIdView)
    ensures
        overlay::find_rel(
            rels.filter(|x: RelValueView| overlay::find_rel(gone, x.id, 0) is None),
            id,
            0,
        ) == (if overlay::find_rel(gone, id, 0) is Some {
            None
        } else {
            overlay::find_rel(rels, id, 0)
        }),
    decreases rels.len(),
{
    reveal(Seq::filter);
    let stays = |x: RelValueView| overlay::find_rel(gone, x.id, 0) is None;
    if rels.len() > 0 {
        let rest = rels.drop_last();
        lemma_find_kept_rel(rest, gone, id);
        assert(rels =~= rest.push(rels.last()));
        lemma_find_rel_pushed(rest, rels.last(), id, 0);
        lemma_find_rel_pushed(rest.filter(stays), rels.last(), id, 0);
    }
}

/// What an identity stands for once changes are folded in. What is created or
/// changed is found as it is then, of several versions the last; what is deleted
/// and not put again is gone; everything else is found as it was.
pub proof fn every_element_is_found_as_it_is(
    m: MemoryGraphView,
    changes: WriteChangesView,
    id: EntityIdView,
    k: int,
)
    ensures
        !node_is_put(m, changes, id) ==> source::find_node(m.applied(changes).nodes, id, 0) == (
        if changes.deleted_nodes.contains(id) {
            None
        } else {
            source::find_node(m.nodes, id, 0)
        }),
        !rel_is_put(m, changes, id) ==> overlay::find_rel(m.applied(changes).rels, id, 0) == (
        if overlay::find_rel(changes.deleted_rels, id, 0) is Some {
            None
        } else {
            overlay::find_rel(m.rels, id, 0)
        }),
        0 <= k < changes.upserted_nodes.len() && (forall|j: int|
            k < j < changes.upserted_nodes.len() ==> (#[trigger] put_node(m, changes, j)).id
                != put_node(m, changes, k).id) ==> source::find_node(
            m.applied(changes).nodes,
            put_node(m, changes, k).id,
            0,
        ) == Some(put_node(m, changes, k)),
        0 <= k < changes.upserted_rels.len() && (forall|j: int|
            k < j < changes.upserted_rels.len() ==> (#[trigger] put_rel(m, changes, j)).id
                != put_rel(m, changes, k).id) ==> overlay::find_rel(
            m.applied(changes).rels,
            put_rel(m, changes, k).id,
            0,
        ) == Some(put_rel(m, changes, k)),
{
    fold_laws::changes_are_folded_in(m, changes);
    lemma_placed(m, changes);
    lemma_find_kept(m.nodes, changes.deleted_nodes, id);
    lemma_find_kept_rel(m.rels, changes.deleted_rels, id);
    let start = Renaming { given: seq![], next: m.next_id as nat };
    let kept = kept_nodes(m, changes);
    let put = changes.upserted_nodes;
    let (nodes, names) = memory::upserted_nodes(kept, put, put.len(), start);
    let keeps = kept_rels(m, changes);
    let puts = changes.upserted_rels;
    if !node_is_put(m, changes, id) {
        assert forall|j: int| 0 <= j < put.len() implies (#[trigger] fold_laws::placed_node(
            kept,
            put,
            j,
            start,
        )).id != id by {
            assert(put_node(m, changes, j).id != id);
        }
        assert(source::find_node(nodes, id, 0) == source::find_node(kept, id, 0));
    }
    if !rel_is_put(m, changes, id) {
        assert forall|j: int| 0 <= j < puts.len() implies (#[trigger] fold_laws::placed_rel(
            keeps,
            puts,
            j,
            names,
        )).id != id by {
            assert(put_rel(m, changes, j).id != id);
        }
        let rels = memory::upserted_rels(keeps, puts, puts.len(), names).0;
        assert(overlay::find_rel(rels, id, 0) == overlay::find_rel(keeps, id, 0));
    }
    if 0 <= k < put.len() {
        assert(fold_laws::placed_node(kept, put, k, start) == put_node(m, changes, k));
        if forall|j: int|
            k < j < put.len() ==> (#[trigger] put_node(m, changes, j)).id != put_node(
                m,
                changes,
                k,
            ).id {
            assert forall|j: int| k < j < put.len() implies (#[trigger] fold_laws::placed_node(
                kept,
                put,
                j,
                start,
            )).id != fold_laws::placed_node(kept, put, k, start).id by {
                assert(put_node(m, changes, j).id != put_node(m, changes, k).id);
            }
        }
    }
    if 0 <= k < puts.len() {
        assert(fold_laws::placed_rel(keeps, puts, k, names) == put_rel(m, changes, k));
        if forall|j: int|
            k < j < puts.len() ==> (#[trigger] put_rel(m, changes, j)).id != put_rel(
                m,
                changes,
                k,
            ).id {
            assert forall|j: int| k < j < puts.len() implies (#[trigger] fold_laws::placed_rel(
                keeps,
                puts,
                j,
                names,
            )).id != fold_laws::placed_rel(keeps, puts, k, names).id by {
                assert(put_rel(m, changes, j).id != put_rel(m, changes, k).id);
            }
        }
    }
}

proof fn lemma_nodes_behind(
    nodes: Seq<NodeValueView>,
    put: Seq<NodeValueView>,
    n: nat,
    names: Renaming,
    i: int,
) -> (k: int)
    requires
        n <= put.len(),
        nodes.len() <= i < memory::upserted_nodes(nodes, put, n, names).0.len(),
    ensures
        0 <= k < n,
        memory::upserted_nodes(nodes, put, n, names).0[i].id == fold_laws::placed_node(
            nodes,
            put,
            k,
            names,
        ).id,
    decreases n,
{
    let m = (n - 1) as nat;
    let before = memory::upserted_nodes(nodes, put, m, names).0;
    let p = fold_laws::placed_node(nodes, put, m as int, names);
    fold_laws::lemma_version_places(before, p, 0);
    lemma_version_len(before, p, 0);
    if i < before.len() {
        lemma_nodes_behind(nodes, put, m, names, i)
    } else {
        m as int
    }
}

proof fn lemma_version_len(nodes: Seq<NodeValueView>, node: NodeValueView, i: int)
    requires
        0 <= i <= nodes.len(),
    ensures
        ({
            let after = overlay::with_version(nodes, node, i);
            after.len() == nodes.len() || (after.len() == nodes.len() + 1 && after[nodes.len() as int]
                == node)
        }),
    decreases nodes.len() - i,
{
    if i < nodes.len() && nodes[i].id != node.id {
        lemma_version_len(nodes, node, i + 1);
    }
}

proof fn lemma_rels_behind(
    rels: Seq<RelValueView>,
    put: Seq<RelValueView>,
    n: nat,
    names: Renaming,
    i: int,
) -> (k: int)
    requires
        n <= put.len(),
        rels.len() <= i < memory::upserted_rels(rels, put, n, names).0.len(),
    ensures
        0 <= k < n,
        memory::upserted_rels(rels, put, n, names).0[i].id == fold_laws::placed_rel(
            rels,
            put,
            k,
            names,
        ).id,
    decreases n,
{
    let m = (n - 1) as nat;
    let before = memory::upserted_rels(rels, put, m, names).0;
    let p = fold_laws::placed_rel(rels, put, m as int, names);
    fold_laws::lemma_rel_version_places(before, p, 0);
    lemma_rel_version_len(before, p, 0);
    if i < before.len() {
        lemma_rels_behind(rels, put, m, names, i)
    } else {
        m as int
    }
}

proof fn lemma_rel_version_len(rels: Seq<RelValueView>, rel: RelValueView, i: int)
    requires
        0 <= i <= rels.len(),
    ensures
        ({
            let after = overlay::with_rel_version(rels, rel, i);
            after.len() == rels.len() || (after.len() == rels.len() + 1 && after[rels.len() as int]
                == rel)
        }),
    decreases rels.len() - i,
{
    if i < rels.len() && rels[i].id != rel.id {
        lemma_rel_version_len(rels, rel, i + 1);
    }
}

/// Folding changes in keeps the order: what is not deleted stands where it stood
/// among the others, as it was unless it is changed, and behind it stands only
/// what is created or changed.
pub proof fn elements_stay_in_order(m: MemoryGraphView, changes: WriteChangesView)
    ensures
        ({
            let after = m.applied(changes);
            let nodes = kept_nodes(m, changes);
            let rels = kept_rels(m, changes);
            &&& after.nodes.len() >= nodes.len()
            &&& after.rels.len() >= rels.len()
            &&& forall|i: int|
                0 <= i < nodes.len() ==> (#[trigger] after.nodes[i]).id == nodes[i].id && (
                node_is_put(m, changes, nodes[i].id) || after.nodes[i] == nodes[i])
            &&& forall|i: int|
                0 <= i < rels.len() ==> (#[trigger] after.rels[i]).id == rels[i].id && (rel_is_put(
                    m,
                    changes,
                    rels[i].id,
                ) || after.rels[i] == rels[i])
            &&& forall|i: int|
                nodes.len() <= i < after.nodes.len() ==> node_is_put(
                    m,
                    changes,
                    (#[trigger] after.nodes[i]).id,
                )
            &&& forall|i: int|
                rels.len() <= i < after.rels.len() ==> rel_is_put(
                    m,
                    changes,
                    (#[trigger] after.rels[i]).id,
                )
        }),
{
    fold_laws::changes_are_folded_in(m, changes);
    lemma_placed(m, changes);
    let after = m.applied(changes);
    let start = Renaming { given: seq![], next: m.next_id as nat };
    let kept = kept_nodes(m, changes);
    let put = changes.upserted_nodes;
    let names = memory::upserted_nodes(kept, put, put.len(), start).1;
    let keeps = kept_rels(m, changes);
    let puts = changes.upserted_rels;
    assert forall|i: int| 0 <= i < kept.len() implies (#[trigger] after.nodes[i]).id == kept[i].id
        && (node_is_put(m, changes, kept[i].id) || after.nodes[i] == kept[i]) by {
        if !node_is_put(m, changes, kept[i].id) {
            assert forall|j: int| 0 <= j < put.len() implies (#[trigger] fold_laws::placed_node(
                kept,
                put,
                j,
                start,
            )).id != kept[i].id by {
                assert(put_node(m, changes, j).id != kept[i].id);
            }
        }
    }
    assert forall|i: int| 0 <= i < keeps.len() implies (#[trigger] after.rels[i]).id == keeps[i].id
        && (rel_is_put(m, changes, keeps[i].id) || after.rels[i] == keeps[i]) by {
        if !rel_is_put(m, changes, keeps[i].id) {
            assert forall|j: int| 0 <= j < puts.len() implies (#[trigger] fold_laws::placed_rel(
                keeps,
                puts,
                j,
                names,
            )).id != keeps[i].id by {
                assert(put_rel(m, changes, j).id != keeps[i].id);
            }
        }
    }
    assert forall|i: int| kept.len() <= i < after.nodes.len() implies node_is_put(
        m,
        changes,
        (#[trigger] after.nodes[i]).id,
    ) by {
        let k = lemma_nodes_behind(kept, put, put.len(), start, i);
        assert(put_node(m, changes, k) == fold_laws::placed_node(kept, put, k, start));
    }
    assert forall|i: int| keeps.len() <= i < after.rels.len() implies rel_is_put(
        m,
        changes,
        (#[trigger] after.rels[i]).id,
    ) by {
        let k = lemma_rels_behind(keeps, puts, puts.len(), names, i);
        assert(put_rel(m, changes, k) == fold_laws::placed_rel(keeps, puts, k, names));
    }
}

// --- Identities -------------------------------------------------------------------------------------

/// Whether the identities of a renaming are the stable ones from `first` on, in
/// turn.
pub open spec fn counts_from(names: Renaming, first: nat) -> bool {
    &&& names.next == first + names.given.len()
    &&& forall|i: int|
        0 <= i < names.given.len() ==> (#[trigger] names.given[i]).1 == memory::stable_id(
            (first + i) as nat,
        )
}

proof fn lemma_counts(names: Renaming, id: EntityIdView, first: nat)
    requires
        counts_from(names, first),
    ensures
        counts_from(names.renamed(id).0, first),
        names.next <= names.renamed(id).0.next,
{
}

proof fn lemma_nodes_count(
    nodes: Seq<NodeValueView>,
    put: Seq<NodeValueView>,
    n: nat,
    names: Renaming,
    first: nat,
)
    requires
        n <= put.len(),
        counts_from(names, first),
    ensures
        counts_from(memory::upserted_nodes(nodes, put, n, names).1, first),
    decreases n,
{
    if n > 0 {
        lemma_nodes_count(nodes, put, (n - 1) as nat, names, first);
        let mid = memory::upserted_nodes(nodes, put, (n - 1) as nat, names).1;
        lemma_counts(mid, put[n - 1].id, first);
    }
}

proof fn lemma_rels_count(
    rels: Seq<RelValueView>,
    put: Seq<RelValueView>,
    n: nat,
    names: Renaming,
    first: nat,
)
    requires
        n <= put.len(),
        counts_from(names, first),
    ensures
        counts_from(memory::upserted_rels(rels, put, n, names).1, first),
    decreases n,
{
    if n > 0 {
        lemma_rels_count(rels, put, (n - 1) as nat, names, first);
        let mid = memory::upserted_rels(rels, put, (n - 1) as nat, names).1;
        let r = put[n - 1];
        lemma_counts(mid, r.id, first);
        let (one, _) = mid.renamed(r.id);
        lemma_counts(one, r.start, first);
        let (two, _) = one.renamed(r.start);
        lemma_counts(two, r.end, first);
    }
}

proof fn lemma_given_at(given: Seq<(EntityIdView, EntityIdView)>, id: EntityIdView, i: int) -> (k:
    int)
    requires
        0 <= i,
        memory::given_to(given, id, i) is Some,
    ensures
        i <= k < given.len(),
        given[k].0 == id,
        memory::given_to(given, id, i) == Some(given[k].1),
    decreases given.len() - i,
{
    if given[i].0 == id {
        i
    } else {
        lemma_given_at(given, id, i + 1)
    }
}

/// Whether an identity is none that folding changes in may give out from `next`
/// on, and none of an overlay.
pub open spec fn is_settled(id: EntityIdView, next: nat) -> bool {
    &&& !ids::is_overlay_id(id)
    &&& forall|k: nat| id == #[trigger] memory::stable_id(k) ==> k < next
}

/// Whether every element of a graph has a settled identity: so it is with every
/// graph that was built by adding elements and folding changes in.
pub open spec fn is_settled_graph(m: MemoryGraphView) -> bool {
    &&& forall|i: int|
        0 <= i < m.nodes.len() ==> is_settled((#[trigger] m.nodes[i]).id, m.next_id as nat)
    &&& forall|i: int|
        0 <= i < m.rels.len() ==> is_settled((#[trigger] m.rels[i]).id, m.next_id as nat)
}

/// Whether what changes put is created, or changes something settled.
pub open spec fn puts_settled(m: MemoryGraphView, changes: WriteChangesView) -> bool {
    &&& forall|k: int|
        0 <= k < changes.upserted_nodes.len() ==> ids::is_overlay_id(
            (#[trigger] changes.upserted_nodes[k]).id,
        ) || is_settled(changes.upserted_nodes[k].id, m.next_id as nat)
    &&& forall|k: int|
        0 <= k < changes.upserted_rels.len() ==> ids::is_overlay_id(
            (#[trigger] changes.upserted_rels[k]).id,
        ) || is_settled(changes.upserted_rels[k].id, m.next_id as nat)
}

/// A graph without elements is settled, and adding an element leaves it so.
pub proof fn added_elements_are_settled(m: MemoryGraphView, node: NodeValueView, rel: RelValueView)
    requires
        is_settled_graph(m),
        node.id == memory::node_id(m.nodes.len()),
        rel.id == memory::rel_id(m.rels.len()),
    ensures
        is_settled_graph(MemoryGraphView { nodes: seq![], rels: seq![], next_id: 0 }),
        is_settled_graph(MemoryGraphView { nodes: m.nodes.push(node), ..m }),
        is_settled_graph(MemoryGraphView { rels: m.rels.push(rel), ..m }),
{
    assert(node.id.bytes[0] == 110);
    assert(rel.id.bytes[0] == 114);
    assert forall|k: nat| #[trigger] memory::stable_id(k) != node.id && memory::stable_id(k)
        != rel.id by {
        assert(memory::stable_id(k).bytes[0] == 115);
    }
}

proof fn lemma_counted(m: MemoryGraphView, changes: WriteChangesView)
    ensures
        counts_from(names_given(m, changes), m.next_id as nat),
{
    let start = Renaming { given: seq![], next: m.next_id as nat };
    let kept = kept_nodes(m, changes);
    let put = changes.upserted_nodes;
    lemma_nodes_count(kept, put, put.len(), start, m.next_id as nat);
    let names = memory::upserted_nodes(kept, put, put.len(), start).1;
    let puts = changes.upserted_rels;
    lemma_rels_count(kept_rels(m, changes), puts, puts.len(), names, m.next_id as nat);
}

proof fn lemma_named(m: MemoryGraphView, changes: WriteChangesView, id: EntityIdView) -> (k: nat)
    requires
        ids::is_overlay_id(id),
        fold_laws::is_named(names_given(m, changes), id),
    ensures
        m.next_id <= k < names_given(m, changes).next,
        fold_laws::named(names_given(m, changes), id) == memory::stable_id(k),
        names_given(m, changes).given[k - m.next_id].0 == id,
{
    lemma_counted(m, changes);
    let names = names_given(m, changes);
    let i = lemma_given_at(names.given, id, 0);
    (m.next_id + i) as nat
}

proof fn lemma_all_named(m: MemoryGraphView, changes: WriteChangesView)
    ensures
        forall|k: int|
            0 <= k < changes.upserted_nodes.len() ==> fold_laws::is_named(
                names_given(m, changes),
                (#[trigger] changes.upserted_nodes[k]).id,
            ),
        forall|k: int|
            0 <= k < changes.upserted_rels.len() ==> fold_laws::ends_named(
                names_given(m, changes),
                #[trigger] changes.upserted_rels[k],
            ),
{
    fold_laws::changes_are_folded_in(m, changes);
    let start = Renaming { given: seq![], next: m.next_id as nat };
    let kept = kept_nodes(m, changes);
    let put = changes.upserted_nodes;
    let names = memory::upserted_nodes(kept, put, put.len(), start).1;
    let keeps = kept_rels(m, changes);
    let puts = changes.upserted_rels;
    let end = names_given(m, changes);
    assert forall|k: int| 0 <= k < put.len() implies fold_laws::is_named(
        end,
        (#[trigger] put[k]).id,
    ) by {
        assert(fold_laws::node_is_named(kept, put, k, start, names));
    }
    assert forall|k: int| 0 <= k < puts.len() implies fold_laws::ends_named(
        end,
        #[trigger] puts[k],
    ) by {
        assert(fold_laws::rel_is_named(keeps, puts, k, names, end));
    }
}

proof fn lemma_stable(k: nat, next: nat)
    requires
        k < next,
    ensures
        is_settled(memory::stable_id(k), next),
{
    assert(memory::stable_id(k).bytes[0] == 115);
    assert forall|j: nat| memory::stable_id(k) == #[trigger] memory::stable_id(j) implies j
        < next by {
        ids::numbered_ids_are_distinct(115, k, j);
    }
}

/// A created element is stored under an identity that no element of the graph
/// had, in this or any earlier state of it; different ones get different
/// identities; and the ends of relationships that are created nodes become those
/// nodes' identities.
pub proof fn created_elements_get_new_identities(
    m: MemoryGraphView,
    changes: WriteChangesView,
    id: EntityIdView,
    other: EntityIdView,
)
    requires
        m.next_id + memory::at_most_new(changes) <= u64::MAX,
        is_settled_graph(m),
        ids::is_overlay_id(id),
        fold_laws::is_named(names_given(m, changes), id),
    ensures
        ({
            let new = fold_laws::named(names_given(m, changes), id);
            &&& exists|k: nat|
                m.next_id <= k < names_given(m, changes).next && new == #[trigger] memory::stable_id(
                    k,
                )
            &&& forall|i: int| 0 <= i < m.nodes.len() ==> (#[trigger] m.nodes[i]).id != new
            &&& forall|i: int| 0 <= i < m.rels.len() ==> (#[trigger] m.rels[i]).id != new
            &&& ids::is_overlay_id(other) && other != id && fold_laws::is_named(
                names_given(m, changes),
                other,
            ) ==> fold_laws::named(names_given(m, changes), other) != new
        }),
        forall|k: int|
            0 <= k < changes.upserted_nodes.len() ==> fold_laws::is_named(
                names_given(m, changes),
                (#[trigger] changes.upserted_nodes[k]).id,
            ),
        forall|k: int|
            0 <= k < changes.upserted_rels.len() ==> fold_laws::ends_named(
                names_given(m, changes),
                #[trigger] changes.upserted_rels[k],
            ),
{
    lemma_all_named(m, changes);
    let new = fold_laws::named(names_given(m, changes), id);
    let k = lemma_named(m, changes, id);
    assert(new == memory::stable_id(k));
    assert forall|i: int| 0 <= i < m.nodes.len() implies (#[trigger] m.nodes[i]).id != new by {
        assert(is_settled(m.nodes[i].id, m.next_id as nat));
    }
    assert forall|i: int| 0 <= i < m.rels.len() implies (#[trigger] m.rels[i]).id != new by {
        assert(is_settled(m.rels[i].id, m.next_id as nat));
    }
    if ids::is_overlay_id(other) && other != id && fold_laws::is_named(
        names_given(m, changes),
        other,
    ) {
        let j = lemma_named(m, changes, other);
        if memory::stable_id(j) == memory::stable_id(k) {
            ids::numbered_ids_are_distinct(115, j, k);
        }
    }
}

proof fn lemma_put_settled(m: MemoryGraphView, changes: WriteChangesView, id: EntityIdView)
    requires
        fold_laws::is_named(names_given(m, changes), id),
        ids::is_overlay_id(id) || is_settled(id, m.next_id as nat),
    ensures
        is_settled(fold_laws::named(names_given(m, changes), id), names_given(m, changes).next),
{
    lemma_counted(m, changes);
    if ids::is_overlay_id(id) {
        let k = lemma_named(m, changes, id);
        lemma_stable(k, names_given(m, changes).next);
    }
}

/// Folding changes in leaves a settled graph settled, so identities that were
/// given out are not given out again.
pub proof fn folding_keeps_a_graph_settled(m: MemoryGraphView, changes: WriteChangesView)
    requires
        m.next_id + memory::at_most_new(changes) <= u64::MAX,
        is_settled_graph(m),
        puts_settled(m, changes),
    ensures
        is_settled_graph(m.applied(changes)),
        m.applied(changes).next_id == names_given(m, changes).next,
{
    let after = m.applied(changes);
    fold_laws::changes_are_folded_in(m, changes);
    elements_stay_in_order(m, changes);
    lemma_all_named(m, changes);
    lemma_counted(m, changes);
    apply_laws::given_identities_are_never_reused(m, changes);
    lemma_next(m, changes);
    let next = names_given(m, changes).next;
    assert forall|i: int| 0 <= i < after.nodes.len() implies is_settled(
        (#[trigger] after.nodes[i]).id,
        next,
    ) by {
        if node_is_put(m, changes, after.nodes[i].id) {
            let k = choose|k: int|
                0 <= k < changes.upserted_nodes.len() && (#[trigger] put_node(m, changes, k)).id
                    == after.nodes[i].id;
            assert(ids::is_overlay_id(changes.upserted_nodes[k].id) || is_settled(
                changes.upserted_nodes[k].id,
                m.next_id as nat,
            ));
            lemma_put_settled(m, changes, changes.upserted_nodes[k].id);
        } else {
            let kept = kept_nodes(m, changes);
            let j = lemma_from(m.nodes, |x: NodeValueView| !changes.deleted_nodes.contains(x.id), i);
            assert(m.nodes[j] == kept[i]);
            assert(is_settled(m.nodes[j].id, m.next_id as nat));
        }
    }
    assert forall|i: int| 0 <= i < after.rels.len() implies is_settled(
        (#[trigger] after.rels[i]).id,
        next,
    ) by {
        if rel_is_put(m, changes, after.rels[i].id) {
            let k = choose|k: int|
                0 <= k < changes.upserted_rels.len() && (#[trigger] put_rel(m, changes, k)).id
                    == after.rels[i].id;
            assert(ids::is_overlay_id(changes.upserted_rels[k].id) || is_settled(
                changes.upserted_rels[k].id,
                m.next_id as nat,
            ));
            assert(fold_laws::ends_named(names_given(m, changes), changes.upserted_rels[k]));
            lemma_put_settled(m, changes, changes.upserted_rels[k].id);
        } else {
            let kept = kept_rels(m, changes);
            let j = lemma_from(
                m.rels,
                |x: RelValueView| overlay::find_rel(changes.deleted_rels, x.id, 0) is None,
                i,
            );
            assert(m.rels[j] == kept[i]);
            assert(is_settled(m.rels[j].id, m.next_id as nat));
        }
    }
}

proof fn lemma_from<A>(s: Seq<A>, keeps: spec_fn(A) -> bool, i: int) -> (j: int)
    requires
        0 <= i < s.filter(keeps).len(),
    ensures
        0 <= j < s.len(),
        s[j] == s.filter(keeps)[i],
    decreases s.len(),
{
    reveal(Seq::filter);
    let rest = s.drop_last();
    if i < rest.filter(keeps).len() {
        let j = lemma_from(rest, keeps, i);
        assert(s[j] == rest[j]);
        j
    } else {
        s.len() - 1
    }
}

proof fn lemma_next(m: MemoryGraphView, changes: WriteChangesView)
    requires
        m.next_id + memory::at_most_new(changes) <= u64::MAX,
    ensures
        m.applied(changes).next_id == names_given(m, changes).next,
{
    fold_laws::lemma_survivors(m.nodes, changes.deleted_nodes, m.nodes.len());
    assert(m.nodes.take(m.nodes.len() as int) =~= m.nodes);
    fold_laws::lemma_surviving_rels(m.rels, changes.deleted_rels, m.rels.len());
    assert(m.rels.take(m.rels.len() as int) =~= m.rels);
    let first = m.next_id as nat;
    let start = Renaming { given: seq![], next: first };
    let kept = kept_nodes(m, changes);
    let put = changes.upserted_nodes;
    apply_laws::lemma_nodes_in_turn(kept, put, put.len(), start, first);
    let names = memory::upserted_nodes(kept, put, put.len(), start).1;
    let puts = changes.upserted_rels;
    apply_laws::lemma_rels_in_turn(
        kept_rels(m, changes),
        puts,
        puts.len(),
        names,
        first,
    );
}

} // verus!
