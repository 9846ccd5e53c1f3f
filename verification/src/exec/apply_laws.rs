//! What folding a query's changes into a graph in memory keeps.

use vstd::prelude::*;

use crate::exec::ids;
use crate::exec::memory::{self, Renaming};
use crate::exec::overlay::{self, OverlayView};
use crate::exec::overlay_laws;
use crate::exec::source::{self, MemoryGraphView, WriteChangesView};
use crate::exec::store_source;
use crate::exec::value::{EntityIdView, NodeValueView, RelValueView};

verus! {

/// Whether an identity is one that folding changes in may give out from `next`
/// on.
pub open spec fn may_be_given(id: EntityIdView, next: nat) -> bool {
    exists|k: nat| next <= k && id == #[trigger] memory::stable_id(k)
}

/// Whether every identity of a renaming was given out from `first` on.
spec fn is_fresh(names: Renaming, first: nat) -> bool {
    &&& first <= names.next
    &&& forall|i: int|
        0 <= i < names.given.len() ==> may_be_given((#[trigger] names.given[i]).1, first)
}

proof fn lemma_given(names: Renaming, id: EntityIdView, first: nat, i: int)
    requires
        is_fresh(names, first),
        0 <= i,
    ensures
        memory::given_to(names.given, id, i) matches Some(known) ==> may_be_given(known, first),
    decreases names.given.len() - i,
{
    if i < names.given.len() {
        assert(may_be_given(names.given[i].1, first));
        lemma_given(names, id, first, i + 1);
    }
}

proof fn lemma_renamed(names: Renaming, id: EntityIdView, first: nat)
    requires
        is_fresh(names, first),
    ensures
        is_fresh(names.renamed(id).0, first),
        ids::is_overlay_id(id) ==> may_be_given(names.renamed(id).1, first),
        !ids::is_overlay_id(id) ==> names.renamed(id).1 == id,
{
    if ids::is_overlay_id(id) {
        lemma_given(names, id, first, 0);
        if memory::given_to(names.given, id, 0) is None {
            let after = names.renamed(id).0;
            assert(may_be_given(memory::stable_id(names.next), first));
            assert forall|i: int| 0 <= i < after.given.len() implies may_be_given(
                (#[trigger] after.given[i]).1,
                first,
            ) by {
                if i < names.given.len() {
                    assert(after.given[i] == names.given[i]);
                    assert(may_be_given(names.given[i].1, first));
                }
            }
        }
    }
}

/// The last of the first `n` nodes that has an identity.
spec fn last_put(put: Seq<NodeValueView>, id: EntityIdView, n: nat) -> Option<NodeValueView>
    decreases n,
{
    if n == 0 || n > put.len() {
        None
    } else if put[n - 1].id == id {
        Some(put[n - 1])
    } else {
        last_put(put, id, (n - 1) as nat)
    }
}

proof fn lemma_upserted(
    nodes: Seq<NodeValueView>,
    put: Seq<NodeValueView>,
    n: nat,
    names: Renaming,
    first: nat,
    id: EntityIdView,
)
    requires
        n <= put.len(),
        is_fresh(names, first),
        !ids::is_overlay_id(id),
        !may_be_given(id, first),
    ensures
        is_fresh(memory::upserted_nodes(nodes, put, n, names).1, first),
        source::find_node(memory::upserted_nodes(nodes, put, n, names).0, id, 0) == (match last_put(
            put,
            id,
            n,
        ) {
            Some(node) => Some(node),
            None => source::find_node(nodes, id, 0),
        }),
    decreases n,
{
    if n > 0 {
        lemma_upserted(nodes, put, (n - 1) as nat, names, first, id);
        let (before, mid) = memory::upserted_nodes(nodes, put, (n - 1) as nat, names);
        let node = put[n - 1];
        lemma_renamed(mid, node.id, first);
        let (after, given) = mid.renamed(node.id);
        overlay_laws::lemma_find_versioned(before, NodeValueView { id: given, ..node }, id, 0);
    }
}

proof fn lemma_surviving(
    nodes: Seq<NodeValueView>,
    gone: Seq<EntityIdView>,
    n: nat,
    id: EntityIdView,
)
    requires
        n <= nodes.len(),
    ensures
        source::find_node(memory::surviving_nodes(nodes, gone, n), id, 0) == (if gone.contains(id) {
            None
        } else {
            source::find_node(nodes.take(n as int), id, 0)
        }),
    decreases n,
{
    if n == 0 {
        assert(nodes.take(0) =~= seq![]);
    } else {
        lemma_surviving(nodes, gone, (n - 1) as nat, id);
        let node = nodes[n - 1];
        let before = memory::surviving_nodes(nodes, gone, (n - 1) as nat);
        assert(nodes.take(n as int) =~= nodes.take(n - 1).push(node));
        overlay_laws::lemma_find_pushed(nodes.take(n - 1), node, id, 0);
        overlay_laws::lemma_find_pushed(before, node, id, 0);
    }
}

proof fn lemma_live(o: OverlayView, nodes: Seq<NodeValueView>, n: nat)
    requires
        n <= nodes.len(),
    ensures
        forall|k: int|
            0 <= k < overlay::live_nodes(o, nodes, n).len() ==> nodes.contains(
                #[trigger] overlay::live_nodes(o, nodes, n)[k],
            ) && !o.node_is_gone(overlay::live_nodes(o, nodes, n)[k].id),
    decreases n,
{
    if n > 0 {
        lemma_live(o, nodes, (n - 1) as nat);
        let before = overlay::live_nodes(o, nodes, (n - 1) as nat);
        let after = overlay::live_nodes(o, nodes, n);
        assert(nodes.contains(nodes[n - 1]));
        assert forall|k: int| 0 <= k < after.len() implies nodes.contains(#[trigger] after[k])
            && !o.node_is_gone(after[k].id) by {
            if k < before.len() {
                assert(after[k] == before[k]);
            }
        }
    }
}

proof fn lemma_live_holds(o: OverlayView, nodes: Seq<NodeValueView>, n: nat, i: int)
    requires
        0 <= i < n <= nodes.len(),
        !o.node_is_gone(nodes[i].id),
    ensures
        overlay::live_nodes(o, nodes, n).contains(nodes[i]),
    decreases n,
{
    let before = overlay::live_nodes(o, nodes, (n - 1) as nat);
    let after = overlay::live_nodes(o, nodes, n);
    if i == n - 1 {
        assert(after[before.len() as int] == nodes[i]);
    } else {
        lemma_live_holds(o, nodes, (n - 1) as nat, i);
        assert(after[before.index_of(nodes[i])] == nodes[i]);
    }
}

/// Whether no two nodes have the same identity.
pub open spec fn ids_differ(nodes: Seq<NodeValueView>) -> bool {
    forall|i: int, j: int|
        0 <= i < j < nodes.len() ==> (#[trigger] nodes[i]).id != (#[trigger] nodes[j]).id
}

proof fn lemma_last_put(put: Seq<NodeValueView>, id: EntityIdView, n: nat)
    requires
        n <= put.len(),
    ensures
        last_put(put, id, n) matches Some(node) ==> node.id == id && put.contains(node),
        last_put(put, id, n) is None ==> forall|k: int|
            0 <= k < n ==> (#[trigger] put[k]).id != id,
    decreases n,
{
    if n > 0 {
        lemma_last_put(put, id, (n - 1) as nat);
        assert(put.contains(put[n - 1]));
    }
}

proof fn lemma_find_index(nodes: Seq<NodeValueView>, id: EntityIdView, i: int) -> (k: int)
    requires
        0 <= i <= nodes.len(),
        source::find_node(nodes, id, i) is Some,
    ensures
        i <= k < nodes.len(),
        nodes[k].id == id,
        source::find_node(nodes, id, i) == Some(nodes[k]),
    decreases nodes.len() - i,
{
    if nodes[i].id == id {
        i
    } else {
        lemma_find_index(nodes, id, i + 1)
    }
}

proof fn lemma_base_ids(ids: Seq<EntityIdView>, n: nat, id: EntityIdView)
    requires
        n <= ids.len(),
        !ids::is_overlay_id(id),
    ensures
        overlay::base_ids(ids, n).contains(id) <==> ids.take(n as int).contains(id),
    decreases n,
{
    if n == 0 {
        assert(ids.take(0) =~= seq![]);
    } else {
        lemma_base_ids(ids, (n - 1) as nat, id);
        let shorter = ids.take(n - 1);
        assert(ids.take(n as int) =~= shorter.push(ids[n - 1]));
        store_source::lemma_pushed(shorter, ids[n - 1], id);
        store_source::lemma_pushed(overlay::base_ids(ids, (n - 1) as nat), ids[n - 1], id);
    }
}

/// A query that follows sees the nodes of the graph as the writing query left
/// them: changed ones as changed, deleted ones not at all, the others as they
/// were.
pub proof fn applied_changes_are_seen(m: MemoryGraphView, o: OverlayView, id: EntityIdView)
    requires
        o.base == m.graph(),
        forall|i: int|
            0 <= i < o.created_nodes.len() ==> ids::is_overlay_id(
                (#[trigger] o.created_nodes[i]).id,
            ),
        ids_differ(o.changed_nodes),
        !ids::is_overlay_id(id),
        !may_be_given(id, m.next_id as nat),
    ensures
        (m.applied(o.net()).graph().node)(id) == (o.graph().node)(id),
{
    let net = o.net();
    let first = m.next_id as nat;
    let names = Renaming { given: seq![], next: first };
    let kept = memory::surviving_nodes(m.nodes, net.deleted_nodes, m.nodes.len());
    let put = net.upserted_nodes;
    let made = overlay::live_nodes(o, o.created_nodes, o.created_nodes.len());
    let changed = overlay::live_nodes(o, o.changed_nodes, o.changed_nodes.len());
    assert(put == made + changed);
    lemma_surviving(m.nodes, net.deleted_nodes, m.nodes.len(), id);
    assert(m.nodes.take(m.nodes.len() as int) =~= m.nodes);
    lemma_upserted(kept, put, put.len(), names, first, id);
    lemma_base_ids(o.deleted_nodes, o.deleted_nodes.len(), id);
    assert(o.deleted_nodes.take(o.deleted_nodes.len() as int) =~= o.deleted_nodes);
    lemma_live(o, o.created_nodes, o.created_nodes.len());
    lemma_live(o, o.changed_nodes, o.changed_nodes.len());
    lemma_last_put(put, id, put.len());
    overlay_laws::lemma_found_node(o.created_nodes, id, 0);
    overlay_laws::lemma_found_node(o.changed_nodes, id, 0);
    assert(source::find_node(o.created_nodes, id, 0) is None) by {
        if source::find_node(o.created_nodes, id, 0) is Some {
            let k = lemma_find_index(o.created_nodes, id, 0);
            assert(ids::is_overlay_id(o.created_nodes[k].id));
        }
    }
    match last_put(put, id, put.len()) {
        Some(node) => {
            let at = put.index_of(node);
            assert(put[at] == node);
            if at < made.len() {
                assert(made[at] == node);
                let k = o.created_nodes.index_of(node);
                assert(ids::is_overlay_id(o.created_nodes[k].id));
            } else {
                assert(changed[at - made.len()] == node);
                let k = o.changed_nodes.index_of(node);
                assert(o.changed_nodes[k] == node);
                assert(source::find_node(o.changed_nodes, id, 0) is Some);
                let j = lemma_find_index(o.changed_nodes, id, 0);
                assert(j == k);
            }
        },
        None => {
            if !o.node_is_gone(id) && source::find_node(o.changed_nodes, id, 0) is Some {
                let j = lemma_find_index(o.changed_nodes, id, 0);
                lemma_live_holds(o, o.changed_nodes, o.changed_nodes.len(), j);
                let at = changed.index_of(o.changed_nodes[j]);
                assert(put[made.len() + at] == changed[at]);
            }
        },
    }
}

// --- Fresh identities -------------------------------------------------------------------------------

/// Whether every identity of a renaming was given out from `first` on and before
/// the next one.
pub open spec fn given_in_turn(names: Renaming, first: nat) -> bool {
    &&& first <= names.next
    &&& forall|i: int|
        0 <= i < names.given.len() ==> exists|k: nat|
            first <= k < names.next && (#[trigger] names.given[i]).1 == #[trigger] memory::stable_id(
                k,
            )
}

proof fn lemma_in_turn(names: Renaming, id: EntityIdView, first: nat)
    requires
        given_in_turn(names, first),
    ensures
        given_in_turn(names.renamed(id).0, first),
        names.next <= names.renamed(id).0.next <= names.next + 1,
{
    let after = names.renamed(id).0;
    if after.next != names.next {
        assert forall|i: int| 0 <= i < after.given.len() implies exists|k: nat|
            first <= k < after.next && (#[trigger] after.given[i]).1 == #[trigger] memory::stable_id(
                k,
            ) by {
            if i < names.given.len() {
                assert(after.given[i] == names.given[i]);
                let k = choose|k: nat|
                    first <= k < names.next && names.given[i].1 == #[trigger] memory::stable_id(k);
                assert(after.given[i].1 == memory::stable_id(k));
            } else {
                assert(after.given[i].1 == memory::stable_id(names.next));
            }
        }
    }
}

pub(crate) proof fn lemma_nodes_in_turn(
    nodes: Seq<NodeValueView>,
    put: Seq<NodeValueView>,
    n: nat,
    names: Renaming,
    first: nat,
)
    requires
        n <= put.len(),
        given_in_turn(names, first),
    ensures
        given_in_turn(memory::upserted_nodes(nodes, put, n, names).1, first),
        names.next <= memory::upserted_nodes(nodes, put, n, names).1.next <= names.next + n,
    decreases n,
{
    if n > 0 {
        lemma_nodes_in_turn(nodes, put, (n - 1) as nat, names, first);
        let mid = memory::upserted_nodes(nodes, put, (n - 1) as nat, names).1;
        lemma_in_turn(mid, put[n - 1].id, first);
    }
}

pub(crate) proof fn lemma_rels_in_turn(
    rels: Seq<RelValueView>,
    put: Seq<RelValueView>,
    n: nat,
    names: Renaming,
    first: nat,
)
    requires
        n <= put.len(),
        given_in_turn(names, first),
    ensures
        given_in_turn(memory::upserted_rels(rels, put, n, names).1, first),
        names.next <= memory::upserted_rels(rels, put, n, names).1.next <= names.next + 3 * n,
    decreases n,
{
    if n > 0 {
        lemma_rels_in_turn(rels, put, (n - 1) as nat, names, first);
        let mid = memory::upserted_rels(rels, put, (n - 1) as nat, names).1;
        let rel = put[n - 1];
        lemma_in_turn(mid, rel.id, first);
        let (one, _) = mid.renamed(rel.id);
        lemma_in_turn(one, rel.start, first);
        let (two, _) = one.renamed(rel.start);
        lemma_in_turn(two, rel.end, first);
    }
}

/// The identities that folding changes in gives out are not given out again: they
/// are numbered below the graph's counter, which does not go back, and different
/// numbers make different identities.
pub proof fn given_identities_are_never_reused(m: MemoryGraphView, changes: WriteChangesView)
    requires
        m.next_id + memory::at_most_new(changes) <= u64::MAX,
    ensures
        ({
            let first = m.next_id as nat;
            let kept = memory::surviving_nodes(m.nodes, changes.deleted_nodes, m.nodes.len());
            let names = Renaming { given: seq![], next: first };
            let put = changes.upserted_nodes;
            let nodes = memory::upserted_nodes(kept, put, put.len(), names).1;
            &&& given_in_turn(nodes, first)
            &&& first <= nodes.next <= m.applied(changes).next_id
        }),
        forall|j: nat, k: nat|
            #[trigger] memory::stable_id(j) == #[trigger] memory::stable_id(k) ==> j == k,
{
    let first = m.next_id as nat;
    let names = Renaming { given: seq![], next: first };
    let kept_nodes = memory::surviving_nodes(m.nodes, changes.deleted_nodes, m.nodes.len());
    let kept_rels = memory::surviving_rels(m.rels, changes.deleted_rels, m.rels.len());
    let put = changes.upserted_nodes;
    lemma_nodes_in_turn(kept_nodes, put, put.len(), names, first);
    let nodes = memory::upserted_nodes(kept_nodes, put, put.len(), names).1;
    let rels = changes.upserted_rels;
    lemma_rels_in_turn(kept_rels, rels, rels.len(), nodes, first);
    assert forall|j: nat, k: nat|
        #[trigger] memory::stable_id(j) == #[trigger] memory::stable_id(k) implies j == k by {
        ids::numbered_ids_are_distinct(115, j, k);
    }
}

} // verus!
