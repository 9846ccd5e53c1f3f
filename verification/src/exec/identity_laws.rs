//! Which identities an overlay gives out: each only once.

use vstd::prelude::*;

use crate::ast::Direction;
use crate::exec::ids;
use crate::exec::overlay::{self, OverlayView, Tally};
use crate::exec::overlay_laws;
use crate::exec::source::{self, GraphView};
use crate::exec::value::{EntityIdView, NodeValueView, PropertyMapView, RelValueView};

verus! {

/// Whether no element of a graph has a tagged identity.
pub open spec fn has_no_tags(base: GraphView) -> bool {
    &&& forall|id: EntityIdView| #[trigger] (base.node)(id) is Some ==> !ids::is_overlay_id(id)
    &&& forall|id: EntityIdView, direction: Direction, types: Seq<Seq<char>>, i: int|
        0 <= i < (base.expand)(id, direction, types).len() ==> !ids::is_overlay_id(
            (#[trigger] (base.expand)(id, direction, types)[i]).0.id,
        )
}

/// Whether an identity is one that an overlay has given out, of which there are
/// `count`.
pub open spec fn is_given(id: EntityIdView, count: nat) -> bool {
    exists|k: nat| k < count && id == #[trigger] ids::overlay_id(k)
}

/// Whether an identity is one of the base's, or one that an overlay has given
/// out.
pub open spec fn is_known(id: EntityIdView, count: nat) -> bool {
    !ids::is_overlay_id(id) || is_given(id, count)
}

/// Whether an overlay created an element with an identity.
pub open spec fn is_created(o: OverlayView, id: EntityIdView) -> bool {
    ||| exists|i: int| 0 <= i < o.created_nodes.len() && (#[trigger] o.created_nodes[i]).id == id
    ||| exists|i: int| 0 <= i < o.created_rels.len() && (#[trigger] o.created_rels[i]).id == id
}

/// Whether an overlay lies over a base without tagged identities, what it created
/// has just the identities that it gave out, and what it changed or deleted is
/// known. As many were given out as there are created elements, so each has its
/// own.
pub open spec fn keeps_identities(o: OverlayView) -> bool {
    let count = o.count_created();
    &&& has_no_tags(o.base)
    &&& forall|k: nat| k < count ==> is_created(o, #[trigger] ids::overlay_id(k))
    &&& forall|i: int|
        0 <= i < o.created_nodes.len() ==> is_given((#[trigger] o.created_nodes[i]).id, count)
    &&& forall|i: int|
        0 <= i < o.created_rels.len() ==> is_given((#[trigger] o.created_rels[i]).id, count)
    &&& forall|i: int|
        0 <= i < o.changed_nodes.len() ==> is_known((#[trigger] o.changed_nodes[i]).id, count)
    &&& forall|i: int|
        0 <= i < o.changed_rels.len() ==> is_known((#[trigger] o.changed_rels[i]).id, count)
    &&& forall|i: int|
        0 <= i < o.deleted_nodes.len() ==> is_known(#[trigger] o.deleted_nodes[i], count)
    &&& forall|i: int|
        0 <= i < o.deleted_rels.len() ==> is_known((#[trigger] o.deleted_rels[i]).id, count)
}

/// Whether the identity that the next created element gets stands nowhere in an
/// overlay.
pub open spec fn next_is_new(o: OverlayView) -> bool {
    let id = ids::overlay_id(o.count_created());
    &&& overlay_laws::next_is_free(o)
    &&& !o.rel_is_gone(id)
    &&& o.own_rel(id) is None
    &&& (o.base.node)(id) is None
}

proof fn lemma_given_grows(id: EntityIdView, m: nat, n: nat)
    requires
        m <= n,
    ensures
        is_given(id, m) ==> is_given(id, n),
        is_known(id, m) ==> is_known(id, n),
{
    if is_given(id, m) {
        let k = choose|k: nat| k < m && id == #[trigger] ids::overlay_id(k);
        assert(k < n && id == ids::overlay_id(k));
    }
}

proof fn lemma_next_is_not_known(count: nat)
    ensures
        !is_known(ids::overlay_id(count), count),
{
    ids::overlay_ids_are_tagged(count);
    if is_given(ids::overlay_id(count), count) {
        let k = choose|k: nat| k < count && ids::overlay_id(count) == #[trigger] ids::overlay_id(k);
        ids::overlay_ids_are_distinct(count, k);
    }
}

/// The identity that the next created element gets is a new one.
pub proof fn the_next_identity_is_new(o: OverlayView)
    requires
        keeps_identities(o),
    ensures
        next_is_new(o),
{
    let count = o.count_created();
    let id = ids::overlay_id(count);
    lemma_next_is_not_known(count);
    overlay_laws::lemma_found_node(o.created_nodes, id, 0);
    overlay_laws::lemma_found_node(o.changed_nodes, id, 0);
    overlay_laws::lemma_found_rel(o.created_rels, id, 0);
    overlay_laws::lemma_found_rel(o.changed_rels, id, 0);
    overlay_laws::lemma_found_rel(o.deleted_rels, id, 0);
    ids::overlay_ids_are_tagged(count);
}

/// An overlay with nothing pending keeps identities.
pub proof fn an_empty_overlay_keeps_identities(base: GraphView)
    requires
        has_no_tags(base),
    ensures
        keeps_identities(OverlayView::over(base)),
        next_is_new(OverlayView::over(base)),
{
    the_next_identity_is_new(OverlayView::over(base));
}

/// Whether what `o` created stands in `after` with its identity.
spec fn keeps_created(o: OverlayView, after: OverlayView) -> bool {
    &&& forall|i: int|
        0 <= i < o.created_nodes.len() ==> i < after.created_nodes.len()
            && after.created_nodes[i].id == (#[trigger] o.created_nodes[i]).id
    &&& forall|i: int|
        0 <= i < o.created_rels.len() ==> i < after.created_rels.len()
            && after.created_rels[i].id == (#[trigger] o.created_rels[i]).id
}

proof fn lemma_stays_created(o: OverlayView, after: OverlayView, id: EntityIdView)
    requires
        is_created(o, id),
        keeps_created(o, after),
    ensures
        is_created(after, id),
{
    if exists|i: int| 0 <= i < o.created_nodes.len() && (#[trigger] o.created_nodes[i]).id == id {
        let i = choose|i: int|
            0 <= i < o.created_nodes.len() && (#[trigger] o.created_nodes[i]).id == id;
        assert(after.created_nodes[i].id == id);
    } else {
        let i = choose|i: int|
            0 <= i < o.created_rels.len() && (#[trigger] o.created_rels[i]).id == id;
        assert(after.created_rels[i].id == id);
    }
}

proof fn lemma_grown(o: OverlayView, after: OverlayView)
    requires
        keeps_identities(o),
        after.base == o.base,
        after.count_created() == o.count_created() + 1,
        after.changed_nodes == o.changed_nodes,
        after.changed_rels == o.changed_rels,
        after.deleted_nodes == o.deleted_nodes,
        after.deleted_rels == o.deleted_rels,
        forall|i: int|
            0 <= i < after.created_nodes.len() ==> ((#[trigger] after.created_nodes[i]).id
                == ids::overlay_id(o.count_created()) || is_given(
                after.created_nodes[i].id,
                o.count_created(),
            )),
        forall|i: int|
            0 <= i < after.created_rels.len() ==> ((#[trigger] after.created_rels[i]).id
                == ids::overlay_id(o.count_created()) || is_given(
                after.created_rels[i].id,
                o.count_created(),
            )),
        is_created(after, ids::overlay_id(o.count_created())),
        keeps_created(o, after),
    ensures
        keeps_identities(after),
{
    let (m, n) = (o.count_created(), after.count_created());
    assert forall|k: nat| k < n implies is_created(after, #[trigger] ids::overlay_id(k)) by {
        if k < m {
            assert(is_created(o, ids::overlay_id(k)));
            lemma_stays_created(o, after, ids::overlay_id(k));
        }
    }
    assert forall|i: int| 0 <= i < after.created_nodes.len() implies is_given(
        (#[trigger] after.created_nodes[i]).id,
        n,
    ) by {
        lemma_given_grows(after.created_nodes[i].id, m, n);
    }
    assert forall|i: int| 0 <= i < after.created_rels.len() implies is_given(
        (#[trigger] after.created_rels[i]).id,
        n,
    ) by {
        lemma_given_grows(after.created_rels[i].id, m, n);
    }
    assert forall|i: int| 0 <= i < after.changed_nodes.len() implies is_known(
        (#[trigger] after.changed_nodes[i]).id,
        n,
    ) by {
        lemma_given_grows(after.changed_nodes[i].id, m, n);
    }
    assert forall|i: int| 0 <= i < after.changed_rels.len() implies is_known(
        (#[trigger] after.changed_rels[i]).id,
        n,
    ) by {
        lemma_given_grows(after.changed_rels[i].id, m, n);
    }
    assert forall|i: int| 0 <= i < after.deleted_nodes.len() implies is_known(
        #[trigger] after.deleted_nodes[i],
        n,
    ) by {
        lemma_given_grows(after.deleted_nodes[i], m, n);
    }
    assert forall|i: int| 0 <= i < after.deleted_rels.len() implies is_known(
        (#[trigger] after.deleted_rels[i]).id,
        n,
    ) by {
        lemma_given_grows(after.deleted_rels[i].id, m, n);
    }
}

/// Creating keeps identities: what is created gets the identity of the next
/// number, which is a new one.
pub proof fn creating_keeps_identities(
    o: OverlayView,
    labels: Seq<Seq<char>>,
    properties: PropertyMapView,
    start: EntityIdView,
    rel_type: Seq<char>,
    end: EntityIdView,
)
    requires
        keeps_identities(o),
    ensures
        next_is_new(o),
        keeps_identities(o.with_node(labels, properties).0),
        o.with_node(labels, properties).1.id == ids::overlay_id(o.count_created()),
        keeps_identities(o.with_rel(start, rel_type, end, properties).0),
        o.with_rel(start, rel_type, end, properties).1.id == ids::overlay_id(o.count_created()),
{
    the_next_identity_is_new(o);
    let one = o.with_node(labels, properties).0;
    assert(one.created_nodes[o.created_nodes.len() as int].id == ids::overlay_id(
        o.count_created(),
    ));
    let two = o.with_rel(start, rel_type, end, properties).0;
    assert(two.created_rels[o.created_rels.len() as int].id == ids::overlay_id(o.count_created()));
    lemma_grown(o, o.with_node(labels, properties).0);
    lemma_grown(o, o.with_rel(start, rel_type, end, properties).0);
}

proof fn lemma_version_ids(nodes: Seq<NodeValueView>, node: NodeValueView, i: int)
    requires
        0 <= i <= nodes.len(),
    ensures
        ({
            let after = overlay::with_version(nodes, node, i);
            &&& after.len() >= nodes.len()
            &&& source::find_node(nodes, node.id, i) is Some ==> after.len() == nodes.len()
            &&& forall|j: int|
                0 <= j < after.len() ==> (#[trigger] after[j]).id == node.id || (j < nodes.len()
                    && after[j].id == nodes[j].id)
            &&& forall|j: int| 0 <= j < nodes.len() ==> (#[trigger] after[j]).id == nodes[j].id
        }),
    decreases nodes.len() - i,
{
    if i < nodes.len() && nodes[i].id != node.id {
        lemma_version_ids(nodes, node, i + 1);
    }
}

proof fn lemma_rel_version_ids(rels: Seq<RelValueView>, rel: RelValueView, i: int)
    requires
        0 <= i <= rels.len(),
    ensures
        ({
            let after = overlay::with_rel_version(rels, rel, i);
            &&& after.len() >= rels.len()
            &&& overlay::find_rel(rels, rel.id, i) is Some ==> after.len() == rels.len()
            &&& forall|j: int|
                0 <= j < after.len() ==> (#[trigger] after[j]).id == rel.id || (j < rels.len()
                    && after[j].id == rels[j].id)
            &&& forall|j: int| 0 <= j < rels.len() ==> (#[trigger] after[j]).id == rels[j].id
        }),
    decreases rels.len() - i,
{
    if i < rels.len() && rels[i].id != rel.id {
        lemma_rel_version_ids(rels, rel, i + 1);
    }
}

/// What an overlay finds it knows.
pub proof fn what_is_found_is_known(o: OverlayView, id: EntityIdView)
    requires
        keeps_identities(o),
        o.find(id) is Some,
    ensures
        is_known(id, o.count_created()),
{
    overlay_laws::lemma_found_node(o.created_nodes, id, 0);
    overlay_laws::lemma_found_node(o.changed_nodes, id, 0);
    if source::find_node(o.created_nodes, id, 0) is Some {
        let k = choose|k: int| 0 <= k < o.created_nodes.len() && o.created_nodes[k].id == id;
        assert(is_given(o.created_nodes[k].id, o.count_created()));
    } else if source::find_node(o.changed_nodes, id, 0) is Some {
        let k = choose|k: int| 0 <= k < o.changed_nodes.len() && o.changed_nodes[k].id == id;
        assert(is_known(o.changed_nodes[k].id, o.count_created()));
    }
}

proof fn lemma_live_created(o: OverlayView, n: nat, i: int)
    requires
        keeps_identities(o),
        n <= o.created_rels.len(),
        0 <= i < o.live_created_rels(n).len(),
    ensures
        is_given(o.live_created_rels(n)[i].id, o.count_created()),
    decreases n,
{
    let before = o.live_created_rels((n - 1) as nat);
    assert(is_given(o.created_rels[n - 1].id, o.count_created()));
    if i < before.len() {
        lemma_live_created(o, (n - 1) as nat, i);
    }
}

proof fn lemma_expanded(
    find: spec_fn(EntityIdView) -> Option<NodeValueView>,
    rels: Seq<RelValueView>,
    node: EntityIdView,
    direction: Direction,
    types: Seq<Seq<char>>,
    n: nat,
    i: int,
) -> (k: int)
    requires
        n <= rels.len(),
        0 <= i < source::expanded(find, rels, node, direction, types, n).len(),
    ensures
        0 <= k < rels.len(),
        source::expanded(find, rels, node, direction, types, n)[i].0 == rels[k],
    decreases n,
{
    let before = source::expanded(find, rels, node, direction, types, (n - 1) as nat);
    if i < before.len() {
        lemma_expanded(find, rels, node, direction, types, (n - 1) as nat, i)
    } else {
        n - 1
    }
}

proof fn lemma_live_ways(
    o: OverlayView,
    ways: Seq<(RelValueView, NodeValueView)>,
    n: nat,
    i: int,
) -> (k: int)
    requires
        n <= ways.len(),
        0 <= i < o.live_ways(ways, n).len(),
    ensures
        0 <= k < ways.len(),
        o.live_ways(ways, n)[i].0.id == ways[k].0.id,
    decreases n,
{
    let before = o.live_ways(ways, (n - 1) as nat);
    if i < before.len() {
        lemma_live_ways(o, ways, (n - 1) as nat, i)
    } else {
        overlay_laws::lemma_found_rel(o.changed_rels, ways[n - 1].0.id, 0);
        n - 1
    }
}

/// A relationship that a query sees in an overlay is known.
pub proof fn what_is_seen_is_known(
    o: OverlayView,
    node: EntityIdView,
    direction: Direction,
    types: Seq<Seq<char>>,
    i: int,
)
    requires
        keeps_identities(o),
        0 <= i < (o.graph().expand)(node, direction, types).len(),
    ensures
        is_known((o.graph().expand)(node, direction, types)[i].0.id, o.count_created()),
{
    let from_base = (o.base.expand)(node, direction, types);
    let kept = o.live_ways(from_base, from_base.len());
    let created = o.live_created_rels(o.created_rels.len());
    let find = |id: EntityIdView| o.find(id);
    if i < kept.len() {
        let k = lemma_live_ways(o, from_base, from_base.len(), i);
        assert(!ids::is_overlay_id((o.base.expand)(node, direction, types)[k].0.id));
    } else {
        let k = lemma_expanded(
            find,
            created,
            node,
            direction,
            types,
            created.len(),
            i - kept.len(),
        );
        lemma_live_created(o, o.created_rels.len(), k);
    }
}

/// A new version of a known node keeps identities.
pub proof fn changing_a_node_keeps_identities(o: OverlayView, node: NodeValueView, t: Tally)
    requires
        keeps_identities(o),
        o.find(node.id) is Some,
    ensures
        keeps_identities(o.with_node_version(node, t)),
        next_is_new(o.with_node_version(node, t)),
{
    let after = o.with_node_version(node, t);
    let count = o.count_created();
    what_is_found_is_known(o, node.id);
    lemma_version_ids(o.created_nodes, node, 0);
    lemma_version_ids(o.changed_nodes, node, 0);
    assert(after.count_created() == count);
    overlay_laws::lemma_found_node(o.created_nodes, node.id, 0);
    if source::find_node(o.created_nodes, node.id, 0) is Some {
        let k = choose|k: int|
            0 <= k < o.created_nodes.len() && o.created_nodes[k].id == node.id;
        assert(is_given(o.created_nodes[k].id, count));
        assert forall|i: int| 0 <= i < after.created_nodes.len() implies is_given(
            (#[trigger] after.created_nodes[i]).id,
            count,
        ) by {
            assert(is_given(o.created_nodes[i].id, count));
        }
    } else {
        assert forall|i: int| 0 <= i < after.changed_nodes.len() implies is_known(
            (#[trigger] after.changed_nodes[i]).id,
            count,
        ) by {
            if i < o.changed_nodes.len() {
                assert(is_known(o.changed_nodes[i].id, count));
            }
        }
    }
    assert forall|k: nat| k < count implies is_created(after, #[trigger] ids::overlay_id(k)) by {
        assert(is_created(o, ids::overlay_id(k)));
        lemma_stays_created(o, after, ids::overlay_id(k));
    }
    the_next_identity_is_new(after);
}

/// A new version of a known relationship keeps identities.
pub proof fn changing_a_relationship_keeps_identities(o: OverlayView, rel: RelValueView, t: Tally)
    requires
        keeps_identities(o),
        is_known(rel.id, o.count_created()),
    ensures
        keeps_identities(o.with_relationship_version(rel, t)),
        next_is_new(o.with_relationship_version(rel, t)),
{
    let after = o.with_relationship_version(rel, t);
    let count = o.count_created();
    lemma_rel_version_ids(o.created_rels, rel, 0);
    lemma_rel_version_ids(o.changed_rels, rel, 0);
    assert(after.count_created() == count);
    overlay_laws::lemma_found_rel(o.created_rels, rel.id, 0);
    if overlay::find_rel(o.created_rels, rel.id, 0) is Some {
        let k = choose|k: int| 0 <= k < o.created_rels.len() && o.created_rels[k].id == rel.id;
        assert(is_given(o.created_rels[k].id, count));
        assert forall|i: int| 0 <= i < after.created_rels.len() implies is_given(
            (#[trigger] after.created_rels[i]).id,
            count,
        ) by {
            assert(is_given(o.created_rels[i].id, count));
        }
    } else {
        assert forall|i: int| 0 <= i < after.changed_rels.len() implies is_known(
            (#[trigger] after.changed_rels[i]).id,
            count,
        ) by {
            if i < o.changed_rels.len() {
                assert(is_known(o.changed_rels[i].id, count));
            }
        }
    }
    assert forall|k: nat| k < count implies is_created(after, #[trigger] ids::overlay_id(k)) by {
        assert(is_created(o, ids::overlay_id(k)));
        lemma_stays_created(o, after, ids::overlay_id(k));
    }
    the_next_identity_is_new(after);
}

/// Deleting what is known keeps identities: a node that is found, a relationship
/// of the base or one that the overlay created.
pub proof fn deleting_keeps_identities(o: OverlayView, id: EntityIdView, rel: RelValueView)
    requires
        keeps_identities(o),
    ensures
        o.find(id) is Some ==> keeps_identities(o.without_node(id)) && next_is_new(
            o.without_node(id),
        ),
        is_known(rel.id, o.count_created()) ==> keeps_identities(o.without_rel(rel))
            && next_is_new(o.without_rel(rel)),
{
    let count = o.count_created();
    if o.find(id) is Some {
        let after = o.without_node(id);
        what_is_found_is_known(o, id);
        assert forall|i: int| 0 <= i < after.deleted_nodes.len() implies is_known(
            #[trigger] after.deleted_nodes[i],
            count,
        ) by {
            if i < o.deleted_nodes.len() {
                assert(is_known(o.deleted_nodes[i], count));
            }
        }
        assert forall|k: nat| k < count implies is_created(after, #[trigger] ids::overlay_id(k)) by {
            assert(is_created(o, ids::overlay_id(k)));
            lemma_stays_created(o, after, ids::overlay_id(k));
        }
        the_next_identity_is_new(after);
    }
    if is_known(rel.id, count) {
        let after = o.without_rel(rel);
        assert forall|i: int| 0 <= i < after.deleted_rels.len() implies is_known(
            (#[trigger] after.deleted_rels[i]).id,
            count,
        ) by {
            if i < o.deleted_rels.len() {
                assert(is_known(o.deleted_rels[i].id, count));
            }
        }
        assert forall|k: nat| k < count implies is_created(after, #[trigger] ids::overlay_id(k)) by {
            assert(is_created(o, ids::overlay_id(k)));
            lemma_stays_created(o, after, ids::overlay_id(k));
        }
        the_next_identity_is_new(after);
    }
}

} // verus!
