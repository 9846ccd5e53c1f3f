//! Building a [`MemoryGraph`] and folding a query's net changes into it.

use vstd::prelude::*;

use crate::exec::ids;
use crate::exec::overlay;
use crate::exec::source::{self, MemoryGraph, MemoryGraphView, WriteChanges, WriteChangesView};
use crate::exec::value::{
    self, EntityId, EntityIdView, NodeValue, NodeValueView, PropertyMap, RelValue, RelValueView,
};
use crate::text;

verus! {

/// The identity of the `n`-th node added to a graph in memory.
pub open spec fn node_id(n: nat) -> EntityIdView {
    EntityIdView { bytes: ids::numbered(110, n) }
}

/// The identity of the `n`-th relationship added to a graph in memory.
pub open spec fn rel_id(n: nat) -> EntityIdView {
    EntityIdView { bytes: ids::numbered(114, n) }
}

/// The identity of the `n`-th created element folded into a graph in memory.
pub open spec fn stable_id(n: nat) -> EntityIdView {
    EntityIdView { bytes: ids::numbered(115, n) }
}

/// The stable identities given out so far, each behind the overlay identity it
/// stands for, and the number of the next one.
pub struct Renaming {
    pub given: Seq<(EntityIdView, EntityIdView)>,
    pub next: nat,
}

/// The stable identity given to `id` from the `i`-th on.
pub open spec fn given_to(
    given: Seq<(EntityIdView, EntityIdView)>,
    id: EntityIdView,
    i: int,
) -> Option<EntityIdView>
    decreases given.len() - i,
{
    if i < 0 || i >= given.len() {
        None
    } else if given[i].0 == id {
        Some(given[i].1)
    } else {
        given_to(given, id, i + 1)
    }
}

impl Renaming {
    /// The identity that `id` has in the graph: overlay identities get a fresh
    /// stable one, once; others stay.
    pub open spec fn renamed(self, id: EntityIdView) -> (Renaming, EntityIdView) {
        if !ids::is_overlay_id(id) {
            (self, id)
        } else {
            match given_to(self.given, id, 0) {
                Some(known) => (self, known),
                None => (
                    Renaming {
                        given: self.given.push((id, stable_id(self.next))),
                        next: self.next + 1,
                    },
                    stable_id(self.next),
                ),
            }
        }
    }
}

/// `nodes` without those whose identity is among `gone`.
pub open spec fn surviving_nodes(
    nodes: Seq<NodeValueView>,
    gone: Seq<EntityIdView>,
    n: nat,
) -> Seq<NodeValueView>
    decreases n,
{
    if n == 0 || n > nodes.len() {
        seq![]
    } else {
        let before = surviving_nodes(nodes, gone, (n - 1) as nat);
        if gone.contains(nodes[n - 1].id) {
            before
        } else {
            before.push(nodes[n - 1])
        }
    }
}

/// `rels` without those whose identity is one of `gone`.
pub open spec fn surviving_rels(rels: Seq<RelValueView>, gone: Seq<RelValueView>, n: nat) -> Seq<
    RelValueView,
>
    decreases n,
{
    if n == 0 || n > rels.len() {
        seq![]
    } else {
        let before = surviving_rels(rels, gone, (n - 1) as nat);
        if overlay::find_rel(gone, rels[n - 1].id, 0) is Some {
            before
        } else {
            before.push(rels[n - 1])
        }
    }
}

/// `nodes` with the first `n` of `put` inserted, or put in place of those with
/// the same identity.
pub open spec fn upserted_nodes(
    nodes: Seq<NodeValueView>,
    put: Seq<NodeValueView>,
    n: nat,
    names: Renaming,
) -> (Seq<NodeValueView>, Renaming)
    decreases n,
{
    if n == 0 || n > put.len() {
        (nodes, names)
    } else {
        let (before, names) = upserted_nodes(nodes, put, (n - 1) as nat, names);
        let node = put[n - 1];
        let (names, id) = names.renamed(node.id);
        (overlay::with_version(before, NodeValueView { id, ..node }, 0), names)
    }
}

/// As [`upserted_nodes`], for relationships.
pub open spec fn upserted_rels(
    rels: Seq<RelValueView>,
    put: Seq<RelValueView>,
    n: nat,
    names: Renaming,
) -> (Seq<RelValueView>, Renaming)
    decreases n,
{
    if n == 0 || n > put.len() {
        (rels, names)
    } else {
        let (before, names) = upserted_rels(rels, put, (n - 1) as nat, names);
        let rel = put[n - 1];
        let (names, id) = names.renamed(rel.id);
        let (names, start) = names.renamed(rel.start);
        let (names, end) = names.renamed(rel.end);
        (overlay::with_rel_version(before, RelValueView { id, start, end, ..rel }, 0), names)
    }
}

impl MemoryGraphView {
    /// The graph with a query's net changes folded in: deletions first.
    pub open spec fn applied(self, changes: WriteChangesView) -> MemoryGraphView {
        let kept_nodes = surviving_nodes(self.nodes, changes.deleted_nodes, self.nodes.len());
        let kept_rels = surviving_rels(self.rels, changes.deleted_rels, self.rels.len());
        let names = Renaming { given: seq![], next: self.next_id as nat };
        let (nodes, names) = upserted_nodes(
            kept_nodes,
            changes.upserted_nodes,
            changes.upserted_nodes.len(),
            names,
        );
        let (rels, names) = upserted_rels(
            kept_rels,
            changes.upserted_rels,
            changes.upserted_rels.len(),
            names,
        );
        MemoryGraphView { nodes, rels, next_id: names.next as u64 }
    }
}

/// How many identities folding `changes` in can give out.
pub open spec fn at_most_new(changes: WriteChangesView) -> nat {
    changes.upserted_nodes.len() + 3 * changes.upserted_rels.len()
}

struct Names {
    given: Vec<(EntityId, EntityId)>,
    next: u64,
}

spec fn given_view(v: Seq<(EntityId, EntityId)>) -> Seq<(EntityIdView, EntityIdView)> {
    Seq::new(v.len(), |i: int| (v[i].0@, v[i].1@))
}

impl Names {
    spec fn view(&self) -> Renaming {
        Renaming { given: given_view(self.given@), next: self.next as nat }
    }

    fn known(&self, id: &EntityId) -> (r: Option<EntityId>)
        ensures
            given_to(self@.given, id@, 0) == match r {
                Some(x) => Some(x@),
                None => None,
            },
    {
        let ghost all = self@.given;
        let mut i: usize = 0;
        while i < self.given.len()
            invariant
                i <= self.given.len(),
                all == given_view(self.given@),
                given_to(all, id@, 0) == given_to(all, id@, i as int),
            decreases self.given.len() - i,
        {
            assert(all[i as int] == (self.given@[i as int].0@, self.given@[i as int].1@));
            if self.given[i].0.same(id) {
                return Some(self.given[i].1.dup());
            }
            i += 1;
        }
        None
    }

    fn rename(&mut self, id: &EntityId) -> (r: EntityId)
        requires
            old(self).next < u64::MAX,
        ensures
            (final(self)@, r@) == old(self)@.renamed(id@),
            old(self).next <= final(self).next <= old(self).next + 1,
    {
        if !ids::is_overlay(id) {
            return id.dup();
        }
        match self.known(id) {
            Some(x) => x,
            None => {
                let fresh = ids::numbered_id(115, self.next as u128);
                let pair = (id.dup(), fresh.dup());
                let ghost before = self.given@;
                self.given.push(pair);
                assert(given_view(before.push(pair)) =~= given_view(before).push((id@, fresh@)));
                self.next = self.next + 1;
                fresh
            },
        }
    }
}

fn holds_id(ids: &Vec<EntityId>, id: &EntityId) -> (r: bool)
    ensures
        r == source::entity_ids_view(ids@).contains(id@),
{
    let ghost all = source::entity_ids_view(ids@);
    let mut i: usize = 0;
    while i < ids.len()
        invariant
            i <= ids.len(),
            all == source::entity_ids_view(ids@),
            forall|k: int| 0 <= k < i ==> #[trigger] all[k] != id@,
        decreases ids.len() - i,
    {
        assert(all[i as int] == ids@[i as int]@);
        if ids[i].same(id) {
            return true;
        }
        i += 1;
    }
    false
}

fn retain_nodes(nodes: &Vec<NodeValue>, gone: &Vec<EntityId>) -> (r: Vec<NodeValue>)
    ensures
        value::node_values_view(r@) == surviving_nodes(
            value::node_values_view(nodes@),
            source::entity_ids_view(gone@),
            nodes@.len(),
        ),
{
    let ghost all = value::node_values_view(nodes@);
    let ghost ids = source::entity_ids_view(gone@);
    let mut out: Vec<NodeValue> = Vec::new();
    let mut i: usize = 0;
    assert(value::node_values_view(out@) =~= surviving_nodes(all, ids, 0));
    while i < nodes.len()
        invariant
            i <= nodes.len(),
            all == value::node_values_view(nodes@),
            ids == source::entity_ids_view(gone@),
            value::node_values_view(out@) == surviving_nodes(all, ids, i as nat),
        decreases nodes.len() - i,
    {
        assert(all[i as int] == nodes@[i as int]@);
        if !holds_id(gone, &nodes[i].id) {
            let node = nodes[i].dup();
            assert(
                value::node_values_view(out@.push(node)) =~= value::node_values_view(out@).push(node@)
            );
            out.push(node);
        }
        i += 1;
    }
    out
}

fn retain_rels(rels: &Vec<RelValue>, gone: &Vec<RelValue>) -> (r: Vec<RelValue>)
    ensures
        value::rel_values_view(r@) == surviving_rels(
            value::rel_values_view(rels@),
            value::rel_values_view(gone@),
            rels@.len(),
        ),
{
    let ghost all = value::rel_values_view(rels@);
    let ghost lost = value::rel_values_view(gone@);
    let mut out: Vec<RelValue> = Vec::new();
    let mut i: usize = 0;
    assert(value::rel_values_view(out@) =~= surviving_rels(all, lost, 0));
    while i < rels.len()
        invariant
            i <= rels.len(),
            all == value::rel_values_view(rels@),
            lost == value::rel_values_view(gone@),
            value::rel_values_view(out@) == surviving_rels(all, lost, i as nat),
        decreases rels.len() - i,
    {
        assert(all[i as int] == rels@[i as int]@);
        if overlay::search_rel(gone, &rels[i].id).is_none() {
            let rel = rels[i].dup();
            assert(
                value::rel_values_view(out@.push(rel)) =~= value::rel_values_view(out@).push(rel@)
            );
            out.push(rel);
        }
        i += 1;
    }
    out
}

impl MemoryGraph {
    /// The empty graph.
    pub fn new() -> (r: MemoryGraph)
        ensures
            r@ == (MemoryGraphView { nodes: seq![], rels: seq![], next_id: 0 }),
    {
        let r = MemoryGraph { nodes: Vec::new(), rels: Vec::new(), next_id: 0 };
        assert(r@.nodes =~= seq![]);
        assert(r@.rels =~= seq![]);
        r
    }

    /// Adds a node; its identity is made of its position.
    pub fn add_node(&mut self, labels: Vec<String>, properties: PropertyMap) -> (r: EntityId)
        ensures
            r@ == node_id(old(self)@.nodes.len()),
            final(self)@ == (MemoryGraphView {
                nodes: old(self)@.nodes.push(
                    NodeValueView {
                        id: r@,
                        labels: text::strings_view(labels@),
                        properties: properties@,
                    },
                ),
                ..old(self)@
            }),
    {
        let id = ids::numbered_id(110, self.nodes.len() as u128);
        let node = NodeValue { id: id.dup(), labels, properties };
        let ghost before = self.nodes@;
        self.nodes.push(node);
        assert(
            value::node_values_view(before.push(node)) =~= value::node_values_view(before).push(node@)
        );
        id
    }

    /// Adds a relationship; its identity is made of its position.
    pub fn add_rel(
        &mut self,
        start: &EntityId,
        rel_type: String,
        end: &EntityId,
        properties: PropertyMap,
    ) -> (r: EntityId)
        ensures
            r@ == rel_id(old(self)@.rels.len()),
            final(self)@ == (MemoryGraphView {
                rels: old(self)@.rels.push(
                    RelValueView {
                        id: r@,
                        rel_type: rel_type@,
                        start: start@,
                        end: end@,
                        properties: properties@,
                    },
                ),
                ..old(self)@
            }),
    {
        let id = ids::numbered_id(114, self.rels.len() as u128);
        let rel = RelValue {
            id: id.dup(),
            rel_type,
            start: start.dup(),
            end: end.dup(),
            properties,
        };
        let ghost before = self.rels@;
        self.rels.push(rel);
        assert(
            value::rel_values_view(before.push(rel)) =~= value::rel_values_view(before).push(rel@)
        );
        id
    }

    /// Every relationship, in a stable order. The [`GraphSource`] trait
    /// exposes relationships only by expansion.
    pub fn all_rels(&self) -> (r: Vec<RelValue>)
        ensures
            value::rel_values_view(r@) == self@.rels,
    {
        value::dup_rel_values(&self.rels)
    }

    /// Fold a query's net changes into this graph, so a following query sees
    /// them.
    ///
    /// Created elements carry overlay ids whose counter restarts each query, so
    /// they are remapped to fresh stable ids before being stored; base ids
    /// (matched-and-modified elements, deletions) pass through unchanged.
    /// Deletions apply before upserts.
    pub fn apply(&mut self, changes: &WriteChanges)
        requires
            old(self)@.next_id + at_most_new(changes@) <= u64::MAX,
        ensures
            final(self)@ == old(self)@.applied(changes@),
    {
        let ghost before = self@;
        let mut nodes = retain_nodes(&self.nodes, &changes.deleted_nodes);
        let mut rels = retain_rels(&self.rels, &changes.deleted_rels);
        let mut names = Names { given: Vec::new(), next: self.next_id };
        let ghost fresh = Renaming { given: seq![], next: before.next_id as nat };
        assert(names@.given =~= fresh.given);
        let ghost kept_nodes = value::node_values_view(nodes@);
        let ghost kept_rels = value::rel_values_view(rels@);
        let ghost put_nodes = changes@.upserted_nodes;
        let ghost put_rels = changes@.upserted_rels;

        let mut i: usize = 0;
        while i < changes.upserted_nodes.len()
            invariant
                i <= changes.upserted_nodes.len(),
                before == self@,
                before.next_id + at_most_new(changes@) <= u64::MAX,
                put_nodes == value::node_values_view(changes.upserted_nodes@),
                put_nodes == changes@.upserted_nodes,
                names.next <= before.next_id + i,
                (value::node_values_view(nodes@), names@) == upserted_nodes(
                    kept_nodes,
                    put_nodes,
                    i as nat,
                    fresh,
                ),
            decreases changes.upserted_nodes.len() - i,
        {
            let node = &changes.upserted_nodes[i];
            assert(put_nodes[i as int] == node@);
            let id = names.rename(&node.id);
            let value = NodeValue {
                id,
                labels: text::dup_strings(&node.labels),
                properties: node.properties.dup(),
            };
            overlay::put_node_version(&mut nodes, value);
            i += 1;
        }
        let ghost named = names@;
        let mut j: usize = 0;
        while j < changes.upserted_rels.len()
            invariant
                j <= changes.upserted_rels.len(),
                before == self@,
                before.next_id + at_most_new(changes@) <= u64::MAX,
                put_rels == value::rel_values_view(changes.upserted_rels@),
                put_rels == changes@.upserted_rels,
                names.next <= before.next_id + changes@.upserted_nodes.len() + 3 * j,
                (value::rel_values_view(rels@), names@) == upserted_rels(
                    kept_rels,
                    put_rels,
                    j as nat,
                    named,
                ),
            decreases changes.upserted_rels.len() - j,
        {
            let rel = &changes.upserted_rels[j];
            assert(put_rels[j as int] == rel@);
            let id = names.rename(&rel.id);
            let start = names.rename(&rel.start);
            let end = names.rename(&rel.end);
            let value = RelValue {
                id,
                rel_type: rel.rel_type.clone(),
                start,
                end,
                properties: rel.properties.dup(),
            };
            overlay::put_rel_version(&mut rels, value);
            j += 1;
        }
        self.nodes = nodes;
        self.rels = rels;
        self.next_id = names.next;
    }
}

impl Default for MemoryGraph {
    fn default() -> (r: Self)
        ensures
            r@ == (MemoryGraphView { nodes: seq![], rels: seq![], next_id: 0 }),
    {
        MemoryGraph::new()
    }
}

} // verus!
