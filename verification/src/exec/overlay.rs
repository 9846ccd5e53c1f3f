//! The write-execution model.
//!
//! Read clauses run over a read-only [`GraphSource`]. Write clauses need a
//! graph they can mutate and whose effects later clauses in the same query
//! observe (openCypher: writes are visible downstream). [`MutableGraph`]
//! provides both: it wraps an immutable base graph with an overlay of pending
//! changes and itself implements [`GraphSource`], so a `MATCH` after a `CREATE`
//! sees the created elements.
//!
//! Every applied change is also appended to an ordered [`Mutation`] log.

use vstd::prelude::*;

use crate::ast::Direction;
use crate::exec::governor;
use crate::exec::ids;
use crate::exec::source::{self, GraphSource, GraphView, WriteChanges, WriteChangesView};
use crate::exec::value::{
    self, EntityId, EntityIdView, NodeValue, NodeValueView, PropertyMap, PropertyMapView, RelValue,
    RelValueView,
};
use crate::text;

verus! {

/// The cumulative side effects of a write query.
#[derive(Debug, Clone, Copy, PartialEq, Eq, Structural)]
pub struct WriteSummary {
    pub nodes_created: u64,
    pub relationships_created: u64,
    pub properties_set: u64,
    pub labels_added: u64,
    pub labels_removed: u64,
    pub nodes_deleted: u64,
    pub relationships_deleted: u64,
}

/// The summary of no change.
pub open spec fn no_writes() -> WriteSummary {
    WriteSummary {
        nodes_created: 0,
        relationships_created: 0,
        properties_set: 0,
        labels_added: 0,
        labels_removed: 0,
        nodes_deleted: 0,
        relationships_deleted: 0,
    }
}

impl Default for WriteSummary {
    fn default() -> (r: Self)
        ensures
            r == no_writes(),
    {
        WriteSummary {
            nodes_created: 0,
            relationships_created: 0,
            properties_set: 0,
            labels_added: 0,
            labels_removed: 0,
            nodes_deleted: 0,
            relationships_deleted: 0,
        }
    }
}

impl WriteSummary {
    /// Whether no change was recorded (drives "nothing to commit").
    pub fn is_empty(&self) -> (r: bool)
        ensures
            r == (*self == no_writes()),
    {
        *self == WriteSummary::default()
    }
}

/// One graph change, recorded in application order.
#[derive(Debug)]
pub enum Mutation {
    CreateNode(NodeValue),
    CreateRel(RelValue),
    UpdateNode(NodeValue),
    UpdateRel(RelValue),
    DeleteNode(EntityId),
    DeleteRel(RelValue),
}

/// The value that a [`Mutation`] stands for.
pub enum MutationView {
    CreateNode(NodeValueView),
    CreateRel(RelValueView),
    UpdateNode(NodeValueView),
    UpdateRel(RelValueView),
    DeleteNode(EntityIdView),
    DeleteRel(RelValueView),
}

impl Mutation {
    pub open spec fn view(&self) -> MutationView
    {
        match self {
            Mutation::CreateNode(x) => MutationView::CreateNode(x@),
            Mutation::CreateRel(x) => MutationView::CreateRel(x@),
            Mutation::UpdateNode(x) => MutationView::UpdateNode(x@),
            Mutation::UpdateRel(x) => MutationView::UpdateRel(x@),
            Mutation::DeleteNode(x) => MutationView::DeleteNode(x@),
            Mutation::DeleteRel(x) => MutationView::DeleteRel(x@),
        }
    }
}

/// A base graph and the pending changes over it.
pub struct OverlayView {
    pub base: GraphView,
    pub created_nodes: Seq<NodeValueView>,
    /// Base nodes as they are now.
    pub changed_nodes: Seq<NodeValueView>,
    pub created_rels: Seq<RelValueView>,
    /// Base relationships as they are now.
    pub changed_rels: Seq<RelValueView>,
    pub deleted_nodes: Seq<EntityIdView>,
    pub deleted_rels: Seq<RelValueView>,
    pub log: Seq<MutationView>,
    pub summary: WriteSummary,
}

/// The first of `rels` from `i` on with the identity `id`.
pub open spec fn find_rel(rels: Seq<RelValueView>, id: EntityIdView, i: int) -> Option<RelValueView>
    decreases rels.len() - i,
{
    if i < 0 || i >= rels.len() {
        None
    } else if rels[i].id == id {
        Some(rels[i])
    } else {
        find_rel(rels, id, i + 1)
    }
}

impl OverlayView {
    /// No changes over `base`.
    pub open spec fn over(base: GraphView) -> OverlayView {
        OverlayView {
            base,
            created_nodes: seq![],
            changed_nodes: seq![],
            created_rels: seq![],
            changed_rels: seq![],
            deleted_nodes: seq![],
            deleted_rels: seq![],
            log: seq![],
            summary: no_writes(),
        }
    }

    pub open spec fn node_is_gone(self, id: EntityIdView) -> bool {
        self.deleted_nodes.contains(id)
    }

    pub open spec fn rel_is_gone(self, id: EntityIdView) -> bool {
        find_rel(self.deleted_rels, id, 0) is Some
    }

    /// The overlay's own version of a node, if it has one.
    pub open spec fn own_node(self, id: EntityIdView) -> Option<NodeValueView> {
        match source::find_node(self.created_nodes, id, 0) {
            Some(n) => Some(n),
            None => source::find_node(self.changed_nodes, id, 0),
        }
    }

    /// The overlay's own version of a relationship, if it has one.
    pub open spec fn own_rel(self, id: EntityIdView) -> Option<RelValueView> {
        match find_rel(self.created_rels, id, 0) {
            Some(r) => Some(r),
            None => find_rel(self.changed_rels, id, 0),
        }
    }

    /// A node by its identity.
    pub open spec fn find(self, id: EntityIdView) -> Option<NodeValueView> {
        if self.node_is_gone(id) {
            None
        } else {
            match self.own_node(id) {
                Some(n) => Some(n),
                None => (self.base.node)(id),
            }
        }
    }

    /// A base node as it is now.
    pub open spec fn current_node(self, n: NodeValueView) -> NodeValueView {
        match source::find_node(self.changed_nodes, n.id, 0) {
            Some(c) => c,
            None => n,
        }
    }

    /// A base relationship as it is now.
    pub open spec fn current_rel(self, r: RelValueView) -> RelValueView {
        match find_rel(self.changed_rels, r.id, 0) {
            Some(c) => c,
            None => r,
        }
    }

    /// The first `n` base nodes as they are now.
    pub open spec fn live_base_nodes(self, n: nat) -> Seq<NodeValueView>
        decreases n,
    {
        if n == 0 || n > self.base.nodes.len() {
            seq![]
        } else {
            let before = self.live_base_nodes((n - 1) as nat);
            let node = self.base.nodes[n - 1];
            if self.node_is_gone(node.id) {
                before
            } else {
                before.push(self.current_node(node))
            }
        }
    }

    /// The first `n` created nodes that are not deleted again.
    pub open spec fn live_created_nodes(self, n: nat) -> Seq<NodeValueView>
        decreases n,
    {
        if n == 0 || n > self.created_nodes.len() {
            seq![]
        } else {
            let before = self.live_created_nodes((n - 1) as nat);
            let node = self.created_nodes[n - 1];
            if self.node_is_gone(node.id) {
                before
            } else {
                before.push(node)
            }
        }
    }

    /// The first `n` created relationships that are not deleted again.
    pub open spec fn live_created_rels(self, n: nat) -> Seq<RelValueView>
        decreases n,
    {
        if n == 0 || n > self.created_rels.len() {
            seq![]
        } else {
            let before = self.live_created_rels((n - 1) as nat);
            let rel = self.created_rels[n - 1];
            if self.rel_is_gone(rel.id) {
                before
            } else {
                before.push(rel)
            }
        }
    }

    /// The first `n` of the base's `ways` as they are now.
    pub open spec fn live_ways(
        self,
        ways: Seq<(RelValueView, NodeValueView)>,
        n: nat,
    ) -> Seq<(RelValueView, NodeValueView)>
        decreases n,
    {
        if n == 0 || n > ways.len() {
            seq![]
        } else {
            let before = self.live_ways(ways, (n - 1) as nat);
            let (rel, node) = ways[n - 1];
            if self.rel_is_gone(rel.id) || self.node_is_gone(node.id) {
                before
            } else {
                before.push((self.current_rel(rel), self.current_node(node)))
            }
        }
    }

    /// The expansion of `node`: the base's ways, then the created ones.
    pub open spec fn ways(
        self,
        node: EntityIdView,
        direction: Direction,
        types: Seq<Seq<char>>,
    ) -> Seq<(RelValueView, NodeValueView)> {
        let from_base = (self.base.expand)(node, direction, types);
        let created = self.live_created_rels(self.created_rels.len());
        self.live_ways(from_base, from_base.len()) + source::expanded(
            |id: EntityIdView| self.find(id),
            created,
            node,
            direction,
            types,
            created.len(),
        )
    }

    /// What queries see: the base with the changes merged in.
    pub open spec fn graph(self) -> GraphView {
        GraphView {
            nodes: self.live_base_nodes(self.base.nodes.len()) + self.live_created_nodes(
                self.created_nodes.len(),
            ),
            expand: |node: EntityIdView, direction: Direction, types: Seq<Seq<char>>|
                self.ways(node, direction, types),
            node: |id: EntityIdView| self.find(id),
        }
    }

    /// How many elements were created, which numbers the next one.
    pub open spec fn count_created(self) -> nat {
        self.created_nodes.len() + self.created_rels.len()
    }

    /// The overlay with a node created.
    pub open spec fn with_node(self, labels: Seq<Seq<char>>, properties: PropertyMapView) -> (
        OverlayView,
        NodeValueView,
    ) {
        let node = NodeValueView { id: ids::overlay_id(self.count_created()), labels, properties };
        (
            OverlayView {
                created_nodes: self.created_nodes.push(node),
                log: self.log.push(MutationView::CreateNode(node)),
                summary: WriteSummary {
                    nodes_created: governor::saturating_sum(self.summary.nodes_created, 1),
                    ..self.summary
                },
                ..self
            },
            node,
        )
    }

    /// The overlay with a relationship created.
    pub open spec fn with_rel(
        self,
        start: EntityIdView,
        rel_type: Seq<char>,
        end: EntityIdView,
        properties: PropertyMapView,
    ) -> (OverlayView, RelValueView) {
        let rel = RelValueView {
            id: ids::overlay_id(self.count_created()),
            rel_type,
            start,
            end,
            properties,
        };
        (
            OverlayView {
                created_rels: self.created_rels.push(rel),
                log: self.log.push(MutationView::CreateRel(rel)),
                summary: WriteSummary {
                    relationships_created: governor::saturating_sum(
                        self.summary.relationships_created,
                        1,
                    ),
                    ..self.summary
                },
                ..self
            },
            rel,
        )
    }
}

/// `nodes` with `node` in place of the one with its identity from `i` on, or
/// behind them where there is none.
pub open spec fn with_version(nodes: Seq<NodeValueView>, node: NodeValueView, i: int) -> Seq<
    NodeValueView,
>
    decreases nodes.len() - i,
{
    if i < 0 || i >= nodes.len() {
        nodes.push(node)
    } else if nodes[i].id == node.id {
        nodes.update(i, node)
    } else {
        with_version(nodes, node, i + 1)
    }
}

/// As [`with_version`], for relationships.
pub open spec fn with_rel_version(rels: Seq<RelValueView>, rel: RelValueView, i: int) -> Seq<
    RelValueView,
>
    decreases rels.len() - i,
{
    if i < 0 || i >= rels.len() {
        rels.push(rel)
    } else if rels[i].id == rel.id {
        rels.update(i, rel)
    } else {
        with_rel_version(rels, rel, i + 1)
    }
}

/// How much a change adds to the summary.
pub struct Tally {
    pub properties_set: u64,
    pub labels_added: u64,
    pub labels_removed: u64,
}

pub open spec fn tallied(s: WriteSummary, t: Tally) -> WriteSummary {
    WriteSummary {
        properties_set: governor::saturating_sum(s.properties_set, t.properties_set),
        labels_added: governor::saturating_sum(s.labels_added, t.labels_added),
        labels_removed: governor::saturating_sum(s.labels_removed, t.labels_removed),
        ..s
    }
}

impl OverlayView {
    /// The overlay with a new version of a node.
    pub open spec fn with_node_version(self, node: NodeValueView, t: Tally) -> OverlayView {
        let logged = OverlayView {
            log: self.log.push(MutationView::UpdateNode(node)),
            summary: tallied(self.summary, t),
            ..self
        };
        if source::find_node(self.created_nodes, node.id, 0) is Some {
            OverlayView { created_nodes: with_version(self.created_nodes, node, 0), ..logged }
        } else {
            OverlayView { changed_nodes: with_version(self.changed_nodes, node, 0), ..logged }
        }
    }

    /// The overlay with a new version of a relationship.
    pub open spec fn with_relationship_version(self, rel: RelValueView, t: Tally) -> OverlayView {
        let logged = OverlayView {
            log: self.log.push(MutationView::UpdateRel(rel)),
            summary: tallied(self.summary, t),
            ..self
        };
        if find_rel(self.created_rels, rel.id, 0) is Some {
            OverlayView { created_rels: with_rel_version(self.created_rels, rel, 0), ..logged }
        } else {
            OverlayView { changed_rels: with_rel_version(self.changed_rels, rel, 0), ..logged }
        }
    }

    /// The overlay without a node; one that is gone already stays gone.
    pub open spec fn without_node(self, id: EntityIdView) -> OverlayView {
        if self.node_is_gone(id) {
            self
        } else {
            OverlayView {
                deleted_nodes: self.deleted_nodes.push(id),
                log: self.log.push(MutationView::DeleteNode(id)),
                summary: WriteSummary {
                    nodes_deleted: governor::saturating_sum(self.summary.nodes_deleted, 1),
                    ..self.summary
                },
                ..self
            }
        }
    }

    /// The overlay without a relationship; one that is gone already stays
    /// gone.
    pub open spec fn without_rel(self, rel: RelValueView) -> OverlayView {
        if self.rel_is_gone(rel.id) {
            self
        } else {
            OverlayView {
                deleted_rels: self.deleted_rels.push(rel),
                log: self.log.push(MutationView::DeleteRel(rel)),
                summary: WriteSummary {
                    relationships_deleted: governor::saturating_sum(
                        self.summary.relationships_deleted,
                        1,
                    ),
                    ..self.summary
                },
                ..self
            }
        }
    }
}

// --- Execution ------------------------------------------------------------------------------------

/// A read-only base graph plus an overlay of pending changes. Reads merge the
/// two; writes go to the overlay and the mutation log.
///
/// Created relationships may connect base nodes, created nodes, or a mix;
/// `expand` therefore scans both the base's edges and the overlay's.
pub struct MutableGraph<'a, G: GraphSource> {
    base: &'a G,
    created_nodes: Vec<NodeValue>,
    changed_nodes: Vec<NodeValue>,
    created_rels: Vec<RelValue>,
    changed_rels: Vec<RelValue>,
    deleted_nodes: Vec<EntityId>,
    deleted_rels: Vec<RelValue>,
    log: Vec<Mutation>,
    summary: WriteSummary,
}

pub open spec fn mutations_view(v: Seq<Mutation>) -> Seq<MutationView> {
    Seq::new(v.len(), |i: int| v[i]@)
}

pub(crate) fn search_rel<'b>(rels: &'b Vec<RelValue>, id: &EntityId) -> (r: Option<&'b RelValue>)
    ensures
        find_rel(value::rel_values_view(rels@), id@, 0) == match r {
            Some(x) => Some(x@),
            None => None,
        },
{
    let ghost all = value::rel_values_view(rels@);
    let mut i: usize = 0;
    while i < rels.len()
        invariant
            i <= rels.len(),
            all == value::rel_values_view(rels@),
            find_rel(all, id@, 0) == find_rel(all, id@, i as int),
        decreases rels.len() - i,
    {
        assert(all[i as int] == rels@[i as int]@);
        if rels[i].id.same(id) {
            return Some(&rels[i]);
        }
        i += 1;
    }
    None
}

pub(crate) fn put_node_version(nodes: &mut Vec<NodeValue>, node: NodeValue)
    ensures
        value::node_values_view(final(nodes)@) == with_version(
            value::node_values_view(old(nodes)@),
            node@,
            0,
        ),
{
    let ghost before = value::node_values_view(nodes@);
    let mut i: usize = 0;
    while i < nodes.len()
        invariant
            i <= nodes.len(),
            before == value::node_values_view(nodes@),
            before == value::node_values_view(old(nodes)@),
            with_version(before, node@, 0) == with_version(before, node@, i as int),
        decreases nodes.len() - i,
    {
        assert(before[i as int] == nodes@[i as int]@);
        if nodes[i].id.same(&node.id) {
            nodes[i] = node;
            assert(value::node_values_view(nodes@) =~= before.update(i as int, node@));
            return;
        }
        i += 1;
    }
    nodes.push(node);
    assert(value::node_values_view(nodes@) =~= before.push(node@));
}

pub(crate) fn put_rel_version(rels: &mut Vec<RelValue>, rel: RelValue)
    ensures
        value::rel_values_view(final(rels)@) == with_rel_version(
            value::rel_values_view(old(rels)@),
            rel@,
            0,
        ),
{
    let ghost before = value::rel_values_view(rels@);
    let mut i: usize = 0;
    while i < rels.len()
        invariant
            i <= rels.len(),
            before == value::rel_values_view(rels@),
            before == value::rel_values_view(old(rels)@),
            with_rel_version(before, rel@, 0) == with_rel_version(before, rel@, i as int),
        decreases rels.len() - i,
    {
        assert(before[i as int] == rels@[i as int]@);
        if rels[i].id.same(&rel.id) {
            rels[i] = rel;
            assert(value::rel_values_view(rels@) =~= before.update(i as int, rel@));
            return;
        }
        i += 1;
    }
    rels.push(rel);
    assert(value::rel_values_view(rels@) =~= before.push(rel@));
}

impl<'a, G: GraphSource> MutableGraph<'a, G> {
    pub closed spec fn view(&self) -> OverlayView {
        OverlayView {
            base: self.base.graph(),
            created_nodes: value::node_values_view(self.created_nodes@),
            changed_nodes: value::node_values_view(self.changed_nodes@),
            created_rels: value::rel_values_view(self.created_rels@),
            changed_rels: value::rel_values_view(self.changed_rels@),
            deleted_nodes: source::entity_ids_view(self.deleted_nodes@),
            deleted_rels: value::rel_values_view(self.deleted_rels@),
            log: mutations_view(self.log@),
            summary: self.summary,
        }
    }

    /// No changes over `base`.
    pub fn new(base: &'a G) -> (r: Self)
        ensures
            r@ == OverlayView::over(base.graph()),
    {
        let r = MutableGraph {
            base,
            created_nodes: Vec::new(),
            changed_nodes: Vec::new(),
            created_rels: Vec::new(),
            changed_rels: Vec::new(),
            deleted_nodes: Vec::new(),
            deleted_rels: Vec::new(),
            log: Vec::new(),
            summary: WriteSummary::default(),
        };
        assert(r@.created_nodes =~= seq![]);
        assert(r@.changed_nodes =~= seq![]);
        assert(r@.created_rels =~= seq![]);
        assert(r@.changed_rels =~= seq![]);
        assert(r@.deleted_nodes =~= seq![]);
        assert(r@.deleted_rels =~= seq![]);
        assert(r@.log =~= seq![]);
        r
    }

    fn fresh_id(&self) -> (r: EntityId)
        ensures
            r@ == ids::overlay_id(self@.count_created()),
    {
        ids::new_overlay_id(self.created_nodes.len() as u128 + self.created_rels.len() as u128)
    }

    /// Create a node with `labels` and `properties`; returns the new node
    /// value (its identity is freshly synthesised for this query).
    pub fn create_node(&mut self, labels: Vec<String>, properties: PropertyMap) -> (r: NodeValue)
        ensures
            (final(self)@, r@) == old(self)@.with_node(text::strings_view(labels@), properties@),
    {
        let ghost before = self@;
        let node = NodeValue { id: self.fresh_id(), labels, properties };
        let first = node.dup();
        let second = Mutation::CreateNode(node.dup());
        let ghost c = self.created_nodes@;
        let ghost l = self.log@;
        self.created_nodes.push(first);
        self.log.push(second);
        self.summary.nodes_created = self.summary.nodes_created.saturating_add(1);
        proof {
            assert(
                value::node_values_view(c.push(first)) =~= value::node_values_view(c).push(node@)
            );
            assert(mutations_view(l.push(second)) =~= mutations_view(l).push(second@));
        }
        node
    }

    /// Create a relationship of `rel_type` from `start` to `end`.
    pub fn create_rel(
        &mut self,
        start: EntityId,
        rel_type: String,
        end: EntityId,
        properties: PropertyMap,
    ) -> (r: RelValue)
        ensures
            (final(self)@, r@) == old(self)@.with_rel(start@, rel_type@, end@, properties@),
    {
        let ghost before = self@;
        let rel = RelValue { id: self.fresh_id(), rel_type, start, end, properties };
        let first = rel.dup();
        let second = Mutation::CreateRel(rel.dup());
        let ghost c = self.created_rels@;
        let ghost l = self.log@;
        self.created_rels.push(first);
        self.log.push(second);
        self.summary.relationships_created = self.summary.relationships_created.saturating_add(1);
        proof {
            assert(value::rel_values_view(c.push(first)) =~= value::rel_values_view(c).push(rel@));
            assert(mutations_view(l.push(second)) =~= mutations_view(l).push(second@));
        }
        rel
    }

    fn tally(&mut self, t: &Tally)
        ensures
            final(self)@ == (OverlayView {
                summary: tallied(old(self)@.summary, *t),
                ..old(self)@
            }),
    {
        self.summary.properties_set = self.summary.properties_set.saturating_add(
            t.properties_set,
        );
        self.summary.labels_added = self.summary.labels_added.saturating_add(t.labels_added);
        self.summary.labels_removed = self.summary.labels_removed.saturating_add(
            t.labels_removed,
        );
    }

    fn record(&mut self, m: Mutation)
        ensures
            final(self)@ == (OverlayView { log: old(self)@.log.push(m@), ..old(self)@ }),
    {
        let ghost l = self.log@;
        self.log.push(m);
        assert(mutations_view(l.push(m)) =~= mutations_view(l).push(m@));
    }

    /// Record a new version of a node.
    pub fn update_node(&mut self, node: NodeValue, t: Tally)
        ensures
            final(self)@ == old(self)@.with_node_version(node@, t),
    {
        self.tally(&t);
        self.record(Mutation::UpdateNode(node.dup()));
        if source::search_node(&self.created_nodes, &node.id).is_some() {
            put_node_version(&mut self.created_nodes, node);
        } else {
            put_node_version(&mut self.changed_nodes, node);
        }
    }

    /// Record a new version of a relationship.
    pub fn update_rel(&mut self, rel: RelValue, t: Tally)
        ensures
            final(self)@ == old(self)@.with_relationship_version(rel@, t),
    {
        self.tally(&t);
        self.record(Mutation::UpdateRel(rel.dup()));
        if search_rel(&self.created_rels, &rel.id).is_some() {
            put_rel_version(&mut self.created_rels, rel);
        } else {
            put_rel_version(&mut self.changed_rels, rel);
        }
    }

    fn node_gone(&self, id: &EntityId) -> (r: bool)
        ensures
            r == self@.node_is_gone(id@),
    {
        let ghost all = self@.deleted_nodes;
        let mut i: usize = 0;
        while i < self.deleted_nodes.len()
            invariant
                i <= self.deleted_nodes.len(),
                all == self@.deleted_nodes,
                forall|k: int| 0 <= k < i ==> #[trigger] all[k] != id@,
            decreases self.deleted_nodes.len() - i,
        {
            assert(all[i as int] == self.deleted_nodes@[i as int]@);
            if self.deleted_nodes[i].same(id) {
                return true;
            }
            i += 1;
        }
        false
    }

    fn rel_gone(&self, id: &EntityId) -> (r: bool)
        ensures
            r == self@.rel_is_gone(id@),
    {
        search_rel(&self.deleted_rels, id).is_some()
    }

    /// Delete a node.
    pub fn delete_node(&mut self, id: &EntityId)
        ensures
            final(self)@ == old(self)@.without_node(id@),
    {
        if self.node_gone(id) {
            return;
        }
        self.record(Mutation::DeleteNode(id.dup()));
        let gone = id.dup();
        let ghost d = self.deleted_nodes@;
        self.deleted_nodes.push(gone);
        self.summary.nodes_deleted = self.summary.nodes_deleted.saturating_add(1);
        assert(source::entity_ids_view(d.push(gone)) =~= source::entity_ids_view(d).push(id@));
    }

    /// Delete a relationship.
    pub fn delete_rel(&mut self, rel: &RelValue)
        ensures
            final(self)@ == old(self)@.without_rel(rel@),
    {
        if self.rel_gone(&rel.id) {
            return;
        }
        self.record(Mutation::DeleteRel(rel.dup()));
        let gone = rel.dup();
        let ghost d = self.deleted_rels@;
        self.deleted_rels.push(gone);
        self.summary.relationships_deleted = self.summary.relationships_deleted.saturating_add(1);
        assert(value::rel_values_view(d.push(gone)) =~= value::rel_values_view(d).push(rel@));
    }

    /// The side effects so far.
    pub fn summary(&self) -> (r: &WriteSummary)
        ensures
            *r == self@.summary,
    {
        &self.summary
    }

    /// Consume the graph, yielding the ordered mutation log and the summary.
    pub fn into_log(self) -> (r: (Vec<Mutation>, WriteSummary))
        ensures
            mutations_view(r.0@) == self@.log,
            r.1 == self@.summary,
    {
        (self.log, self.summary)
    }

    /// The overlay's own version of a node.
    pub(crate) fn own_node_version(&self, id: &EntityId) -> (r: Option<&NodeValue>)
        ensures
            self@.own_node(id@) == match r {
                Some(n) => Some(n@),
                None => None,
            },
    {
        match source::search_node(&self.created_nodes, id) {
            Some(n) => Some(n),
            None => source::search_node(&self.changed_nodes, id),
        }
    }

    /// The overlay's own version of a relationship.
    pub(crate) fn own_rel_version(&self, id: &EntityId) -> (r: Option<&RelValue>)
        ensures
            self@.own_rel(id@) == match r {
                Some(x) => Some(x@),
                None => None,
            },
    {
        match search_rel(&self.created_rels, id) {
            Some(x) => Some(x),
            None => search_rel(&self.changed_rels, id),
        }
    }

    fn current(&self, node: &NodeValue) -> (r: NodeValue)
        ensures
            r@ == self@.current_node(node@),
    {
        match source::search_node(&self.changed_nodes, &node.id) {
            Some(c) => c.dup(),
            None => node.dup(),
        }
    }

    fn current_relationship(&self, rel: &RelValue) -> (r: RelValue)
        ensures
            r@ == self@.current_rel(rel@),
    {
        match search_rel(&self.changed_rels, &rel.id) {
            Some(c) => c.dup(),
            None => rel.dup(),
        }
    }

    fn find_node_version(&self, id: &EntityId) -> (r: Option<NodeValue>)
        ensures
            self@.find(id@) == match r {
                Some(n) => Some(n@),
                None => None,
            },
    {
        if self.node_gone(id) {
            return None;
        }
        match self.own_node_version(id) {
            Some(n) => Some(n.dup()),
            None => self.base.node(id),
        }
    }

    fn push_created_nodes(&self, out: &mut Vec<NodeValue>)
        ensures
            value::node_values_view(final(out)@) == value::node_values_view(old(out)@)
                + self@.live_created_nodes(self@.created_nodes.len()),
    {
        let ghost o = self@;
        let ghost before = value::node_values_view(out@);
        let mut i: usize = 0;
        assert(value::node_values_view(out@) =~= before + o.live_created_nodes(0));
        while i < self.created_nodes.len()
            invariant
                i <= self.created_nodes.len(),
                o == self@,
                value::node_values_view(out@) == before + o.live_created_nodes(i as nat),
            decreases self.created_nodes.len() - i,
        {
            let node = &self.created_nodes[i];
            assert(o.created_nodes[i as int] == node@);
            if !self.node_gone(&node.id) {
                let copy = node.dup();
                let ghost v = out@;
                out.push(copy);
                assert(
                    value::node_values_view(v.push(copy)) =~= value::node_values_view(v).push(node@)
                );
            }
            i += 1;
            assert(value::node_values_view(out@) =~= before + o.live_created_nodes(i as nat));
        }
    }

    fn base_ways(&self, ways: &Vec<(RelValue, NodeValue)>) -> (r: Vec<(RelValue, NodeValue)>)
        ensures
            source::steps_view(r@) == self@.live_ways(source::steps_view(ways@), ways@.len()),
    {
        let ghost o = self@;
        let ghost all = source::steps_view(ways@);
        let mut out: Vec<(RelValue, NodeValue)> = Vec::new();
        let mut i: usize = 0;
        assert(source::steps_view(out@) =~= o.live_ways(all, 0));
        while i < ways.len()
            invariant
                i <= ways.len(),
                o == self@,
                all == source::steps_view(ways@),
                source::steps_view(out@) == o.live_ways(all, i as nat),
            decreases ways.len() - i,
        {
            let way = &ways[i];
            assert(all[i as int] == (way.0@, way.1@));
            if !self.rel_gone(&way.0.id) && !self.node_gone(&way.1.id) {
                let step = (self.current_relationship(&way.0), self.current(&way.1));
                assert(source::steps_view(out@.push(step)) =~= source::steps_view(out@).push(
                    (step.0@, step.1@),
                ));
                out.push(step);
            }
            i += 1;
        }
        out
    }

    fn live_rels(&self) -> (r: Vec<RelValue>)
        ensures
            value::rel_values_view(r@) == self@.live_created_rels(self@.created_rels.len()),
    {
        let ghost o = self@;
        let mut out: Vec<RelValue> = Vec::new();
        let mut i: usize = 0;
        assert(value::rel_values_view(out@) =~= o.live_created_rels(0));
        while i < self.created_rels.len()
            invariant
                i <= self.created_rels.len(),
                o == self@,
                value::rel_values_view(out@) == o.live_created_rels(i as nat),
            decreases self.created_rels.len() - i,
        {
            let rel = &self.created_rels[i];
            assert(o.created_rels[i as int] == rel@);
            if !self.rel_gone(&rel.id) {
                let copy = rel.dup();
                assert(
                    value::rel_values_view(out@.push(copy)) =~= value::rel_values_view(out@).push(rel@)
                );
                out.push(copy);
            }
            i += 1;
        }
        out
    }
}

impl<'a, G: GraphSource> GraphSource for MutableGraph<'a, G> {
    open spec fn graph(&self) -> GraphView {
        self@.graph()
    }

    fn all_nodes(&self) -> Vec<NodeValue> {
        let ghost o = self@;
        let nodes = self.base.all_nodes();
        let mut out: Vec<NodeValue> = Vec::new();
        let mut i: usize = 0;
        assert(value::node_values_view(out@) =~= o.live_base_nodes(0));
        while i < nodes.len()
            invariant
                i <= nodes.len(),
                o == self@,
                o.base == self.base.graph(),
                value::node_values_view(nodes@) == o.base.nodes,
                value::node_values_view(out@) == o.live_base_nodes(i as nat),
            decreases nodes.len() - i,
        {
            assert(o.base.nodes[i as int] == nodes@[i as int]@);
            if !self.node_gone(&nodes[i].id) {
                let node = self.current(&nodes[i]);
                assert(
                    value::node_values_view(out@.push(node)) =~= value::node_values_view(out@).push(node@)
                );
                out.push(node);
            }
            i += 1;
        }
        self.push_created_nodes(&mut out);
        out
    }

    fn expand(&self, node: &EntityId, direction: Direction, types: &Vec<String>) -> Vec<
        (RelValue, NodeValue),
    > {
        let ghost o = self@;
        let ghost wanted = text::strings_view(types@);
        let ghost find = |id: EntityIdView| o.find(id);
        let from_base = self.base.expand(node, direction, types);
        let mut out = self.base_ways(&from_base);
        let ghost before = source::steps_view(out@);
        let created = self.live_rels();
        let ghost rels = value::rel_values_view(created@);
        let mut i: usize = 0;
        assert(
            source::steps_view(out@) =~= before + source::expanded(
                find,
                rels,
                node@,
                direction,
                wanted,
                0,
            )
        );
        while i < created.len()
            invariant
                i <= created.len(),
                o == self@,
                find == (|id: EntityIdView| o.find(id)),
                wanted == text::strings_view(types@),
                rels == value::rel_values_view(created@),
                source::steps_view(out@) == before + source::expanded(
                    find,
                    rels,
                    node@,
                    direction,
                    wanted,
                    i as nat,
                ),
            decreases created.len() - i,
        {
            let rel = &created[i];
            assert(rels[i as int] == rel@);
            if source::has_type(rel, types) {
                if let Some(id) = source::end_seen(rel, node, direction) {
                    if let Some(neighbour) = self.find_node_version(id) {
                        let step = (rel.dup(), neighbour);
                        let ghost v = out@;
                        out.push(step);
                        assert(source::steps_view(v.push(step)) =~= source::steps_view(v).push(
                            (step.0@, step.1@),
                        ));
                    }
                }
            }
            i += 1;
            assert(source::steps_view(out@) =~= before + source::expanded(
                find,
                rels,
                node@,
                direction,
                wanted,
                i as nat,
            ));
        }
        out
    }

    fn node(&self, id: &EntityId) -> Option<NodeValue> {
        self.find_node_version(id)
    }
}

// --- Net effect -------------------------------------------------------------------------------------

/// Those of the first `n` nodes that are not gone.
pub open spec fn live_nodes(o: OverlayView, nodes: Seq<NodeValueView>, n: nat) -> Seq<NodeValueView>
    decreases n,
{
    if n == 0 || n > nodes.len() {
        seq![]
    } else {
        let before = live_nodes(o, nodes, (n - 1) as nat);
        if o.node_is_gone(nodes[n - 1].id) {
            before
        } else {
            before.push(nodes[n - 1])
        }
    }
}

/// Those of the first `n` relationships that are not gone.
pub open spec fn live_rels_of(o: OverlayView, rels: Seq<RelValueView>, n: nat) -> Seq<RelValueView>
    decreases n,
{
    if n == 0 || n > rels.len() {
        seq![]
    } else {
        let before = live_rels_of(o, rels, (n - 1) as nat);
        if o.rel_is_gone(rels[n - 1].id) {
            before
        } else {
            before.push(rels[n - 1])
        }
    }
}

/// Those of the first `n` identities that are the base's.
pub open spec fn base_ids(ids: Seq<EntityIdView>, n: nat) -> Seq<EntityIdView>
    decreases n,
{
    if n == 0 || n > ids.len() {
        seq![]
    } else {
        let before = base_ids(ids, (n - 1) as nat);
        if ids::is_overlay_id(ids[n - 1]) {
            before
        } else {
            before.push(ids[n - 1])
        }
    }
}

/// Those of the first `n` relationships that are the base's.
pub open spec fn base_rels(rels: Seq<RelValueView>, n: nat) -> Seq<RelValueView>
    decreases n,
{
    if n == 0 || n > rels.len() {
        seq![]
    } else {
        let before = base_rels(rels, (n - 1) as nat);
        if ids::is_overlay_id(rels[n - 1].id) {
            before
        } else {
            before.push(rels[n - 1])
        }
    }
}

impl OverlayView {
    /// The net effect: the final state of what was created or changed and
    /// still exists, and what of the base was deleted. An element that was
    /// created and deleted again leaves no trace.
    pub open spec fn net(self) -> WriteChangesView {
        WriteChangesView {
            upserted_nodes: live_nodes(self, self.created_nodes, self.created_nodes.len())
                + live_nodes(self, self.changed_nodes, self.changed_nodes.len()),
            upserted_rels: live_rels_of(self, self.created_rels, self.created_rels.len())
                + live_rels_of(self, self.changed_rels, self.changed_rels.len()),
            deleted_nodes: base_ids(self.deleted_nodes, self.deleted_nodes.len()),
            deleted_rels: base_rels(self.deleted_rels, self.deleted_rels.len()),
        }
    }
}

impl<'a, G: GraphSource> MutableGraph<'a, G> {
    fn push_live_nodes(&self, nodes: &Vec<NodeValue>, out: &mut Vec<NodeValue>)
        ensures
            value::node_values_view(final(out)@) == value::node_values_view(old(out)@) + live_nodes(
                self@,
                value::node_values_view(nodes@),
                nodes@.len(),
            ),
    {
        let ghost o = self@;
        let ghost all = value::node_values_view(nodes@);
        let ghost before = value::node_values_view(out@);
        let mut i: usize = 0;
        assert(value::node_values_view(out@) =~= before + live_nodes(o, all, 0));
        while i < nodes.len()
            invariant
                i <= nodes.len(),
                o == self@,
                all == value::node_values_view(nodes@),
                value::node_values_view(out@) == before + live_nodes(o, all, i as nat),
            decreases nodes.len() - i,
        {
            assert(all[i as int] == nodes@[i as int]@);
            if !self.node_gone(&nodes[i].id) {
                let copy = nodes[i].dup();
                let ghost v = out@;
                out.push(copy);
                assert(
                    value::node_values_view(v.push(copy)) =~= value::node_values_view(v).push(copy@)
                );
            }
            i += 1;
            assert(value::node_values_view(out@) =~= before + live_nodes(o, all, i as nat));
        }
    }

    fn push_live_rels(&self, rels: &Vec<RelValue>, out: &mut Vec<RelValue>)
        ensures
            value::rel_values_view(final(out)@) == value::rel_values_view(old(out)@) + live_rels_of(
                self@,
                value::rel_values_view(rels@),
                rels@.len(),
            ),
    {
        let ghost o = self@;
        let ghost all = value::rel_values_view(rels@);
        let ghost before = value::rel_values_view(out@);
        let mut i: usize = 0;
        assert(value::rel_values_view(out@) =~= before + live_rels_of(o, all, 0));
        while i < rels.len()
            invariant
                i <= rels.len(),
                o == self@,
                all == value::rel_values_view(rels@),
                value::rel_values_view(out@) == before + live_rels_of(o, all, i as nat),
            decreases rels.len() - i,
        {
            assert(all[i as int] == rels@[i as int]@);
            if !self.rel_gone(&rels[i].id) {
                let copy = rels[i].dup();
                let ghost v = out@;
                out.push(copy);
                assert(
                    value::rel_values_view(v.push(copy)) =~= value::rel_values_view(v).push(copy@)
                );
            }
            i += 1;
            assert(value::rel_values_view(out@) =~= before + live_rels_of(o, all, i as nat));
        }
    }

    /// The query's net effect on the base graph.
    pub fn changes(&self) -> (r: WriteChanges)
        ensures
            r@ == self@.net(),
    {
        let mut upserted_nodes: Vec<NodeValue> = Vec::new();
        assert(value::node_values_view(upserted_nodes@) =~= seq![]);
        self.push_live_nodes(&self.created_nodes, &mut upserted_nodes);
        self.push_live_nodes(&self.changed_nodes, &mut upserted_nodes);
        let mut upserted_rels: Vec<RelValue> = Vec::new();
        assert(value::rel_values_view(upserted_rels@) =~= seq![]);
        self.push_live_rels(&self.created_rels, &mut upserted_rels);
        self.push_live_rels(&self.changed_rels, &mut upserted_rels);

        let ghost ids = source::entity_ids_view(self.deleted_nodes@);
        let mut deleted_nodes: Vec<EntityId> = Vec::new();
        let mut i: usize = 0;
        assert(source::entity_ids_view(deleted_nodes@) =~= base_ids(ids, 0));
        while i < self.deleted_nodes.len()
            invariant
                i <= self.deleted_nodes.len(),
                ids == source::entity_ids_view(self.deleted_nodes@),
                source::entity_ids_view(deleted_nodes@) == base_ids(ids, i as nat),
            decreases self.deleted_nodes.len() - i,
        {
            assert(ids[i as int] == self.deleted_nodes@[i as int]@);
            if !ids::is_overlay(&self.deleted_nodes[i]) {
                let id = self.deleted_nodes[i].dup();
                assert(source::entity_ids_view(deleted_nodes@.push(id)) =~= source::entity_ids_view(
                    deleted_nodes@,
                ).push(id@));
                deleted_nodes.push(id);
            }
            i += 1;
        }
        let ghost gone = value::rel_values_view(self.deleted_rels@);
        let mut deleted_rels: Vec<RelValue> = Vec::new();
        let mut j: usize = 0;
        assert(value::rel_values_view(deleted_rels@) =~= base_rels(gone, 0));
        while j < self.deleted_rels.len()
            invariant
                j <= self.deleted_rels.len(),
                gone == value::rel_values_view(self.deleted_rels@),
                value::rel_values_view(deleted_rels@) == base_rels(gone, j as nat),
            decreases self.deleted_rels.len() - j,
        {
            assert(gone[j as int] == self.deleted_rels@[j as int]@);
            if !ids::is_overlay(&self.deleted_rels[j].id) {
                let rel = self.deleted_rels[j].dup();
                assert(value::rel_values_view(deleted_rels@.push(rel)) =~= value::rel_values_view(
                    deleted_rels@,
                ).push(rel@));
                deleted_rels.push(rel);
            }
            j += 1;
        }
        let r = WriteChanges { upserted_nodes, upserted_rels, deleted_nodes, deleted_rels };
        proof {
            let n = self@.net();
            assert(r@.upserted_nodes =~= n.upserted_nodes);
            assert(r@.upserted_rels =~= n.upserted_rels);
        }
        r
    }
}

} // verus!
