//! Bridges stored graph records to the executor's [`GraphSource`]: a
//! materialised snapshot of one version, indexed at construction, which
//! decouples execution from the storage layer's lifetimes.

use vstd::prelude::*;
use vstd::string::*;

use crate::ast::Direction;
use crate::bind::catalogue::{Catalogue, CatalogueView, SchemaEntry};
use crate::exec::families;
use crate::exec::id_index::{self, IdIndex};
use crate::exec::records::{
    self, EdgeRecord, ModelValue, ModelValueView, NodeKey, NodeKeyView, NodeRecord, NodeRecordView,
};
use crate::exec::seek::{self, RangeEnd, RangePlan};
use crate::exec::source::{self, GraphSource, GraphView};
use crate::exec::value::{
    self, EntityId, EntityIdView, NodeValue, NodeValueView, Order, PropertyMap, PropertyMapView,
    RelValue, RelValueView, Value, ValueView,
};
use crate::names;
use crate::text;

verus! {

// --- Key names --------------------------------------------------------------------------------------

/// The schema's key-property names, by label.
#[derive(Debug)]
pub struct KeyNames {
    entries: Vec<(String, Vec<String>)>,
}

pub open spec fn key_entries_view(v: Seq<(String, Vec<String>)>) -> Seq<
    (Seq<char>, Seq<Seq<char>>),
> {
    Seq::new(v.len(), |i: int| (v[i].0@, text::strings_view(v[i].1@)))
}

/// The key names of the first `n` declarations of a schema.
pub open spec fn key_names_of(schema: Seq<SchemaEntry>, n: nat) -> Seq<(Seq<char>, Seq<Seq<char>>)>
    decreases n,
{
    if n == 0 || n > schema.len() {
        seq![]
    } else {
        let before = key_names_of(schema, (n - 1) as nat);
        match schema[n - 1] {
            SchemaEntry::Label { name, def } => names::bound_in(
                before,
                name@,
                text::strings_view(def.key@),
            ),
            _ => before,
        }
    }
}

impl KeyNames {
    pub closed spec fn view(&self) -> Seq<(Seq<char>, Seq<Seq<char>>)> {
        key_entries_view(self.entries@)
    }

    /// No names, as without a schema.
    pub fn none() -> (r: KeyNames)
        ensures
            r@ == Seq::<(Seq<char>, Seq<Seq<char>>)>::empty(),
    {
        let r = KeyNames { entries: Vec::new() };
        assert(r@ =~= Seq::<(Seq<char>, Seq<Seq<char>>)>::empty());
        r
    }

    /// How many labels have names.
    pub fn len(&self) -> (r: usize)
        ensures
            r == self@.len(),
    {
        self.entries.len()
    }

    /// The key names of a label.
    pub fn get(&self, label: &str) -> (r: Option<&Vec<String>>)
        ensures
            names::found(self@, label@) == match r {
                Some(names) => Some(text::strings_view(names@)),
                None => None,
            },
    {
        let ghost all = self@;
        let mut i: usize = 0;
        while i < self.entries.len()
            invariant
                i <= self.entries.len(),
                all == self@,
                names::found(all, label@) == names::found_from(all, label@, i as int),
            decreases self.entries.len() - i,
        {
            if text::str_eq(self.entries[i].0.as_str(), label) {
                return Some(&self.entries[i].1);
            }
            i += 1;
        }
        None
    }

    fn insert(&mut self, label: String, names: Vec<String>)
        ensures
            final(self)@ == names::bound_in(old(self)@, label@, text::strings_view(names@)),
    {
        let ghost before = self@;
        let ghost entry = (label@, text::strings_view(names@));
        let mut i: usize = 0;
        while i < self.entries.len()
            invariant
                i <= self.entries.len(),
                before == self@,
                before == old(self)@,
                entry == (label@, text::strings_view(names@)),
                names::bound_in(before, entry.0, entry.1) == names::bound_from(
                    before,
                    entry.0,
                    entry.1,
                    i as int,
                ),
            decreases self.entries.len() - i,
        {
            match value::order_texts(self.entries[i].0.as_str(), label.as_str()) {
                Order::Less => {},
                Order::Equal => {
                    self.entries[i] = (label, names);
                    assert(self@ =~= before.update(i as int, entry));
                    return;
                },
                Order::Greater => {
                    self.entries.insert(i, (label, names));
                    assert(self@ =~= before.insert(i as int, entry));
                    return;
                },
            }
            i += 1;
        }
        self.entries.push((label, names));
        assert(self@ =~= before.push(entry));
    }
}

/// The schema's key-property names, keyed by label: what re-exposes key values as
/// queryable properties. Build it once per version and pass it on for every
/// node.
pub fn key_names_from_schema(schema: &Vec<SchemaEntry>) -> (r: KeyNames)
    ensures
        r@ == key_names_of(schema@, schema@.len()),
{
    let mut out = KeyNames::none();
    let mut i: usize = 0;
    while i < schema.len()
        invariant
            i <= schema.len(),
            out@ == key_names_of(schema@, i as nat),
        decreases schema.len() - i,
    {
        if let SchemaEntry::Label { name, def } = &schema[i] {
            out.insert(name.clone(), text::dup_strings(&def.key));
        }
        i += 1;
    }
    out
}

/// Build a binder catalogue from a version's schema entries.
pub fn catalogue_from_schema(entries: Vec<SchemaEntry>) -> (r: Catalogue)
    ensures
        r@ == CatalogueView::of_entries(entries@, entries@.len()),
{
    Catalogue::from_entries(entries)
}

// --- Records as values ------------------------------------------------------------------------------

/// A stored node with its identity.
#[derive(Debug)]
pub struct StoredNode {
    /// The encoded key: distinct nodes have distinct keys.
    pub id: EntityId,
    pub key: NodeKey,
    pub record: NodeRecord,
}

/// A stored relationship with its identity and those of its ends.
#[derive(Debug)]
pub struct StoredRel {
    /// The encoded edge key: distinct relationships have distinct keys, and the
    /// identity does not depend on others.
    pub id: EntityId,
    pub start: EntityId,
    pub end: EntityId,
    pub rtype: String,
    pub record: EdgeRecord,
}

/// `properties` with the first `n` key values under their names; a property of
/// the record wins a name.
pub open spec fn with_keys(
    properties: PropertyMapView,
    names: Seq<Seq<char>>,
    values: Seq<ModelValueView>,
    n: nat,
) -> PropertyMapView
    decreases n,
{
    if n == 0 || n > names.len() || n > values.len() {
        properties
    } else {
        let before = with_keys(properties, names, values, (n - 1) as nat);
        if before.lookup(names[n - 1]) is Some {
            before
        } else {
            before.inserted(names[n - 1], records::runtime_of(values[n - 1], 0))
        }
    }
}

pub open spec fn shorter(a: nat, b: nat) -> nat {
    if a <= b {
        a
    } else {
        b
    }
}

/// The properties that a stored node shows: its record's, and its key values
/// under the names that the schema declares.
pub open spec fn shown_properties(
    key: NodeKeyView,
    record: NodeRecordView,
    names: Seq<(Seq<char>, Seq<Seq<char>>)>,
) -> PropertyMapView {
    let own = records::runtime_map(record.properties, record.properties.len());
    match names::found(names, key.label) {
        Some(keys) => with_keys(own, keys, key.key, shorter(keys.len(), key.key.len())),
        None => own,
    }
}

/// The node that a record shows.
pub open spec fn node_of(
    id: EntityIdView,
    key: NodeKeyView,
    record: NodeRecordView,
    names: Seq<(Seq<char>, Seq<Seq<char>>)>,
) -> NodeValueView {
    NodeValueView {
        id,
        labels: seq![key.label] + record.secondary_labels,
        properties: shown_properties(key, record, names),
    }
}

/// The relationship that a record shows.
pub open spec fn rel_of(rel: StoredRel) -> RelValueView {
    RelValueView {
        id: rel.id@,
        rel_type: rel.rtype@,
        start: rel.start@,
        end: rel.end@,
        properties: records::runtime_map(rel.record@.properties, rel.record@.properties.len()),
    }
}

fn labels_of(first: &str, rest: &Vec<String>) -> (r: Vec<String>)
    ensures
        text::strings_view(r@) == seq![first@] + text::strings_view(rest@),
{
    let ghost more = text::strings_view(rest@);
    let mut out: Vec<String> = Vec::new();
    out.push(first.to_owned());
    let mut tail = text::dup_strings(rest);
    out.append(&mut tail);
    assert(text::strings_view(out@) =~= seq![first@] + more);
    out
}

fn node_properties(key: &NodeKey, record: &NodeRecord, names: &KeyNames) -> (r: PropertyMap)
    ensures
        r@ == shown_properties(key@, record@, names@),
{
    let mut properties = records::convert_map(&record.properties);
    let ghost own = properties@;
    assert(records::string_model_values_view(record.properties@).len() == record.properties@.len());
    if let Some(keys) = names.get(key.label.as_str()) {
        let ghost ks = text::strings_view(keys@);
        let ghost vs = records::model_values_view(key.key@);
        let mut i: usize = 0;
        while i < keys.len() && i < key.key.len()
            invariant
                i <= keys.len(),
                i <= key.key.len(),
                ks == text::strings_view(keys@),
                vs == records::model_values_view(key.key@),
                properties@ == with_keys(own, ks, vs, i as nat),
            decreases keys.len() - i,
        {
            assert(ks[i as int] == keys@[i as int]@);
            assert(vs[i as int] == key.key@[i as int]@);
            if properties.get(keys[i].as_str()).is_none() {
                properties.insert(keys[i].clone(), records::convert_value(&key.key[i]));
            }
            i += 1;
        }
    }
    properties
}

/// The node that a record shows.
pub(crate) fn node_value(id: &EntityId, key: &NodeKey, record: &NodeRecord, names: &KeyNames) -> (r:
    NodeValue)
    ensures
        r@ == node_of(id@, key@, record@, names@),
{
    NodeValue {
        id: id.dup(),
        labels: labels_of(key.label.as_str(), &record.secondary_labels),
        properties: node_properties(key, record, names),
    }
}

/// Build a runtime node value for the diff virtual graph: the stored record
/// rendered as a node, with a virtual change label
/// (`_Added`/`_Removed`/`_Modified`) prepended to its label set, so a query can
/// select it by that label. `names` are the key names of the version the record
/// belongs to; without a schema key properties stay un-exposed but the node is
/// intact.
pub fn virtual_diff_node(
    id: &EntityId,
    key: &NodeKey,
    record: &NodeRecord,
    names: &KeyNames,
    change_label: &str,
) -> (r: NodeValue)
    ensures
        r@ == (NodeValueView {
            labels: seq![change_label@] + node_of(id@, key@, record@, names@).labels,
            ..node_of(id@, key@, record@, names@)
        }),
{
    let node = node_value(id, key, record, names);
    NodeValue {
        id: node.id,
        labels: labels_of(change_label, &node.labels),
        properties: node.properties,
    }
}

pub(crate) fn rel_value(rel: &StoredRel) -> (r: RelValue)
    ensures
        r@ == rel_of(*rel),
{
    assert(
        records::string_model_values_view(rel.record.properties@).len() == rel.record.properties@.len()
    );
    RelValue {
        id: rel.id.dup(),
        rel_type: rel.rtype.clone(),
        start: rel.start.dup(),
        end: rel.end.dup(),
        properties: records::convert_map(&rel.record.properties),
    }
}

// --- Snapshots --------------------------------------------------------------------------------------

/// The value that a [`GraphSnapshot`] stands for.
pub struct SnapshotView {
    pub nodes: Seq<NodeValueView>,
    pub rels: Seq<RelValueView>,
    /// Key-property names, by label.
    pub key_names: Seq<(Seq<char>, Seq<Seq<char>>)>,
    /// Declared indexes.
    pub indexes: Seq<IndexTableView>,
}

/// A declared index.
#[derive(Debug)]
pub struct IndexTable {
    pub name: String,
    pub label: String,
    pub properties: Vec<String>,
}

/// The value that an [`IndexTable`] stands for.
pub struct IndexTableView {
    pub name: Seq<char>,
    pub label: Seq<char>,
    pub properties: Seq<Seq<char>>,
}

impl IndexTable {
    pub open spec fn view(&self) -> IndexTableView {
        IndexTableView {
            name: self.name@,
            label: self.label@,
            properties: text::strings_view(self.properties@),
        }
    }
}

pub open spec fn index_tables_view(v: Seq<IndexTable>) -> Seq<IndexTableView> {
    Seq::new(v.len(), |i: int| v[i]@)
}

/// The indexes that the first `n` declarations of a schema declare.
pub open spec fn indexes_of(schema: Seq<SchemaEntry>, n: nat) -> Seq<IndexTableView>
    decreases n,
{
    if n == 0 || n > schema.len() {
        seq![]
    } else {
        let before = indexes_of(schema, (n - 1) as nat);
        match schema[n - 1] {
            SchemaEntry::Index { name, def } => before.push(
                IndexTableView {
                    name: name@,
                    label: def.label@,
                    properties: text::strings_view(def.properties@),
                },
            ),
            _ => before,
        }
    }
}

fn index_tables(schema: &Vec<SchemaEntry>) -> (r: Vec<IndexTable>)
    ensures
        index_tables_view(r@) == indexes_of(schema@, schema@.len()),
{
    let mut out: Vec<IndexTable> = Vec::new();
    let mut i: usize = 0;
    assert(index_tables_view(out@) =~= indexes_of(schema@, 0));
    while i < schema.len()
        invariant
            i <= schema.len(),
            index_tables_view(out@) == indexes_of(schema@, i as nat),
        decreases schema.len() - i,
    {
        if let SchemaEntry::Index { name, def } = &schema[i] {
            let table = IndexTable {
                name: name.clone(),
                label: def.label.clone(),
                properties: text::dup_strings(&def.properties),
            };
            assert(index_tables_view(out@.push(table)) =~= index_tables_view(out@).push(table@));
            out.push(table);
        }
        i += 1;
    }
    out
}

pub open spec fn ids_of_nodes(nodes: Seq<NodeValueView>) -> Seq<EntityIdView> {
    Seq::new(nodes.len(), |i: int| nodes[i].id)
}

pub open spec fn starts_of(rels: Seq<RelValueView>) -> Seq<EntityIdView> {
    Seq::new(rels.len(), |i: int| rels[i].start)
}

pub open spec fn ends_of(rels: Seq<RelValueView>) -> Seq<EntityIdView> {
    Seq::new(rels.len(), |i: int| rels[i].end)
}

impl SnapshotView {
    /// A node by its identity; the last of them where several have it.
    pub open spec fn find(self, id: EntityIdView) -> Option<NodeValueView> {
        let at = id_index::positions_of(ids_of_nodes(self.nodes), self.nodes.len(), id);
        if at.len() == 0 {
            None
        } else {
            Some(self.nodes[at.last() as int])
        }
    }

    /// A relationship with its neighbour seen from a node, if its type is asked
    /// for and its other end exists.
    pub open spec fn incident(
        self,
        rel: RelValueView,
        node: EntityIdView,
        types: Seq<Seq<char>>,
    ) -> Option<(RelValueView, NodeValueView)> {
        if !source::of_types(rel, types) {
            None
        } else {
            match source::other_end(rel, node, Direction::Undirected) {
                None => None,
                Some(id) => match self.find(id) {
                    None => None,
                    Some(n) => Some((rel, n)),
                },
            }
        }
    }

    /// The ways over the relationships at the first `n` of `at`; a loop is left
    /// out where it has been seen.
    pub open spec fn ways_at(
        self,
        at: Seq<usize>,
        n: nat,
        node: EntityIdView,
        types: Seq<Seq<char>>,
        without_loops: bool,
    ) -> Seq<(RelValueView, NodeValueView)>
        decreases n,
    {
        if n == 0 || n > at.len() {
            seq![]
        } else {
            let before = self.ways_at(at, (n - 1) as nat, node, types, without_loops);
            let rel = self.rels[at[n - 1] as int];
            if without_loops && rel.start == node {
                before
            } else {
                match self.incident(rel, node, types) {
                    Some(way) => before.push(way),
                    None => before,
                }
            }
        }
    }

    /// The ways out of a node.
    pub open spec fn ways_out(self, node: EntityIdView, types: Seq<Seq<char>>) -> Seq<
        (RelValueView, NodeValueView),
    > {
        let at = id_index::positions_of(starts_of(self.rels), self.rels.len(), node);
        self.ways_at(at, at.len(), node, types, false)
    }

    /// The ways into a node.
    pub open spec fn ways_in(
        self,
        node: EntityIdView,
        types: Seq<Seq<char>>,
        without_loops: bool,
    ) -> Seq<(RelValueView, NodeValueView)> {
        let at = id_index::positions_of(ends_of(self.rels), self.rels.len(), node);
        self.ways_at(at, at.len(), node, types, without_loops)
    }

    /// What queries see of the snapshot.
    pub open spec fn graph(self) -> GraphView {
        GraphView {
            nodes: self.nodes,
            expand: |node: EntityIdView, direction: Direction, types: Seq<Seq<char>>|
                match direction {
                    Direction::Out => self.ways_out(node, types),
                    Direction::In => self.ways_in(node, types, false),
                    // A loop leads out and in; it is one way.
                    Direction::Undirected => self.ways_out(node, types) + self.ways_in(
                        node,
                        types,
                        true,
                    ),
                },
            node: |id: EntityIdView| self.find(id),
        }
    }
}

/// A materialised snapshot of a stored graph version, ready to execute against.
/// Indexed at construction: node lookup and edge expansion walk only what is
/// incident.
#[derive(Debug)]
pub struct GraphSnapshot {
    nodes: Vec<NodeValue>,
    rels: Vec<RelValue>,
    /// Positions of nodes by identity.
    by_id: IdIndex,
    /// Positions of relationships by the node they leave.
    out_edges: IdIndex,
    /// Positions of relationships by the node they enter.
    in_edges: IdIndex,
    key_names: KeyNames,
    indexes: Vec<IndexTable>,
    /// For each index over one property, the positions of its nodes in the order
    /// of their values.
    orders: Vec<Vec<usize>>,
}

fn id_list(nodes: &Vec<NodeValue>) -> (r: Vec<EntityId>)
    ensures
        source::entity_ids_view(r@) == ids_of_nodes(value::node_values_view(nodes@)),
{
    let ghost all = value::node_values_view(nodes@);
    let mut out: Vec<EntityId> = Vec::new();
    let mut i: usize = 0;
    while i < nodes.len()
        invariant
            i <= nodes.len(),
            all == value::node_values_view(nodes@),
            out@.len() == i,
            forall|k: int| 0 <= k < i ==> (#[trigger] out@[k])@ == all[k].id,
        decreases nodes.len() - i,
    {
        assert(all[i as int] == nodes@[i as int]@);
        out.push(nodes[i].id.dup());
        i += 1;
    }
    assert(source::entity_ids_view(out@) =~= ids_of_nodes(all));
    out
}

fn start_list(rels: &Vec<RelValue>) -> (r: Vec<EntityId>)
    ensures
        source::entity_ids_view(r@) == starts_of(value::rel_values_view(rels@)),
{
    let ghost all = value::rel_values_view(rels@);
    let mut out: Vec<EntityId> = Vec::new();
    let mut i: usize = 0;
    while i < rels.len()
        invariant
            i <= rels.len(),
            all == value::rel_values_view(rels@),
            out@.len() == i,
            forall|k: int| 0 <= k < i ==> (#[trigger] out@[k])@ == all[k].start,
        decreases rels.len() - i,
    {
        assert(all[i as int] == rels@[i as int]@);
        out.push(rels[i].start.dup());
        i += 1;
    }
    assert(source::entity_ids_view(out@) =~= starts_of(all));
    out
}

fn end_list(rels: &Vec<RelValue>) -> (r: Vec<EntityId>)
    ensures
        source::entity_ids_view(r@) == ends_of(value::rel_values_view(rels@)),
{
    let ghost all = value::rel_values_view(rels@);
    let mut out: Vec<EntityId> = Vec::new();
    let mut i: usize = 0;
    while i < rels.len()
        invariant
            i <= rels.len(),
            all == value::rel_values_view(rels@),
            out@.len() == i,
            forall|k: int| 0 <= k < i ==> (#[trigger] out@[k])@ == all[k].end,
        decreases rels.len() - i,
    {
        assert(all[i as int] == rels@[i as int]@);
        out.push(rels[i].end.dup());
        i += 1;
    }
    assert(source::entity_ids_view(out@) =~= ends_of(all));
    out
}

/// The nodes that records show.
pub open spec fn nodes_of(nodes: Seq<StoredNode>, names: Seq<(Seq<char>, Seq<Seq<char>>)>) -> Seq<
    NodeValueView,
> {
    Seq::new(
        nodes.len(),
        |i: int| node_of(nodes[i].id@, nodes[i].key@, nodes[i].record@, names),
    )
}

/// The relationships that records show.
pub open spec fn rels_of_records(rels: Seq<StoredRel>) -> Seq<RelValueView> {
    Seq::new(rels.len(), |i: int| rel_of(rels[i]))
}

/// The nodes at positions.
spec fn nodes_at(at: Seq<usize>, nodes: Seq<NodeValue>) -> Seq<NodeValueView> {
    Seq::new(at.len(), |i: int| nodes[at[i] as int]@)
}

/// Whether `at` holds the positions of the entries of an index, if it is one over
/// one property.
spec fn is_ordered(at: Vec<usize>, nodes: Seq<NodeValue>, table: IndexTable) -> bool {
    table.properties@.len() == 1 ==> {
        &&& forall|k: int| 0 <= k < at@.len() ==> (#[trigger] at@[k]) < nodes.len()
        &&& nodes_at(at@, nodes) == entries_of(
            value::node_values_view(nodes),
            nodes.len(),
            table.label@,
            table.properties@[0]@,
        )
    }
}

/// Where a value goes among entries, found by halving: they are in order.
fn find_slot(at: &Vec<usize>, nodes: &Vec<NodeValue>, property: &str, v: &Value) -> (r: usize)
    requires
        forall|k: int| 0 <= k < at@.len() ==> (#[trigger] at@[k]) < nodes@.len(),
        entries_ascend(nodes_at(at@, nodes@), property@),
    ensures
        r <= at@.len(),
        r == entry_slot(nodes_at(at@, nodes@), property@, v@, at@.len()),
{
    let ghost all = nodes_at(at@, nodes@);
    let mut low: usize = 0;
    let mut high: usize = at.len();
    while low < high
        invariant
            all == nodes_at(at@, nodes@),
            low <= high <= at@.len(),
            forall|k: int| 0 <= k < at@.len() ==> (#[trigger] at@[k]) < nodes@.len(),
            entries_ascend(all, property@),
            forall|k: int|
                0 <= k < low ==> !families::stands_after(
                    entry_value(#[trigger] all[k], property@),
                    v@,
                ),
            forall|k: int|
                high <= k < all.len() ==> families::stands_after(
                    entry_value(#[trigger] all[k], property@),
                    v@,
                ),
        decreases high - low,
    {
        let middle: usize = low + (high - low) / 2;
        assert(at@[middle as int] < nodes@.len());
        let node = &nodes[at[middle]];
        assert(all[middle as int] == node@);
        let w = node.properties.get_or_null(property);
        let after = families::is_after(&w, v);
        proof {
            assert forall|k: int| 0 <= k < all.len() && k != middle implies ({
                let x = families::stands_after(entry_value(#[trigger] all[k], property@), v@);
                &&& k < middle && !after ==> !x
                &&& k > middle && after ==> x
            }) by {
                if k < middle {
                    lemma_ascends(all, property@, v@, k, middle as int);
                } else {
                    lemma_ascends(all, property@, v@, middle as int, k);
                }
            }
        }
        if after {
            high = middle;
        } else {
            low = middle + 1;
        }
    }
    proof {
        lemma_slot_is(all, property@, v@, all.len(), low as int);
    }
    low
}

proof fn lemma_ascends(
    entries: Seq<NodeValueView>,
    property: Seq<char>,
    v: ValueView,
    i: int,
    j: int,
)
    requires
        entries_ascend(entries, property),
        0 <= i < j < entries.len(),
    ensures
        !families::stands_after(entry_value(entries[j], property), v)
            ==> !families::stands_after(entry_value(entries[i], property), v),
{
    let (a, b) = (entry_value(entries[i], property), entry_value(entries[j], property));
    assert(!families::stands_after(a, b));
    families::standing_after_is_an_order(a, b, v);
}

proof fn lemma_slot_is(
    entries: Seq<NodeValueView>,
    property: Seq<char>,
    v: ValueView,
    n: nat,
    at: int,
)
    requires
        0 <= at <= n <= entries.len(),
        forall|k: int|
            0 <= k < at ==> !families::stands_after(
                entry_value(#[trigger] entries[k], property),
                v,
            ),
        forall|k: int|
            at <= k < n ==> families::stands_after(entry_value(#[trigger] entries[k], property), v),
    ensures
        entry_slot(entries, property, v, n) == at,
    decreases n,
{
    if n > at {
        assert(families::stands_after(entry_value(entries[n - 1], property), v));
        lemma_slot_is(entries, property, v, (n - 1) as nat, at);
    } else if n > 0 {
        assert(!families::stands_after(entry_value(entries[n - 1], property), v));
    }
}

/// Whether entries are in the order of their values.
pub open spec fn entries_ascend(entries: Seq<NodeValueView>, property: Seq<char>) -> bool {
    forall|i: int, j: int|
        0 <= i < j < entries.len() ==> !families::stands_after(
            entry_value(#[trigger] entries[i], property),
            entry_value(#[trigger] entries[j], property),
        )
}

pub(crate) proof fn lemma_slot(
    entries: Seq<NodeValueView>,
    property: Seq<char>,
    v: ValueView,
    n: nat,
)
    requires
        entries_ascend(entries, property),
        n <= entries.len(),
    ensures
        ({
            let at = entry_slot(entries, property, v, n);
            &&& 0 <= at <= n
            &&& at > 0 ==> !families::stands_after(entry_value(entries[at - 1], property), v)
            &&& at < n ==> families::stands_after(entry_value(entries[at], property), v)
        }),
    decreases n,
{
    if n > 0 && families::stands_after(entry_value(entries[n - 1], property), v) {
        lemma_slot(entries, property, v, (n - 1) as nat);
    }
}

/// The entries of an index are in the order of their values.
pub proof fn index_entries_ascend(
    nodes: Seq<NodeValueView>,
    n: nat,
    label: Seq<char>,
    property: Seq<char>,
)
    requires
        n <= nodes.len(),
    ensures
        entries_ascend(entries_of(nodes, n, label, property), property),
    decreases n,
{
    if n > 0 {
        index_entries_ascend(nodes, (n - 1) as nat, label, property);
        let before = entries_of(nodes, (n - 1) as nat, label, property);
        let node = nodes[n - 1];
        let v = entry_value(node, property);
        if node.labels.contains(label) && seek::index_value(v) is Some {
            let at = entry_slot(before, property, v, before.len());
            lemma_slot(before, property, v, before.len());
            lemma_entry_inserted(before, property, node, at);
        }
    }
}

proof fn lemma_entry_inserted(
    before: Seq<NodeValueView>,
    property: Seq<char>,
    node: NodeValueView,
    at: int,
)
    requires
        entries_ascend(before, property),
        0 <= at <= before.len(),
        at > 0 ==> !families::stands_after(
            entry_value(before[at - 1], property),
            entry_value(node, property),
        ),
        at < before.len() ==> families::stands_after(
            entry_value(before[at], property),
            entry_value(node, property),
        ),
    ensures
        entries_ascend(before.insert(at, node), property),
{
    let after = before.insert(at, node);
    let v = entry_value(node, property);
    assert forall|i: int, j: int| 0 <= i < j < after.len() implies !families::stands_after(
        entry_value(#[trigger] after[i], property),
        entry_value(#[trigger] after[j], property),
    ) by {
        if j < at {
            assert(after[i] == before[i] && after[j] == before[j]);
        } else if j == at {
            assert(after[i] == before[i] && after[j] == node);
            if i < at - 1 {
                lemma_ascends(before, property, v, i, at - 1);
            }
        } else {
            assert(after[j] == before[j - 1]);
            if i < at {
                assert(after[i] == before[i]);
            } else if i == at {
                assert(after[i] == node);
                if at < j - 1 {
                    lemma_ascends(before, property, v, at, j - 1);
                }
                families::standing_after_is_an_order(
                    entry_value(before[j - 1], property),
                    v,
                    v,
                );
            } else {
                assert(after[i] == before[i - 1]);
            }
        }
    }
}

/// The positions of the entries of an index over one property.
fn index_order_of(nodes: &Vec<NodeValue>, label: &str, property: &str) -> (r: Vec<usize>)
    ensures
        forall|k: int| 0 <= k < r@.len() ==> (#[trigger] r@[k]) < nodes@.len(),
        nodes_at(r@, nodes@) == entries_of(
            value::node_values_view(nodes@),
            nodes@.len(),
            label@,
            property@,
        ),
{
    let ghost all = value::node_values_view(nodes@);
    let mut at: Vec<usize> = Vec::new();
    let mut i: usize = 0;
    assert(nodes_at(at@, nodes@) =~= seq![]);
    while i < nodes.len()
        invariant
            i <= nodes.len(),
            all == value::node_values_view(nodes@),
            forall|k: int| 0 <= k < at@.len() ==> (#[trigger] at@[k]) < nodes@.len(),
            nodes_at(at@, nodes@) == entries_of(all, i as nat, label@, property@),
        decreases nodes.len() - i,
    {
        assert(all[i as int] == nodes@[i as int]@);
        let node = &nodes[i];
        let v = node.properties.get_or_null(property);
        if text::strings_contain(&node.labels, label) && seek::encode_index_value(&v).is_some() {
            proof {
                index_entries_ascend(all, i as nat, label@, property@);
            }
            let slot: usize = find_slot(&at, nodes, property, &v);
            let ghost before = at@;
            at.insert(slot, i);
            proof {
                assert(at@ == before.insert(slot as int, i));
                assert(nodes_at(at@, nodes@) =~= nodes_at(before, nodes@).insert(
                    slot as int,
                    all[i as int],
                ));
                assert forall|k: int| 0 <= k < at@.len() implies (#[trigger] at@[k])
                    < nodes@.len() by {
                    if k < slot {
                        assert(at@[k] == before[k]);
                    } else if k > slot {
                        assert(at@[k] == before[k - 1]);
                    }
                }
            }
        }
        i += 1;
    }
    at
}

/// The positions of the entries of each index over one property.
fn index_orders(nodes: &Vec<NodeValue>, indexes: &Vec<IndexTable>) -> (r: Vec<Vec<usize>>)
    ensures
        r@.len() == indexes@.len(),
        forall|i: int|
            0 <= i < indexes@.len() ==> is_ordered(#[trigger] r@[i], nodes@, indexes@[i]),
{
    let mut out: Vec<Vec<usize>> = Vec::new();
    let mut i: usize = 0;
    while i < indexes.len()
        invariant
            i <= indexes.len(),
            out@.len() == i,
            forall|k: int| 0 <= k < i ==> is_ordered(#[trigger] out@[k], nodes@, indexes@[k]),
        decreases indexes.len() - i,
    {
        let table = &indexes[i];
        let order: Vec<usize> = if table.properties.len() == 1 {
            index_order_of(nodes, table.label.as_str(), table.properties[0].as_str())
        } else {
            Vec::new()
        };
        out.push(order);
        i += 1;
    }
    out
}

impl GraphSnapshot {
    pub closed spec fn view(&self) -> SnapshotView {
        SnapshotView {
            nodes: value::node_values_view(self.nodes@),
            rels: value::rel_values_view(self.rels@),
            key_names: self.key_names@,
            indexes: index_tables_view(self.indexes@),
        }
    }

    #[verifier::type_invariant]
    spec fn indexed(&self) -> bool {
        &&& self.by_id@ == ids_of_nodes(value::node_values_view(self.nodes@))
        &&& self.out_edges@ == starts_of(value::rel_values_view(self.rels@))
        &&& self.in_edges@ == ends_of(value::rel_values_view(self.rels@))
        &&& self.orders@.len() == self.indexes@.len()
        &&& forall|i: int|
            0 <= i < self.indexes@.len() ==> is_ordered(
                #[trigger] self.orders@[i],
                self.nodes@,
                self.indexes@[i],
            )
    }

    fn build(
        nodes: &Vec<StoredNode>,
        rels: &Vec<StoredRel>,
        names: KeyNames,
        indexes: Vec<IndexTable>,
    ) -> (r: GraphSnapshot)
        ensures
            r@ == (SnapshotView {
                nodes: nodes_of(nodes@, names@),
                rels: rels_of_records(rels@),
                key_names: names@,
                indexes: index_tables_view(indexes@),
            }),
    {
        let ghost ns = nodes_of(nodes@, names@);
        let ghost rs = rels_of_records(rels@);
        let mut node_values: Vec<NodeValue> = Vec::new();
        let mut i: usize = 0;
        while i < nodes.len()
            invariant
                i <= nodes.len(),
                ns == nodes_of(nodes@, names@),
                node_values@.len() == i,
                forall|k: int| 0 <= k < i ==> (#[trigger] node_values@[k])@ == ns[k],
            decreases nodes.len() - i,
        {
            node_values.push(node_value(&nodes[i].id, &nodes[i].key, &nodes[i].record, &names));
            i += 1;
        }
        let mut rel_values: Vec<RelValue> = Vec::new();
        let mut j: usize = 0;
        while j < rels.len()
            invariant
                j <= rels.len(),
                rs == rels_of_records(rels@),
                rel_values@.len() == j,
                forall|k: int| 0 <= k < j ==> (#[trigger] rel_values@[k])@ == rs[k],
            decreases rels.len() - j,
        {
            rel_values.push(rel_value(&rels[j]));
            j += 1;
        }
        assert(value::node_values_view(node_values@) =~= ns);
        assert(value::rel_values_view(rel_values@) =~= rs);
        let by_id = IdIndex::build(id_list(&node_values));
        let out_edges = IdIndex::build(start_list(&rel_values));
        let in_edges = IdIndex::build(end_list(&rel_values));
        let orders = index_orders(&node_values, &indexes);
        GraphSnapshot {
            nodes: node_values,
            rels: rel_values,
            by_id,
            out_edges,
            in_edges,
            key_names: names,
            indexes,
            orders,
        }
    }

    /// Build from a version's node and edge records. Key properties are not
    /// exposed (there is no schema to name them): suitable for schema-free
    /// graphs. For a stored graph with a declared schema, use
    /// [`Self::from_records_with_schema`] so key values become queryable.
    pub fn from_records(nodes: &Vec<StoredNode>, rels: &Vec<StoredRel>) -> (r: GraphSnapshot)
        ensures
            r@ == (SnapshotView {
                nodes: nodes_of(nodes@, seq![]),
                rels: rels_of_records(rels@),
                key_names: seq![],
                indexes: seq![],
            }),
    {
        let indexes: Vec<IndexTable> = Vec::new();
        assert(index_tables_view(indexes@) =~= seq![]);
        Self::build(nodes, rels, KeyNames::none(), indexes)
    }

    /// Build with the schema's key-property names, so a node's key values are
    /// re-exposed as queryable properties. A node's key is part of its data; the
    /// stored record holds only the non-key properties, so the key names come
    /// from the schema.
    pub fn from_records_with_schema(
        nodes: &Vec<StoredNode>,
        rels: &Vec<StoredRel>,
        schema: &Vec<SchemaEntry>,
    ) -> (r: GraphSnapshot)
        ensures
            r@ == (SnapshotView {
                nodes: nodes_of(nodes@, key_names_of(schema@, schema@.len())),
                rels: rels_of_records(rels@),
                key_names: key_names_of(schema@, schema@.len()),
                indexes: indexes_of(schema@, schema@.len()),
            }),
    {
        Self::build(nodes, rels, key_names_from_schema(schema), index_tables(schema))
    }

    pub fn node_count(&self) -> (r: usize)
        ensures
            r == self@.nodes.len(),
    {
        self.nodes.len()
    }

    pub fn rel_count(&self) -> (r: usize)
        ensures
            r == self@.rels.len(),
    {
        self.rels.len()
    }

    fn find(&self, id: &EntityId) -> (r: Option<&NodeValue>)
        ensures
            self@.find(id@) == match r {
                Some(n) => Some(n@),
                None => None,
            },
    {
        proof {
            use_type_invariant(self);
        }
        let at = self.by_id.positions(id);
        if at.len() == 0 {
            return None;
        }
        let p: usize = at[at.len() - 1];
        proof {
            assert(self.nodes@.len() == self.nodes.len());
            id_index::lemma_positions(ids_of_nodes(self@.nodes), self@.nodes.len(), id@);
            assert(at@[at@.len() - 1] < self@.nodes.len());
            assert(self@.nodes[p as int] == self.nodes@[p as int]@);
        }
        Some(&self.nodes[p])
    }

    fn step_over(&self, rel: &RelValue, node: &EntityId, types: &Vec<String>) -> (r: Option<
        (RelValue, NodeValue),
    >)
        ensures
            self@.incident(rel@, node@, text::strings_view(types@)) == match r {
                Some(way) => Some((way.0@, way.1@)),
                None => None,
            },
    {
        if !source::has_type(rel, types) {
            return None;
        }
        let other = match source::end_seen(rel, node, Direction::Undirected) {
            None => {
                return None;
            },
            Some(id) => id,
        };
        match self.find(other) {
            None => None,
            Some(n) => Some((rel.dup(), n.dup())),
        }
    }

    fn push_ways(
        &self,
        at: &Vec<usize>,
        node: &EntityId,
        types: &Vec<String>,
        without_loops: bool,
        out: &mut Vec<(RelValue, NodeValue)>,
    )
        requires
            forall|k: int| 0 <= k < at@.len() ==> (#[trigger] at@[k]) < self@.rels.len(),
        ensures
            source::steps_view(final(out)@) == source::steps_view(old(out)@) + self@.ways_at(
                at@,
                at@.len(),
                node@,
                text::strings_view(types@),
                without_loops,
            ),
    {
        let ghost s = self@;
        let ghost wanted = text::strings_view(types@);
        let ghost before = source::steps_view(out@);
        let mut i: usize = 0;
        assert(
            source::steps_view(out@) =~= before + s.ways_at(at@, 0, node@, wanted, without_loops)
        );
        while i < at.len()
            invariant
                i <= at.len(),
                s == self@,
                wanted == text::strings_view(types@),
                forall|k: int| 0 <= k < at@.len() ==> (#[trigger] at@[k]) < s.rels.len(),
                source::steps_view(out@) == before + s.ways_at(
                    at@,
                    i as nat,
                    node@,
                    wanted,
                    without_loops,
                ),
            decreases at.len() - i,
        {
            let p: usize = at[i];
            assert(at@[i as int] < s.rels.len());
            assert(s.rels[p as int] == self.rels@[p as int]@);
            let rel = &self.rels[p];
            if !(without_loops && rel.start.same(node)) {
                if let Some(way) = self.step_over(rel, node, types) {
                    let ghost v = out@;
                    out.push(way);
                    assert(
                        source::steps_view(v.push(way)) =~= source::steps_view(v).push((way.0@, way.1@))
                    );
                }
            }
            i += 1;
            assert(source::steps_view(out@) =~= before + s.ways_at(
                at@,
                i as nat,
                node@,
                wanted,
                without_loops,
            ));
        }
    }
}

impl GraphSource for GraphSnapshot {
    open spec fn graph(&self) -> GraphView {
        self@.graph()
    }

    fn all_nodes(&self) -> Vec<NodeValue> {
        value::dup_node_values(&self.nodes)
    }

    fn expand(&self, node: &EntityId, direction: Direction, types: &Vec<String>) -> Vec<
        (RelValue, NodeValue),
    > {
        proof {
            use_type_invariant(self);
            assert(self.rels@.len() == self.rels.len());
            id_index::lemma_positions(starts_of(self@.rels), self@.rels.len(), node@);
            id_index::lemma_positions(ends_of(self@.rels), self@.rels.len(), node@);
        }
        let ghost wanted = text::strings_view(types@);
        let mut out: Vec<(RelValue, NodeValue)> = Vec::new();
        assert(source::steps_view(out@) =~= seq![]);
        if matches!(direction, Direction::Out | Direction::Undirected) {
            let at = self.out_edges.positions(node);
            self.push_ways(&at, node, types, false, &mut out);
            assert(source::steps_view(out@) =~= self@.ways_out(node@, wanted));
        }
        if matches!(direction, Direction::In | Direction::Undirected) {
            let ghost before = source::steps_view(out@);
            // A loop appears among both; skip the second sighting under
            // Undirected so it is not double-counted.
            let without_loops = matches!(direction, Direction::Undirected);
            let at = self.in_edges.positions(node);
            self.push_ways(&at, node, types, without_loops, &mut out);
            assert(
                source::steps_view(out@) =~= before + self@.ways_in(node@, wanted, without_loops)
            );
            if !without_loops {
                assert(before + self@.ways_in(node@, wanted, false) =~= self@.ways_in(
                    node@,
                    wanted,
                    false,
                ));
            }
        }
        out
    }

    fn node(&self, id: &EntityId) -> Option<NodeValue> {
        match self.find(id) {
            Some(n) => Some(n.dup()),
            None => None,
        }
    }
}

// --- Seeks ------------------------------------------------------------------------------------------

/// The index values of the first `n` of the named properties, where every one
/// has one.
pub open spec fn tuple_of(properties: PropertyMapView, names: Seq<Seq<char>>, n: nat) -> Option<
    Seq<ModelValueView>,
>
    decreases n,
{
    if n == 0 || n > names.len() {
        Some(seq![])
    } else {
        match tuple_of(properties, names, (n - 1) as nat) {
            None => None,
            Some(before) => match properties.lookup(names[n - 1]) {
                None => None,
                Some(v) => match seek::index_value(v) {
                    None => None,
                    Some(m) => Some(before.push(m)),
                },
            },
        }
    }
}

proof fn lemma_tuple_none(properties: PropertyMapView, names: Seq<Seq<char>>, m: nat, n: nat)
    requires
        m <= n <= names.len(),
        tuple_of(properties, names, m) is None,
    ensures
        tuple_of(properties, names, n) is None,
    decreases n - m,
{
    if m < n {
        lemma_tuple_none(properties, names, m, (n - 1) as nat);
    }
}

fn property_tuple(properties: &PropertyMap, names: &Vec<String>) -> (r: Option<Vec<ModelValue>>)
    ensures
        tuple_of(properties@, text::strings_view(names@), names@.len()) == match r {
            Some(tuple) => Some(records::model_values_view(tuple@)),
            None => None,
        },
{
    let ghost all = text::strings_view(names@);
    let mut out: Vec<ModelValue> = Vec::new();
    let mut i: usize = 0;
    assert(records::model_values_view(out@) =~= seq![]);
    while i < names.len()
        invariant
            i <= names.len(),
            all == text::strings_view(names@),
            tuple_of(properties@, all, i as nat) == Some(records::model_values_view(out@)),
        decreases names.len() - i,
    {
        assert(all[i as int] == names@[i as int]@);
        let m = match properties.get(names[i].as_str()) {
            None => {
                proof {
                    lemma_tuple_none(properties@, all, (i + 1) as nat, all.len());
                }
                return None;
            },
            Some(v) => match seek::encode_index_value(v) {
                None => {
                    proof {
                        lemma_tuple_none(properties@, all, (i + 1) as nat, all.len());
                    }
                    return None;
                },
                Some(m) => m,
            },
        };
        assert(
            records::model_values_view(out@.push(m)) =~= records::model_values_view(out@).push(m@)
        );
        out.push(m);
        i += 1;
    }
    Some(out)
}

/// Whether a node is of a label and its named properties are a probe.
pub open spec fn probed_by(
    node: NodeValueView,
    label: Seq<char>,
    names: Seq<Seq<char>>,
    probe: Seq<ModelValueView>,
    primary: bool,
) -> bool {
    (if primary {
        node.labels.len() > 0 && node.labels[0] == label
    } else {
        node.labels.contains(label)
    }) && tuple_of(node.properties, names, names.len()) == Some(probe)
}

/// Those of the first `n` nodes that a probe finds.
pub open spec fn found_by_probe(
    nodes: Seq<NodeValueView>,
    n: nat,
    label: Seq<char>,
    names: Seq<Seq<char>>,
    probe: Seq<ModelValueView>,
    primary: bool,
) -> Seq<NodeValueView>
    decreases n,
{
    if n == 0 || n > nodes.len() {
        seq![]
    } else {
        let before = found_by_probe(nodes, (n - 1) as nat, label, names, probe, primary);
        if probed_by(nodes[n - 1], label, names, probe, primary) {
            before.push(nodes[n - 1])
        } else {
            before
        }
    }
}

/// The nodes that the first `k` probes find, probe by probe.
pub open spec fn found_by_probes(
    nodes: Seq<NodeValueView>,
    label: Seq<char>,
    names: Seq<Seq<char>>,
    probes: Seq<Seq<ModelValueView>>,
    k: nat,
    primary: bool,
) -> Seq<NodeValueView>
    decreases k,
{
    if k == 0 || k > probes.len() {
        seq![]
    } else {
        found_by_probes(nodes, label, names, probes, (k - 1) as nat, primary) + found_by_probe(
            nodes,
            nodes.len(),
            label,
            names,
            probes[k - 1],
            primary,
        )
    }
}

/// The first index of a name from `i` on.
pub open spec fn table_named(indexes: Seq<IndexTableView>, name: Seq<char>, i: int) -> Option<
    IndexTableView,
>
    decreases indexes.len() - i,
{
    if i < 0 || i >= indexes.len() {
        None
    } else if indexes[i].name == name {
        Some(indexes[i])
    } else {
        table_named(indexes, name, i + 1)
    }
}

/// The value of a property under which a node stands in an index.
pub open spec fn entry_value(node: NodeValueView, property: Seq<char>) -> ValueView {
    node.properties.lookup_or_null(property)
}

/// Where a value goes among the first `n` of `entries`: behind those that do not
/// come after it.
pub open spec fn entry_slot(
    entries: Seq<NodeValueView>,
    property: Seq<char>,
    v: ValueView,
    n: nat,
) -> int
    decreases n,
{
    if n == 0 || n > entries.len() {
        0
    } else if families::stands_after(entry_value(entries[n - 1], property), v) {
        entry_slot(entries, property, v, (n - 1) as nat)
    } else {
        n as int
    }
}

/// Those of the first `n` nodes of a label whose property stands in an index, in
/// the order of their values: integers first, then floating-point numbers, each
/// ascending, and nodes with the same value in the order they have.
pub open spec fn entries_of(
    nodes: Seq<NodeValueView>,
    n: nat,
    label: Seq<char>,
    property: Seq<char>,
) -> Seq<NodeValueView>
    decreases n,
{
    if n == 0 || n > nodes.len() {
        seq![]
    } else {
        let before = entries_of(nodes, (n - 1) as nat, label, property);
        let node = nodes[n - 1];
        let v = entry_value(node, property);
        if node.labels.contains(label) && seek::index_value(v) is Some {
            before.insert(entry_slot(before, property, v, before.len()), node)
        } else {
            before
        }
    }
}

/// Those of the first `n` entries of an index whose values lie between bounds.
pub open spec fn found_between(
    entries: Seq<NodeValueView>,
    n: nat,
    property: Seq<char>,
    lower: Option<RangeEnd>,
    upper: Option<RangeEnd>,
) -> Seq<NodeValueView>
    decreases n,
{
    if n == 0 || n > entries.len() {
        seq![]
    } else {
        let before = found_between(entries, (n - 1) as nat, property, lower, upper);
        let v = entry_value(entries[n - 1], property);
        if seek::above(v, lower) && seek::beneath(v, upper) {
            before.push(entries[n - 1])
        } else {
            before
        }
    }
}

impl SnapshotView {
    /// The candidates of a key seek. A complete miss declines: it is never a
    /// definitive absence.
    pub open spec fn by_key(self, label: Seq<char>, values: Seq<ValueView>) -> Option<
        Seq<NodeValueView>,
    > {
        match (names::found(self.key_names, label), seek::probes_for(values)) {
            (Some(names), Some(probes)) => {
                let all = found_by_probes(self.nodes, label, names, probes, probes.len(), true);
                if all.len() == 0 {
                    None
                } else {
                    Some(all)
                }
            },
            _ => None,
        }
    }

    /// The candidates of an index seek. An unknown index declines, and so does
    /// one over other properties.
    pub open spec fn by_index(
        self,
        name: Seq<char>,
        properties: Seq<Seq<char>>,
        values: Seq<ValueView>,
    ) -> Option<Seq<NodeValueView>> {
        match table_named(self.indexes, name, 0) {
            None => None,
            Some(table) => if table.properties != properties || values.len() != properties.len() {
                None
            } else {
                match seek::probes_for(values) {
                    None => None,
                    Some(probes) => Some(
                        found_by_probes(
                            self.nodes,
                            table.label,
                            properties,
                            probes,
                            probes.len(),
                            false,
                        ),
                    ),
                }
            },
        }
    }

    /// The candidates of a range seek, in the order of the index; only indexes
    /// over one property serve ranges.
    pub open spec fn by_range(
        self,
        name: Seq<char>,
        property: Seq<char>,
        lower: Option<RangeEnd>,
        upper: Option<RangeEnd>,
    ) -> Option<Seq<NodeValueView>> {
        match table_named(self.indexes, name, 0) {
            None => None,
            Some(table) => if table.properties != seq![property] {
                None
            } else {
                match seek::range_plan(lower, upper) {
                    RangePlan::Decline => None,
                    RangePlan::Nothing => Some(seq![]),
                    RangePlan::Select => {
                        let entries = entries_of(
                            self.nodes,
                            self.nodes.len(),
                            table.label,
                            property,
                        );
                        Some(found_between(entries, entries.len(), property, lower, upper))
                    },
                }
            },
        }
    }
}

pub open spec fn optional_nodes(r: Option<Vec<NodeValue>>) -> Option<Seq<NodeValueView>> {
    match r {
        Some(nodes) => Some(value::node_values_view(nodes@)),
        None => None,
    }
}

impl GraphSnapshot {
    fn matches_probe(
        node: &NodeValue,
        label: &str,
        names: &Vec<String>,
        probe: &Vec<ModelValue>,
        primary: bool,
    ) -> (r: bool)
        ensures
            r == probed_by(
                node@,
                label@,
                text::strings_view(names@),
                records::model_values_view(probe@),
                primary,
            ),
    {
        let bears = if primary {
            assert(node@.labels.len() == node.labels@.len());
            node.labels.len() > 0 && text::str_eq(node.labels[0].as_str(), label)
        } else {
            text::strings_contain(&node.labels, label)
        };
        if !bears {
            return false;
        }
        match property_tuple(&node.properties, names) {
            Some(tuple) => seek::same_models(&tuple, probe),
            None => false,
        }
    }

    fn push_probed(
        &self,
        label: &str,
        names: &Vec<String>,
        probe: &Vec<ModelValue>,
        primary: bool,
        out: &mut Vec<NodeValue>,
    )
        ensures
            value::node_values_view(final(out)@) == value::node_values_view(old(out)@) + found_by_probe(
                self@.nodes,
                self@.nodes.len(),
                label@,
                text::strings_view(names@),
                records::model_values_view(probe@),
                primary,
            ),
    {
        let ghost all = self@.nodes;
        let ghost ns = text::strings_view(names@);
        let ghost p = records::model_values_view(probe@);
        let ghost before = value::node_values_view(out@);
        let mut i: usize = 0;
        assert(
            value::node_values_view(out@) =~= before + found_by_probe(
                all,
                0,
                label@,
                ns,
                p,
                primary,
            )
        );
        while i < self.nodes.len()
            invariant
                i <= self.nodes.len(),
                all == value::node_values_view(self.nodes@),
                ns == text::strings_view(names@),
                p == records::model_values_view(probe@),
                value::node_values_view(out@) == before + found_by_probe(
                    all,
                    i as nat,
                    label@,
                    ns,
                    p,
                    primary,
                ),
            decreases self.nodes.len() - i,
        {
            assert(all[i as int] == self.nodes@[i as int]@);
            if Self::matches_probe(&self.nodes[i], label, names, probe, primary) {
                let node = self.nodes[i].dup();
                let ghost v = out@;
                out.push(node);
                assert(
                    value::node_values_view(v.push(node)) =~= value::node_values_view(v).push(node@)
                );
            }
            i += 1;
            assert(value::node_values_view(out@) =~= before + found_by_probe(
                all,
                i as nat,
                label@,
                ns,
                p,
                primary,
            ));
        }
    }

    fn probe_all(
        &self,
        label: &str,
        names: &Vec<String>,
        probes: &Vec<Vec<ModelValue>>,
        primary: bool,
    ) -> (r: Vec<NodeValue>)
        ensures
            value::node_values_view(r@) == found_by_probes(
                self@.nodes,
                label@,
                text::strings_view(names@),
                seek::tuples_view(probes@),
                probes@.len(),
                primary,
            ),
    {
        let ghost all = self@.nodes;
        let ghost ns = text::strings_view(names@);
        let ghost ps = seek::tuples_view(probes@);
        let mut out: Vec<NodeValue> = Vec::new();
        let mut k: usize = 0;
        assert(value::node_values_view(out@) =~= found_by_probes(all, label@, ns, ps, 0, primary));
        while k < probes.len()
            invariant
                k <= probes.len(),
                all == self@.nodes,
                ns == text::strings_view(names@),
                ps == seek::tuples_view(probes@),
                value::node_values_view(out@) == found_by_probes(
                    all,
                    label@,
                    ns,
                    ps,
                    k as nat,
                    primary,
                ),
            decreases probes.len() - k,
        {
            assert(ps[k as int] == records::model_values_view(probes@[k as int]@));
            self.push_probed(label, names, &probes[k], primary, &mut out);
            k += 1;
        }
        out
    }

    /// Nodes whose primary key could equal the pinned values: candidates that the
    /// caller still filters. `None` means that the seek cannot serve.
    pub fn nodes_by_key(&self, label: &str, key_values: &Vec<Value>) -> (r: Option<Vec<NodeValue>>)
        ensures
            optional_nodes(r) == self@.by_key(label@, value::values_view(key_values@)),
    {
        let names = match self.key_names.get(label) {
            None => {
                return None;
            },
            Some(names) => names,
        };
        let probes = match seek::cartesian_probes(key_values) {
            None => {
                return None;
            },
            Some(probes) => probes,
        };
        assert(seek::tuples_view(probes@).len() == probes@.len());
        let out = self.probe_all(label, names, &probes, true);
        assert(value::node_values_view(out@).len() == out@.len());
        if out.len() == 0 {
            None
        } else {
            Some(out)
        }
    }

    /// The position of the first index of a name.
    fn table(&self, name: &str) -> (r: Option<usize>)
        ensures
            table_named(self@.indexes, name@, 0) == match r {
                Some(i) => Some(self@.indexes[i as int]),
                None => None,
            },
            r matches Some(i) ==> i < self@.indexes.len(),
    {
        let ghost all = self@.indexes;
        let mut i: usize = 0;
        while i < self.indexes.len()
            invariant
                i <= self.indexes.len(),
                all == index_tables_view(self.indexes@),
                table_named(all, name@, 0) == table_named(all, name@, i as int),
            decreases self.indexes.len() - i,
        {
            assert(all[i as int] == self.indexes@[i as int]@);
            if text::str_eq(self.indexes[i].name.as_str(), name) {
                return Some(i);
            }
            i += 1;
        }
        None
    }

    /// Nodes an equality on the declared index `index_name` selects. `None` means
    /// this source has no such index over `properties` (the caller falls back to
    /// a scan); otherwise a candidate superset the caller still filters.
    pub fn nodes_by_index(
        &self,
        index_name: &str,
        properties: &Vec<String>,
        values: &Vec<Value>,
    ) -> (r: Option<Vec<NodeValue>>)
        ensures
            optional_nodes(r) == self@.by_index(
                index_name@,
                text::strings_view(properties@),
                value::values_view(values@),
            ),
    {
        let table = match self.table(index_name) {
            None => {
                return None;
            },
            Some(i) => &self.indexes[i],
        };
        assert(value::values_view(values@).len() == values@.len());
        assert(text::strings_view(properties@).len() == properties@.len());
        if !same_strings(&table.properties, properties) || values.len() != properties.len() {
            return None;
        }
        match seek::cartesian_probes(values) {
            None => None,
            Some(probes) => {
                assert(seek::tuples_view(probes@).len() == probes@.len());
                Some(self.probe_all(table.label.as_str(), properties, &probes, false))
            },
        }
    }

    /// Nodes whose value of the single indexed `property` lies between bounds.
    /// `None` means that the range cannot be served.
    pub fn nodes_by_index_range(
        &self,
        index_name: &str,
        property: &str,
        lower: Option<(&Value, bool)>,
        upper: Option<(&Value, bool)>,
    ) -> (r: Option<Vec<NodeValue>>)
        ensures
            optional_nodes(r) == self@.by_range(
                index_name@,
                property@,
                seek::range_end_view(lower),
                seek::range_end_view(upper),
            ),
    {
        proof {
            use_type_invariant(self);
        }
        let at: usize = match self.table(index_name) {
            None => {
                return None;
            },
            Some(i) => i,
        };
        let table = &self.indexes[at];
        assert(self@.indexes[at as int] == table@);
        proof {
            if table.properties@.len() == 1 {
                if table.properties@[0]@ == property@ {
                    assert(text::strings_view(table.properties@) =~= seq![property@]);
                } else {
                    assert(text::strings_view(table.properties@)[0] != seq![property@][0]);
                }
            } else {
                assert(text::strings_view(table.properties@).len() != seq![property@].len());
            }
        }
        if table.properties.len() != 1 || !text::str_eq(table.properties[0].as_str(), property) {
            return None;
        }
        match seek::plan_range(&lower, &upper) {
            RangePlan::Decline => None,
            RangePlan::Nothing => {
                let out: Vec<NodeValue> = Vec::new();
                assert(value::node_values_view(out@) =~= seq![]);
                Some(out)
            },
            RangePlan::Select => {
                assert(is_ordered(self.orders@[at as int], self.nodes@, *table));
                Some(self.between(&self.orders[at], property, &lower, &upper))
            },
        }
    }

    /// Those of the nodes at positions whose values lie between bounds.
    fn between(
        &self,
        at: &Vec<usize>,
        property: &str,
        lower: &Option<(&Value, bool)>,
        upper: &Option<(&Value, bool)>,
    ) -> (r: Vec<NodeValue>)
        requires
            forall|k: int| 0 <= k < at@.len() ==> (#[trigger] at@[k]) < self.nodes@.len(),
        ensures
            value::node_values_view(r@) == found_between(
                nodes_at(at@, self.nodes@),
                at@.len(),
                property@,
                seek::range_end_view(*lower),
                seek::range_end_view(*upper),
            ),
    {
        let ghost all = nodes_at(at@, self.nodes@);
        let ghost lo = seek::range_end_view(*lower);
        let ghost hi = seek::range_end_view(*upper);
        let mut out: Vec<NodeValue> = Vec::new();
        let mut i: usize = 0;
        assert(value::node_values_view(out@) =~= seq![]);
        while i < at.len()
            invariant
                i <= at.len(),
                forall|k: int| 0 <= k < at@.len() ==> (#[trigger] at@[k]) < self.nodes@.len(),
                all == nodes_at(at@, self.nodes@),
                lo == seek::range_end_view(*lower),
                hi == seek::range_end_view(*upper),
                value::node_values_view(out@) == found_between(all, i as nat, property@, lo, hi),
            decreases at.len() - i,
        {
            assert(at@[i as int] < self.nodes@.len());
            let node = &self.nodes[at[i]];
            assert(all[i as int] == node@);
            let v = node.properties.get_or_null(property);
            if seek::is_above(&v, lower) && seek::is_beneath(&v, upper) {
                let copy = node.dup();
                let ghost w = out@;
                out.push(copy);
                assert(
                    value::node_values_view(w.push(copy)) =~= value::node_values_view(w).push(copy@)
                );
            }
            i += 1;
        }
        out
    }
}

pub(crate) fn same_strings(a: &Vec<String>, b: &Vec<String>) -> (r: bool)
    ensures
        r == (text::strings_view(a@) == text::strings_view(b@)),
{
    let ghost x = text::strings_view(a@);
    let ghost y = text::strings_view(b@);
    assert(x.len() == a@.len());
    assert(y.len() == b@.len());
    if a.len() != b.len() {
        return false;
    }
    let mut i: usize = 0;
    while i < a.len()
        invariant
            i <= a.len(),
            a@.len() == b@.len(),
            x == text::strings_view(a@),
            y == text::strings_view(b@),
            forall|k: int| 0 <= k < i ==> x[k] == y[k],
        decreases a.len() - i,
    {
        assert(x[i as int] == a@[i as int]@);
        assert(y[i as int] == b@[i as int]@);
        if !text::str_eq(a[i].as_str(), b[i].as_str()) {
            return false;
        }
        i += 1;
    }
    assert(x =~= y);
    true
}

} // verus!
