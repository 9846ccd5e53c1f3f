//! What persisting keeps: the identity of stored nodes, one node per key, one
//! relationship per key.

use vstd::prelude::*;

use crate::bind::catalogue::CatalogueView;
use crate::exec::adapter::{self, StoredRel};
use crate::exec::inspect::{self, MAX_VALUE_DEPTH};
use crate::exec::records::{self, EdgeKeyView, ModelValueView, NodeKeyView, NodeRecordView};
use crate::exec::source::WriteChangesView;
use crate::exec::value::{
    self, EntityIdView, NodeValueView, Order, PropertyMapView, RelValueView, ValueView,
};
use crate::names;
use crate::persist::constraints::StoredStateView;
use crate::persist::error::PersistErrorView;
use crate::persist::identity;
use crate::persist::stage::{self, StagedWriteView};
use crate::text;

verus! {

proof fn lemma_appended(entries: Seq<(Seq<char>, ValueView)>, key: Seq<char>, v: ValueView, i: int)
    requires
        0 <= i <= entries.len(),
        forall|k: int| 0 <= k < entries.len() ==> value::text_order((#[trigger] entries[k]).0, key) == Order::Less,
    ensures
        inspect::inserted_from(entries, key, v, i) == entries.push((key, v)),
    decreases entries.len() - i,
{
    if i < entries.len() {
        lemma_appended(entries, key, v, i + 1);
    }
}

proof fn lemma_runtime_map(properties: Seq<(Seq<char>, ModelValueView)>, n: nat)
    requires
        n <= properties.len(),
        names::ascend(properties),
    ensures
        records::runtime_map(properties, n).entries == Seq::new(
            n,
            |i: int| (properties[i].0, records::runtime_of(properties[i].1, 0)),
        ),
    decreases n,
{
    if n == 0 {
        assert(records::runtime_map(properties, 0).entries =~= Seq::new(
            0,
            |i: int| (properties[i].0, records::runtime_of(properties[i].1, 0)),
        ));
    } else {
        lemma_runtime_map(properties, (n - 1) as nat);
        let before = records::runtime_map(properties, (n - 1) as nat).entries;
        lemma_appended(before, properties[n - 1].0, records::runtime_of(properties[n - 1].1, 0), 0);
        assert(records::runtime_map(properties, n).entries =~= Seq::new(
            n,
            |i: int| (properties[i].0, records::runtime_of(properties[i].1, 0)),
        ));
    }
}

proof fn lemma_stored_back(
    properties: Seq<(Seq<char>, ModelValueView)>,
    entries: Seq<(Seq<char>, ValueView)>,
    names: Seq<Seq<char>>,
    n: nat,
)
    requires
        n <= properties.len(),
        entries == Seq::new(
            properties.len(),
            |i: int| (properties[i].0, records::runtime_of(properties[i].1, 0)),
        ),
        forall|i: int|
            0 <= i < properties.len() ==> !names.contains((#[trigger] properties[i]).0)
                && records::list_depth(properties[i].1) < MAX_VALUE_DEPTH,
    ensures
        identity::stored_properties(entries, names, n) == Ok::<_, PersistErrorView>(
            properties.take(n as int)
        ),
    decreases n,
{
    if n == 0 {
        assert(properties.take(0) =~= seq![]);
    } else {
        lemma_stored_back(properties, entries, names, (n - 1) as nat);
        assert(!names.contains(properties[n - 1].0));
        records::reading_and_writing_keeps_a_stored_value(properties[n - 1].1);
        assert(properties.take(n as int) =~= properties.take(n - 1).push(properties[n - 1]));
    }
}

proof fn lemma_stored_prefix(
    a: Seq<(Seq<char>, ValueView)>,
    b: Seq<(Seq<char>, ValueView)>,
    names: Seq<Seq<char>>,
    n: nat,
)
    requires
        n <= a.len(),
        n <= b.len(),
        forall|k: int| 0 <= k < n ==> names.contains((#[trigger] a[k]).0) && names.contains(b[k].0)
            || a[k] == b[k],
    ensures
        identity::stored_properties(a, names, n) == identity::stored_properties(b, names, n),
    decreases n,
{
    if n > 0 {
        lemma_stored_prefix(a, b, names, (n - 1) as nat);
        assert(names.contains(a[n - 1].0) && names.contains(b[n - 1].0) || a[n - 1] == b[n - 1]);
    }
}

proof fn lemma_stored_inserted_at(
    entries: Seq<(Seq<char>, ValueView)>,
    names: Seq<Seq<char>>,
    p: int,
    x: (Seq<char>, ValueView),
    n: nat,
)
    requires
        0 <= p <= n <= entries.len(),
        names.contains(x.0),
    ensures
        identity::stored_properties(entries.insert(p, x), names, n + 1) == identity::stored_properties(
            entries,
            names,
            n,
        ),
    decreases n,
{
    let after = entries.insert(p, x);
    if n == p {
        assert(after[n as int] == x);
        assert forall|k: int| 0 <= k < n implies names.contains((#[trigger] after[k]).0)
            && names.contains(entries[k].0) || after[k] == entries[k] by {
            assert(after[k] == entries[k]);
        }
        lemma_stored_prefix(after, entries, names, n);
    } else {
        lemma_stored_inserted_at(entries, names, p, x, (n - 1) as nat);
        assert(after[n as int] == entries[n - 1]);
    }
}

proof fn lemma_stored_inserted(
    entries: Seq<(Seq<char>, ValueView)>,
    names: Seq<Seq<char>>,
    key: Seq<char>,
    v: ValueView,
    i: int,
)
    requires
        0 <= i <= entries.len(),
        names.contains(key),
    ensures
        identity::stored_properties(
            inspect::inserted_from(entries, key, v, i),
            names,
            inspect::inserted_from(entries, key, v, i).len(),
        ) == identity::stored_properties(entries, names, entries.len()),
    decreases entries.len() - i,
{
    if i >= entries.len() {
        assert(entries.push((key, v)) =~= entries.insert(entries.len() as int, (key, v)));
        lemma_stored_inserted_at(
            entries,
            names,
            entries.len() as int,
            (key, v),
            entries.len(),
        );
    } else {
        match value::text_order(entries[i].0, key) {
            Order::Less => {
                lemma_stored_inserted(entries, names, key, v, i + 1);
            },
            Order::Equal => {
                inspect::lemma_text_order_equal(entries[i].0, key);
                lemma_stored_prefix(
                    entries.update(i, (key, v)),
                    entries,
                    names,
                    entries.len(),
                );
            },
            Order::Greater => {
                lemma_stored_inserted_at(entries, names, i, (key, v), entries.len());
            },
        }
    }
}

proof fn lemma_with_keys(
    own: PropertyMapView,
    names: Seq<Seq<char>>,
    values: Seq<ModelValueView>,
    n: nat,
)
    requires
        n <= names.len(),
        names.len() == values.len(),
        names.no_duplicates(),
        forall|i: int| 0 <= i < names.len() ==> own.lookup(#[trigger] names[i]) is None,
    ensures
        forall|i: int|
            0 <= i < n ==> adapter::with_keys(own, names, values, n).lookup(#[trigger] names[i]) == Some(
                records::runtime_of(values[i], 0),
            ),
        forall|i: int|
            n <= i < names.len() ==> adapter::with_keys(own, names, values, n).lookup(#[trigger] names[i])
                is None,
        identity::stored_properties(
            adapter::with_keys(own, names, values, n).entries,
            names,
            adapter::with_keys(own, names, values, n).entries.len(),
        ) == identity::stored_properties(own.entries, names, own.entries.len()),
    decreases n,
{
    if n > 0 {
        lemma_with_keys(own, names, values, (n - 1) as nat);
        let before = adapter::with_keys(own, names, values, (n - 1) as nat);
        let key = names[n - 1];
        let v = records::runtime_of(values[n - 1], 0);
        assert(before.lookup(key) is None);
        assert(adapter::with_keys(own, names, values, n) == before.inserted(key, v));
        lemma_stored_inserted(before.entries, names, key, v, 0);
        inspect::lookup_after_insert(before, key, v, key);
        assert forall|i: int| 0 <= i < n implies before.inserted(key, v).lookup(
            #[trigger] names[i],
        ) == Some(records::runtime_of(values[i], 0)) by {
            if i < n - 1 {
                inspect::lookup_after_insert(before, key, v, names[i]);
            }
        }
        assert forall|i: int| n <= i < names.len() implies before.inserted(key, v).lookup(
            #[trigger] names[i],
        ) is None by {
            inspect::lookup_after_insert(before, key, v, names[i]);
        }
    }
}

proof fn lemma_absent(entries: Seq<(Seq<char>, ValueView)>, key: Seq<char>, i: int)
    requires
        0 <= i <= entries.len(),
        forall|k: int| i <= k < entries.len() ==> (#[trigger] entries[k]).0 != key,
    ensures
        inspect::lookup_from(entries, key, i) is None,
    decreases entries.len() - i,
{
    if i < entries.len() {
        lemma_absent(entries, key, i + 1);
    }
}

proof fn lemma_keys_back(
    properties: PropertyMapView,
    label: Seq<char>,
    names: Seq<Seq<char>>,
    values: Seq<ModelValueView>,
    n: nat,
)
    requires
        n <= names.len(),
        names.len() == values.len(),
        forall|i: int|
            0 <= i < names.len() ==> properties.lookup(#[trigger] names[i]) == Some(
                records::runtime_of(values[i], 0),
            ),
        forall|i: int|
            0 <= i < values.len() ==> identity::value_fault(#[trigger] values[i]) is None && identity::deferred_type(
                values[i],
            ) is None,
    ensures
        identity::key_values(
            properties,
            label,
            names,
            n,
        ) == Ok::<_, PersistErrorView>(values.take(n as int)),
    decreases n,
{
    if n == 0 {
        assert(values.take(0) =~= seq![]);
    } else {
        lemma_keys_back(properties, label, names, values, (n - 1) as nat);
        assert(properties.lookup(names[n - 1]) == Some(records::runtime_of(values[n - 1], 0)));
        assert(identity::value_fault(values[n - 1]) is None);
        records::reading_and_writing_keeps_a_stored_value(values[n - 1]);
        assert(values.take(n as int) =~= values.take(n - 1).push(values[n - 1]));
    }
}

proof fn lemma_no_fault(values: Seq<ModelValueView>, i: int)
    requires
        0 <= i <= values.len(),
        forall|k: int| 0 <= k < values.len() ==> identity::value_fault(#[trigger] values[k]) is None,
    ensures
        identity::key_fault(values, i) is None,
    decreases values.len() - i,
{
    if i < values.len() {
        assert(identity::value_fault(values[i]) is None);
        lemma_no_fault(values, i + 1);
    }
}

proof fn lemma_no_key_behind(labels: Seq<Seq<char>>, i: int, catalogue: CatalogueView)
    requires
        0 <= i <= labels.len(),
        forall|k: int| i <= k < labels.len() ==> !identity::declares_key(catalogue, #[trigger] labels[k]),
    ensures
        identity::keyed_from(labels, i, catalogue) == labels.len(),
    decreases labels.len() - i,
{
    if i < labels.len() {
        assert(!identity::declares_key(catalogue, labels[i]));
        lemma_no_key_behind(labels, i + 1, catalogue);
    }
}

proof fn lemma_others(first: Seq<char>, rest: Seq<Seq<char>>, n: nat)
    requires
        n <= rest.len(),
        !rest.contains(first),
    ensures
        identity::other_labels(seq![first] + rest, first, n + 1) == rest.take(n as int),
    decreases n,
{
    let all = seq![first] + rest;
    if n == 0 {
        assert(all[0] == first);
        assert(identity::other_labels(all, first, 0) =~= seq![]);
        assert(identity::other_labels(all, first, 1) == identity::other_labels(all, first, 0));
        assert(rest.take(0) =~= seq![]);
    } else {
        lemma_others(first, rest, (n - 1) as nat);
        assert(all[n as int] == rest[n - 1]);
        assert(rest.contains(rest[n - 1]));
        assert(rest.take(n as int) =~= rest.take(n - 1).push(rest[n - 1]));
    }
}

/// Whether a stored node fits its label's declaration: its key has a value, of
/// a type that can form a key, for every key property; no other of its labels
/// declares a key; its record holds each other property once, and its lists do
/// not nest past the limit.
pub open spec fn fits(
    key: NodeKeyView,
    record: NodeRecordView,
    names: Seq<Seq<char>>,
    catalogue: CatalogueView,
) -> bool {
    &&& catalogue.label(key.label) is Some
    &&& text::strings_view(catalogue.label(key.label)->Some_0.key@) == names
    &&& names.len() == key.key.len() > 0
    &&& names.no_duplicates()
    &&& forall|i: int|
        0 <= i < key.key.len() ==> identity::value_fault(#[trigger] key.key[i]) is None && identity::deferred_type(
            key.key[i],
        ) is None
    &&& !record.secondary_labels.contains(key.label)
    &&& forall|i: int|
        0 <= i < record.secondary_labels.len() ==> !identity::declares_key(
            catalogue,
            #[trigger] record.secondary_labels[i],
        )
    &&& names::ascend(record.properties)
    &&& forall|i: int|
        0 <= i < record.properties.len() ==> !names.contains((#[trigger] record.properties[i]).0)
            && records::list_depth(record.properties[i].1) < MAX_VALUE_DEPTH
}

/// A stored node that is read and persisted unchanged keeps its key and its
/// record: key properties go back to the key, the others to the record, and
/// bytes and temporal values keep their type.
pub proof fn a_read_node_persists_as_it_was(
    id: EntityIdView,
    key: NodeKeyView,
    record: NodeRecordView,
    names: Seq<(Seq<char>, Seq<Seq<char>>)>,
    catalogue: CatalogueView,
)
    requires
        names::found(names, key.label) is Some,
        fits(key, record, names::found(names, key.label)->Some_0, catalogue),
    ensures
        identity::identified(adapter::node_of(id, key, record, names), catalogue) == Ok::<_, PersistErrorView>(
            (key, record),
        ),
{
    let keys = names::found(names, key.label)->Some_0;
    let node = adapter::node_of(id, key, record, names);
    let all = seq![key.label] + record.secondary_labels;
    assert(node.labels == all);
    assert(all[0] == key.label);
    assert(identity::keyed_from(all, 0, catalogue) == 0);
    assert forall|k: int| 1 <= k < all.len() implies !identity::declares_key(catalogue, #[trigger] all[k]) by {
        assert(all[k] == record.secondary_labels[k - 1]);
    }
    lemma_no_key_behind(all, 1, catalogue);
    let own = records::runtime_map(record.properties, record.properties.len());
    lemma_runtime_map(record.properties, record.properties.len());
    assert forall|i: int| 0 <= i < keys.len() implies own.lookup(#[trigger] keys[i]) is None by {
        assert forall|k: int| 0 <= k < own.entries.len() implies (#[trigger] own.entries[k]).0
            != keys[i] by {
            assert(!keys.contains(record.properties[k].0));
        }
        lemma_absent(own.entries, keys[i], 0);
    }
    lemma_with_keys(own, keys, key.key, keys.len());
    lemma_stored_back(record.properties, own.entries, keys, record.properties.len());
    assert(record.properties.take(record.properties.len() as int) =~= record.properties);
    lemma_keys_back(node.properties, key.label, keys, key.key, keys.len());
    assert(key.key.take(key.key.len() as int) =~= key.key);
    lemma_no_fault(key.key, 0);
    lemma_others(key.label, record.secondary_labels, record.secondary_labels.len());
    assert(record.secondary_labels.take(record.secondary_labels.len() as int)
        =~= record.secondary_labels);
}

/// A stored relationship that is read and persisted unchanged keeps its record.
pub proof fn a_read_relationship_persists_as_it_was(rel: StoredRel)
    requires
        names::ascend(rel.record@.properties),
        forall|i: int|
            0 <= i < rel.record@.properties.len() ==> records::list_depth(
                (#[trigger] rel.record@.properties[i]).1,
            ) < MAX_VALUE_DEPTH,
    ensures
        identity::stored_properties(
            adapter::rel_of(rel).properties.entries,
            seq![],
            adapter::rel_of(rel).properties.entries.len(),
        ) == Ok::<_, PersistErrorView>(rel.record@.properties),
{
    let properties = rel.record@.properties;
    let own = records::runtime_map(properties, properties.len());
    lemma_runtime_map(properties, properties.len());
    assert(forall|i: int|
        0 <= i < properties.len() ==> !Seq::<Seq<char>>::empty().contains(
            (#[trigger] properties[i]).0,
        ));
    lemma_stored_back(properties, own.entries, seq![], properties.len());
    assert(properties.take(properties.len() as int) =~= properties);
}

// --- Staged writes ----------------------------------------------------------------------------------

/// No two nodes are written under one key; a stored node is written under the
/// key that it has; and a created one under a key that no stored node keeps.
pub proof fn nodes_are_written_under_keys_of_their_own(
    nodes: Seq<NodeValueView>,
    n: nat,
    catalogue: CatalogueView,
    state: StoredStateView,
    deleted: Seq<EntityIdView>,
)
    requires
        n <= nodes.len(),
        stage::settled(nodes, n, catalogue, state, deleted) is Ok,
    ensures
        ({
            let s = stage::settled(nodes, n, catalogue, state, deleted)->Ok_0;
            &&& s.records.len() == n
            &&& s.keys.len() == n
            &&& forall|i: int, j: int|
                0 <= i < j < n ==> (#[trigger] s.records[i]).0 != (#[trigger] s.records[j]).0
            &&& forall|i: int|
                0 <= i < n ==> (#[trigger] s.keys[i]) == (nodes[i].id, s.records[i].0)
            &&& forall|i: int|
                0 <= i < n ==> match state.decoded(nodes[i].id) {
                    Some(key) => (#[trigger] s.records[i]).0 == key,
                    None => !state.holds(s.records[i].0) || state.freed(
                        deleted,
                        s.records[i].0,
                    ),
                }
        }),
    decreases n,
{
    if n > 0 {
        nodes_are_written_under_keys_of_their_own(
            nodes,
            (n - 1) as nat,
            catalogue,
            state,
            deleted,
        );
        let before = stage::settled(nodes, (n - 1) as nat, catalogue, state, deleted)->Ok_0;
        let s = stage::settled(nodes, n, catalogue, state, deleted)->Ok_0;
        let key = s.records[n - 1].0;
        assert(s.records == before.records.push(s.records[n - 1]));
        assert(s.keys == before.keys.push(s.keys[n - 1]));
        assert(!stage::is_written(before.records, key));
        assert forall|i: int, j: int| 0 <= i < j < n implies (#[trigger] s.records[i]).0 != (
        #[trigger] s.records[j]).0 by {
            assert(s.records[i] == before.records[i]);
            if j < n - 1 {
                assert(s.records[j] == before.records[j]);
            }
        }
        assert forall|i: int| 0 <= i < n implies (#[trigger] s.keys[i]) == (
            nodes[i].id,
            s.records[i].0,
        ) by {
            if i < n - 1 {
                assert(s.keys[i] == before.keys[i]);
                assert(s.records[i] == before.records[i]);
            }
        }
        assert forall|i: int| 0 <= i < n implies match state.decoded(nodes[i].id) {
            Some(key) => (#[trigger] s.records[i]).0 == key,
            None => !state.holds(s.records[i].0) || state.freed(deleted, s.records[i].0),
        } by {
            if i < n - 1 {
                assert(s.records[i] == before.records[i]);
            }
        }
    }
}

/// Created relationships are written under keys that differ from one another and
/// from those of the stored relationships that stay.
pub proof fn created_relationships_are_not_parallel(
    keys: Seq<(EntityIdView, NodeKeyView)>,
    state: StoredStateView,
    gone: Seq<EdgeKeyView>,
    rels: Seq<RelValueView>,
    n: nat,
)
    requires
        n <= rels.len(),
        stage::put_edges(keys, state, gone, rels, n, true) is Ok,
    ensures
        ({
            let written = stage::put_edges(keys, state, gone, rels, n, true)->Ok_0;
            &&& forall|i: int, j: int|
                0 <= i < j < written.len() ==> (#[trigger] written[i]).0 != (
                #[trigger] written[j]).0
            &&& forall|i: int|
                0 <= i < written.len() ==> !state.edges.contains((#[trigger] written[i]).0)
                    || gone.contains(written[i].0)
        }),
    decreases n,
{
    if n > 0 {
        created_relationships_are_not_parallel(keys, state, gone, rels, (n - 1) as nat);
        let before = stage::put_edges(keys, state, gone, rels, (n - 1) as nat, true)->Ok_0;
        let written = stage::put_edges(keys, state, gone, rels, n, true)->Ok_0;
        if written != before {
            let last = written.last();
            assert(written == before.push(last));
            assert(!stage::is_taken(state, gone, before, last.0));
            assert forall|i: int, j: int| 0 <= i < j < written.len() implies (
            #[trigger] written[i]).0 != (#[trigger] written[j]).0 by {
                assert(written[i] == before[i]);
                if j < before.len() {
                    assert(written[j] == before[j]);
                }
            }
            assert forall|i: int| 0 <= i < written.len() implies !state.edges.contains(
                (#[trigger] written[i]).0,
            ) || gone.contains(written[i].0) by {
                if i < before.len() {
                    assert(written[i] == before[i]);
                }
            }
        }
    }
}

/// Whether a write is a deletion.
pub open spec fn is_deletion(write: StagedWriteView) -> bool {
    write is DeleteEdge || write is DeleteNode
}

/// Deletions are staged before everything else, so deleting a node and creating
/// another under its key nets to the creation.
pub proof fn deletions_are_staged_first(
    changes: WriteChangesView,
    catalogue: CatalogueView,
    state: StoredStateView,
    i: int,
    j: int,
)
    requires
        stage::persisted(changes, catalogue, state) is Ok,
        0 <= i < j < stage::persisted(changes, catalogue, state)->Ok_0.len(),
        is_deletion(stage::persisted(changes, catalogue, state)->Ok_0[j]),
    ensures
        is_deletion(stage::persisted(changes, catalogue, state)->Ok_0[i]),
{
}

} // verus!
