//! Seeks over a snapshot miss nothing: what a seek answers holds every node that
//! a scan would keep.

use vstd::prelude::*;

use crate::exec::adapter::{self, SnapshotView};
use crate::exec::compare;
use crate::exec::families;
use crate::exec::records::ModelValueView;
use crate::exec::seek::{self, RangeEnd, RangePlan};
use crate::exec::value::{NodeValueView, Order, PropertyMapView, ValueView};
use crate::names;

verus! {

/// Whether a value is of a kind that is stored as a property.
pub open spec fn is_storable_kind(v: ValueView) -> bool {
    !(v is Mapping || v is Node || v is Relationship || v is Path)
}

/// Whether the first `n` named properties equal the pins.
pub open spec fn properties_equal(
    properties: PropertyMapView,
    names: Seq<Seq<char>>,
    pins: Seq<ValueView>,
    n: nat,
) -> bool {
    forall|i: int|
        0 <= i < n ==> is_storable_kind(properties.lookup_or_null(#[trigger] names[i]))
            && compare::equality(properties.lookup_or_null(names[i]), pins[i]) == Some(true)
}

proof fn lemma_equal_is_indexed(v: ValueView, pin: ValueView)
    requires
        is_storable_kind(v),
        compare::equality(v, pin) == Some(true),
        !seek::incomplete(pin),
    ensures
        seek::index_value(v) is Some,
        seek::lookup_keys(pin).contains(seek::index_value(v)->Some_0),
{
    assert(seek::index_value(v) is Some);
    seek::lookup_keys_cover_what_is_equal(v, pin);
}

proof fn lemma_no_incomplete(pins: Seq<ValueView>, n: nat, i: int)
    requires
        !seek::any_incomplete(pins, n),
        0 <= i < n <= pins.len(),
    ensures
        !seek::incomplete(pins[i]),
    decreases n,
{
    if i < n - 1 {
        lemma_no_incomplete(pins, (n - 1) as nat, i);
    }
}

proof fn lemma_not_blind(pins: Seq<ValueView>, n: nat)
    requires
        n <= pins.len(),
        forall|i: int| 0 <= i < n ==> seek::lookup_keys(#[trigger] pins[i]).len() > 0,
    ensures
        !seek::any_blind(pins, n),
    decreases n,
{
    if n > 0 {
        lemma_not_blind(pins, (n - 1) as nat);
        assert(seek::lookup_keys(pins[n - 1]).len() > 0);
    }
}

proof fn lemma_extended(
    prefixes: Seq<Seq<ModelValueView>>,
    n: nat,
    ends: Seq<ModelValueView>,
    p: int,
    j: int,
)
    requires
        0 <= p < n <= prefixes.len(),
        0 <= j < ends.len(),
    ensures
        seek::extended_by(prefixes, n, ends).contains(prefixes[p].push(ends[j])),
    decreases n,
{
    let before = seek::extended_by(prefixes, (n - 1) as nat, ends);
    let more = Seq::new(ends.len(), |k: int| prefixes[n - 1].push(ends[k]));
    let all = seek::extended_by(prefixes, n, ends);
    assert(all == before + more);
    if p == n - 1 {
        assert(all[before.len() + j] == more[j]);
    } else {
        lemma_extended(prefixes, (n - 1) as nat, ends, p, j);
        let k = before.index_of(prefixes[p].push(ends[j]));
        assert(all[k] == before[k]);
    }
}

proof fn lemma_tuple_is_probed(
    properties: PropertyMapView,
    names: Seq<Seq<char>>,
    pins: Seq<ValueView>,
    n: nat,
)
    requires
        n <= names.len(),
        names.len() == pins.len(),
        !seek::any_incomplete(pins, pins.len()),
        properties_equal(properties, names, pins, pins.len()),
    ensures
        adapter::tuple_of(properties, names, n) is Some,
        seek::combinations(pins, n).contains(adapter::tuple_of(properties, names, n)->Some_0),
    decreases n,
{
    if n == 0 {
        assert(seek::combinations(pins, 0)[0] == Seq::<ModelValueView>::empty());
    } else {
        lemma_tuple_is_probed(properties, names, pins, (n - 1) as nat);
        let before = seek::combinations(pins, (n - 1) as nat);
        let tuple = adapter::tuple_of(properties, names, (n - 1) as nat)->Some_0;
        let v = properties.lookup_or_null(names[n - 1]);
        assert(is_storable_kind(v) && compare::equality(v, pins[n - 1]) == Some(true));
        lemma_no_incomplete(pins, pins.len(), n - 1);
        lemma_equal_is_indexed(v, pins[n - 1]);
        assert(properties.lookup(names[n - 1]) is Some);
        let keys = seek::lookup_keys(pins[n - 1]);
        let m = seek::index_value(v)->Some_0;
        lemma_extended(before, before.len(), keys, before.index_of(tuple), keys.index_of(m));
    }
}

proof fn lemma_found(
    nodes: Seq<NodeValueView>,
    n: nat,
    label: Seq<char>,
    names: Seq<Seq<char>>,
    probe: Seq<ModelValueView>,
    primary: bool,
    i: int,
)
    requires
        0 <= i < n <= nodes.len(),
        adapter::probed_by(nodes[i], label, names, probe, primary),
    ensures
        adapter::found_by_probe(nodes, n, label, names, probe, primary).contains(nodes[i]),
    decreases n,
{
    let before = adapter::found_by_probe(nodes, (n - 1) as nat, label, names, probe, primary);
    let all = adapter::found_by_probe(nodes, n, label, names, probe, primary);
    if i == n - 1 {
        assert(all[before.len() as int] == nodes[i]);
    } else {
        lemma_found(nodes, (n - 1) as nat, label, names, probe, primary, i);
        assert(all[before.index_of(nodes[i])] == nodes[i]);
    }
}

proof fn lemma_found_by_some(
    nodes: Seq<NodeValueView>,
    label: Seq<char>,
    names: Seq<Seq<char>>,
    probes: Seq<Seq<ModelValueView>>,
    k: nat,
    primary: bool,
    node: NodeValueView,
    p: int,
)
    requires
        0 <= p < k <= probes.len(),
        nodes.contains(node),
        adapter::probed_by(node, label, names, probes[p], primary),
    ensures
        adapter::found_by_probes(nodes, label, names, probes, k, primary).contains(node),
    decreases k,
{
    let before = adapter::found_by_probes(nodes, label, names, probes, (k - 1) as nat, primary);
    let more = adapter::found_by_probe(nodes, nodes.len(), label, names, probes[k - 1], primary);
    let all = adapter::found_by_probes(nodes, label, names, probes, k, primary);
    assert(all == before + more);
    if p == k - 1 {
        lemma_found(nodes, nodes.len(), label, names, probes[p], primary, nodes.index_of(node));
        assert(all[before.len() + more.index_of(node)] == node);
    } else {
        lemma_found_by_some(nodes, label, names, probes, (k - 1) as nat, primary, node, p);
        assert(all[before.index_of(node)] == node);
    }
}

proof fn lemma_probes_find(
    nodes: Seq<NodeValueView>,
    label: Seq<char>,
    names: Seq<Seq<char>>,
    pins: Seq<ValueView>,
    primary: bool,
    node: NodeValueView,
)
    requires
        seek::probes_for(pins) is Some,
        names.len() == pins.len(),
        nodes.contains(node),
        if primary {
            node.labels.len() > 0 && node.labels[0] == label
        } else {
            node.labels.contains(label)
        },
        properties_equal(node.properties, names, pins, pins.len()),
    ensures
        adapter::found_by_probes(
            nodes,
            label,
            names,
            seek::probes_for(pins)->Some_0,
            seek::probes_for(pins)->Some_0.len(),
            primary,
        ).contains(node),
{
    assert forall|i: int| 0 <= i < pins.len() implies seek::lookup_keys(#[trigger] pins[i]).len() > 0 by {
        let v = node.properties.lookup_or_null(names[i]);
        assert(is_storable_kind(v) && compare::equality(v, pins[i]) == Some(true));
        lemma_no_incomplete(pins, pins.len(), i);
        lemma_equal_is_indexed(v, pins[i]);
    }
    lemma_not_blind(pins, pins.len());
    lemma_tuple_is_probed(node.properties, names, pins, names.len());
    let probes = seek::probes_for(pins)->Some_0;
    assert(probes == seek::combinations(pins, pins.len()));
    let tuple = adapter::tuple_of(node.properties, names, names.len())->Some_0;
    let p = probes.index_of(tuple);
    lemma_found_by_some(nodes, label, names, probes, probes.len(), primary, node, p);
}

/// An index seek that serves holds every node of the index's label whose
/// properties equal the pins.
pub proof fn index_seeks_miss_nothing(
    s: SnapshotView,
    name: Seq<char>,
    properties: Seq<Seq<char>>,
    pins: Seq<ValueView>,
    node: NodeValueView,
)
    requires
        s.by_index(name, properties, pins) is Some,
        s.nodes.contains(node),
        node.labels.contains(adapter::table_named(s.indexes, name, 0)->Some_0.label),
        properties_equal(node.properties, properties, pins, pins.len()),
    ensures
        s.by_index(name, properties, pins)->Some_0.contains(node),
{
    let table = adapter::table_named(s.indexes, name, 0)->Some_0;
    lemma_probes_find(s.nodes, table.label, properties, pins, false, node);
}

/// A key seek that serves holds every node of the label whose key equals the
/// pins.
pub proof fn key_seeks_miss_nothing(
    s: SnapshotView,
    label: Seq<char>,
    pins: Seq<ValueView>,
    node: NodeValueView,
)
    requires
        s.by_key(label, pins) is Some,
        names::found(s.key_names, label)->Some_0.len() == pins.len(),
        s.nodes.contains(node),
        node.labels.len() > 0,
        node.labels[0] == label,
        properties_equal(
            node.properties,
            names::found(s.key_names, label)->Some_0,
            pins,
            pins.len(),
        ),
    ensures
        s.by_key(label, pins)->Some_0.contains(node),
{
    let names = names::found(s.key_names, label)->Some_0;
    lemma_probes_find(s.nodes, label, names, pins, true, node);
}

proof fn lemma_entry(
    nodes: Seq<NodeValueView>,
    n: nat,
    label: Seq<char>,
    property: Seq<char>,
    i: int,
)
    requires
        0 <= i < n <= nodes.len(),
        nodes[i].labels.contains(label),
        seek::index_value(nodes[i].properties.lookup_or_null(property)) is Some,
    ensures
        adapter::entries_of(nodes, n, label, property).contains(nodes[i]),
    decreases n,
{
    let before = adapter::entries_of(nodes, (n - 1) as nat, label, property);
    let all = adapter::entries_of(nodes, n, label, property);
    let node = nodes[n - 1];
    let v = adapter::entry_value(node, property);
    let at = adapter::entry_slot(before, property, v, before.len());
    adapter::index_entries_ascend(nodes, (n - 1) as nat, label, property);
    adapter::lemma_slot(before, property, v, before.len());
    if i == n - 1 {
        assert(all[at] == nodes[i]);
    } else {
        lemma_entry(nodes, (n - 1) as nat, label, property, i);
        let k = before.index_of(nodes[i]);
        if all != before {
            if k < at {
                assert(all[k] == nodes[i]);
            } else {
                assert(all[k + 1] == nodes[i]);
            }
        }
    }
}

proof fn lemma_found_between(
    entries: Seq<NodeValueView>,
    n: nat,
    property: Seq<char>,
    lower: Option<RangeEnd>,
    upper: Option<RangeEnd>,
    i: int,
)
    requires
        0 <= i < n <= entries.len(),
        seek::above(adapter::entry_value(entries[i], property), lower),
        seek::beneath(adapter::entry_value(entries[i], property), upper),
    ensures
        adapter::found_between(entries, n, property, lower, upper).contains(entries[i]),
    decreases n,
{
    let before = adapter::found_between(entries, (n - 1) as nat, property, lower, upper);
    let all = adapter::found_between(entries, n, property, lower, upper);
    if i == n - 1 {
        assert(all[before.len() as int] == entries[i]);
    } else {
        lemma_found_between(entries, (n - 1) as nat, property, lower, upper, i);
        assert(all[before.index_of(entries[i])] == entries[i]);
    }
}

/// A range seek that serves holds every indexed node of the label whose property
/// lies between the bounds.
pub proof fn range_seeks_miss_nothing(
    s: SnapshotView,
    name: Seq<char>,
    property: Seq<char>,
    lower: Option<RangeEnd>,
    upper: Option<RangeEnd>,
    node: NodeValueView,
)
    requires
        s.by_range(name, property, lower, upper) is Some,
        s.nodes.contains(node),
        node.labels.contains(adapter::table_named(s.indexes, name, 0)->Some_0.label),
        seek::index_value(node.properties.lookup_or_null(property)) is Some,
        seek::above(node.properties.lookup_or_null(property), lower),
        seek::beneath(node.properties.lookup_or_null(property), upper),
    ensures
        s.by_range(name, property, lower, upper)->Some_0.contains(node),
{
    let table = adapter::table_named(s.indexes, name, 0)->Some_0;
    seek::ranges_cover_what_is_between(node.properties.lookup_or_null(property), lower, upper);
    lemma_entry(s.nodes, s.nodes.len(), table.label, property, s.nodes.index_of(node));
    let entries = adapter::entries_of(s.nodes, s.nodes.len(), table.label, property);
    lemma_found_between(
        entries,
        entries.len(),
        property,
        lower,
        upper,
        entries.index_of(node),
    );
}

proof fn lemma_found_ascends(
    entries: Seq<NodeValueView>,
    n: nat,
    property: Seq<char>,
    lower: Option<RangeEnd>,
    upper: Option<RangeEnd>,
)
    requires
        n <= entries.len(),
        adapter::entries_ascend(entries, property),
    ensures
        ({
            let found = adapter::found_between(entries, n, property, lower, upper);
            &&& adapter::entries_ascend(found, property)
            &&& forall|i: int|
                0 <= i < found.len() ==> exists|k: int|
                    0 <= k < n && #[trigger] entries[k] == #[trigger] found[i]
        }),
    decreases n,
{
    if n > 0 {
        lemma_found_ascends(entries, (n - 1) as nat, property, lower, upper);
        let before = adapter::found_between(entries, (n - 1) as nat, property, lower, upper);
        let found = adapter::found_between(entries, n, property, lower, upper);
        assert forall|i: int| 0 <= i < found.len() implies exists|k: int|
            0 <= k < n && #[trigger] entries[k] == #[trigger] found[i] by {
            if i < before.len() {
                assert(found[i] == before[i]);
            } else {
                assert(entries[n - 1] == found[i]);
            }
        }
        assert forall|i: int, j: int| 0 <= i < j < found.len() implies !families::stands_after(
            adapter::entry_value(#[trigger] found[i], property),
            adapter::entry_value(#[trigger] found[j], property),
        ) by {
            assert(found[i] == before[i]);
            if j < before.len() {
                assert(found[j] == before[j]);
            } else {
                let k = choose|k: int|
                    0 <= k < n - 1 && #[trigger] entries[k] == before[i];
                assert(found[j] == entries[n - 1]);
            }
        }
    }
}

/// A range seek lists its candidates in the order of the index: integers first,
/// then floating-point numbers, each ascending.
pub proof fn range_candidates_ascend(
    s: SnapshotView,
    name: Seq<char>,
    property: Seq<char>,
    lower: Option<RangeEnd>,
    upper: Option<RangeEnd>,
)
    requires
        s.by_range(name, property, lower, upper) is Some,
    ensures
        adapter::entries_ascend(s.by_range(name, property, lower, upper)->Some_0, property),
{
    let table = adapter::table_named(s.indexes, name, 0)->Some_0;
    adapter::index_entries_ascend(s.nodes, s.nodes.len(), table.label, property);
    let entries = adapter::entries_of(s.nodes, s.nodes.len(), table.label, property);
    lemma_found_ascends(entries, entries.len(), property, lower, upper);
}

} // verus!
