//! Bringing the entities that a row holds up to date with pending writes.
//!
//! Only entities that the writes themselves created or changed are replaced,
//! so a node that was bound from another version keeps the values of that
//! version.

use vstd::prelude::*;

use crate::exec::overlay::{MutableGraph, OverlayView};
use crate::exec::row::{self, Row};
use crate::exec::source::GraphSource;
use crate::exec::value::{
    self, NodeValue, NodeValueView, PathValue, PathValueView, PropertyMap, PropertyMapView,
    RelValue, RelValueView, Value, ValueView,
};

verus! {

/// A node as the pending writes have it.
pub open spec fn refreshed_node(n: NodeValueView, o: OverlayView) -> NodeValueView {
    match o.own_node(n.id) {
        Some(c) => c,
        None => n,
    }
}

/// A relationship as the pending writes have it.
pub open spec fn refreshed_rel(r: RelValueView, o: OverlayView) -> RelValueView {
    match o.own_rel(r.id) {
        Some(c) => c,
        None => r,
    }
}

/// A value whose entities are as the pending writes have them.
pub open spec fn refreshed(v: ValueView, o: OverlayView) -> ValueView
    decreases v, 0nat,
{
    match v {
        ValueView::Node(n) => ValueView::Node(refreshed_node(n, o)),
        ValueView::Relationship(r) => ValueView::Relationship(refreshed_rel(r, o)),
        ValueView::Path(p) => ValueView::Path(
            PathValueView {
                nodes: Seq::new(p.nodes.len(), |i: int| refreshed_node(p.nodes[i], o)),
                rels: Seq::new(p.rels.len(), |i: int| refreshed_rel(p.rels[i], o)),
            },
        ),
        ValueView::List(items) => ValueView::List(refreshed_items(items, items.len(), o)),
        ValueView::Mapping(m) => ValueView::Mapping(
            PropertyMapView { entries: refreshed_entries(m.entries, m.entries.len(), o) },
        ),
        _ => v,
    }
}

/// The first `n` items, refreshed.
pub open spec fn refreshed_items(items: Seq<ValueView>, n: nat, o: OverlayView) -> Seq<ValueView>
    decreases items, n,
{
    if n == 0 || n > items.len() {
        seq![]
    } else {
        refreshed_items(items, (n - 1) as nat, o).push(refreshed(items[n - 1], o))
    }
}

/// The first `n` entries, refreshed.
pub open spec fn refreshed_entries(
    entries: Seq<(Seq<char>, ValueView)>,
    n: nat,
    o: OverlayView,
) -> Seq<(Seq<char>, ValueView)>
    decreases entries, n,
{
    if n == 0 || n > entries.len() {
        seq![]
    } else {
        refreshed_entries(entries, (n - 1) as nat, o).push(
            (entries[n - 1].0, refreshed(entries[n - 1].1, o)),
        )
    }
}

/// A row whose entities are as the pending writes have them.
pub open spec fn refreshed_row(row: Map<u32, ValueView>, o: OverlayView) -> Map<u32, ValueView> {
    Map::new(|k: u32| row.dom().contains(k), |k: u32| refreshed(row[k], o))
}

/// Rows whose entities are as the pending writes have them.
pub open spec fn refreshed_rows(rows: Seq<Map<u32, ValueView>>, o: OverlayView) -> Seq<
    Map<u32, ValueView>,
> {
    Seq::new(rows.len(), |i: int| refreshed_row(rows[i], o))
}

fn refresh_node<G: GraphSource>(n: &NodeValue, graph: &MutableGraph<G>) -> (r: NodeValue)
    ensures
        r@ == refreshed_node(n@, graph@),
{
    match graph.own_node_version(&n.id) {
        Some(c) => c.dup(),
        None => n.dup(),
    }
}

fn refresh_rel<G: GraphSource>(x: &RelValue, graph: &MutableGraph<G>) -> (r: RelValue)
    ensures
        r@ == refreshed_rel(x@, graph@),
{
    match graph.own_rel_version(&x.id) {
        Some(c) => c.dup(),
        None => x.dup(),
    }
}

fn refresh_path<G: GraphSource>(p: &PathValue, graph: &MutableGraph<G>) -> (r: PathValue)
    ensures
        ValueView::Path(r@) == refreshed(ValueView::Path(p@), graph@),
{
    let ghost o = graph@;
    let mut nodes: Vec<NodeValue> = Vec::new();
    let mut i: usize = 0;
    while i < p.nodes.len()
        invariant
            i <= p.nodes.len(),
            o == graph@,
            nodes@.len() == i,
            forall|k: int|
                0 <= k < i ==> (#[trigger] nodes@[k])@ == refreshed_node(p.nodes@[k]@, o),
        decreases p.nodes.len() - i,
    {
        nodes.push(refresh_node(&p.nodes[i], graph));
        i += 1;
    }
    let mut rels: Vec<RelValue> = Vec::new();
    let mut j: usize = 0;
    while j < p.rels.len()
        invariant
            j <= p.rels.len(),
            o == graph@,
            rels@.len() == j,
            forall|k: int| 0 <= k < j ==> (#[trigger] rels@[k])@ == refreshed_rel(p.rels@[k]@, o),
        decreases p.rels.len() - j,
    {
        rels.push(refresh_rel(&p.rels[j], graph));
        j += 1;
    }
    let r = PathValue { nodes, rels };
    proof {
        assert(r@.nodes =~= Seq::new(p@.nodes.len(), |i: int| refreshed_node(p@.nodes[i], o)));
        assert(r@.rels =~= Seq::new(p@.rels.len(), |i: int| refreshed_rel(p@.rels[i], o)));
    }
    r
}

/// The value with its entities as the pending writes have them.
pub(crate) fn refresh<G: GraphSource>(v: &Value, graph: &MutableGraph<G>) -> (r: Value)
    ensures
        r@ == refreshed(v@, graph@),
    decreases v,
{
    match v {
        Value::Node(n) => Value::Node(refresh_node(n, graph)),
        Value::Relationship(x) => Value::Relationship(refresh_rel(x, graph)),
        Value::Path(p) => Value::Path(refresh_path(p, graph)),
        Value::List(items) => {
            let ghost o = graph@;
            let ghost all = value::values_view(items@);
            let mut out: Vec<Value> = Vec::new();
            let mut i: usize = 0;
            assert(value::values_view(out@) =~= seq![]);
            while i < items.len()
                invariant
                    i <= items.len(),
                    v is List,
                    *items == v->List_0,
                    o == graph@,
                    all == value::values_view(items@),
                    value::values_view(out@) == refreshed_items(all, i as nat, o),
                decreases items.len() - i,
            {
                assert(decreases_to!(*v => v->List_0@[i as int]));
                assert(all[i as int] == items@[i as int]@);
                let x = refresh(&items[i], graph);
                assert(value::values_view(out@.push(x)) =~= value::values_view(out@).push(x@));
                out.push(x);
                i += 1;
            }
            Value::List(out)
        },
        Value::Mapping(m) => {
            let ghost o = graph@;
            let ghost all = value::string_values_view(m.entries@);
            let mut out: Vec<(String, Value)> = Vec::new();
            let mut i: usize = 0;
            assert(value::string_values_view(out@) =~= seq![]);
            while i < m.entries.len()
                invariant
                    i <= m.entries.len(),
                    v is Mapping,
                    *m == v->Mapping_0,
                    o == graph@,
                    all == value::string_values_view(m.entries@),
                    value::string_values_view(out@) == refreshed_entries(all, i as nat, o),
                decreases m.entries.len() - i,
            {
                assert(decreases_to!(*v => v->Mapping_0.entries@[i as int].1));
                assert(all[i as int] == (m.entries@[i as int].0@, m.entries@[i as int].1@));
                let x = (m.entries[i].0.clone(), refresh(&m.entries[i].1, graph));
                assert(value::string_values_view(out@.push(x)) =~= value::string_values_view(out@).push(
                    (x.0@, x.1@),
                ));
                out.push(x);
                i += 1;
            }
            let r = PropertyMap { entries: out };
            assert(m@.entries == all);
            assert(r@.entries == value::string_values_view(out@));
            Value::Mapping(r)
        },
        _ => v.dup(),
    }
}

/// The rows with their entities as the pending writes have them.
pub(crate) fn refresh_rows<G: GraphSource>(rows: &Vec<Row>, graph: &MutableGraph<G>) -> (r: Vec<
    Row,
>)
    ensures
        row::rows_view(r@) == refreshed_rows(row::rows_view(rows@), graph@),
{
    let ghost all = row::rows_view(rows@);
    let mut out: Vec<Row> = Vec::new();
    let mut i: usize = 0;
    while i < rows.len()
        invariant
            i <= rows.len(),
            all == row::rows_view(rows@),
            out@.len() == i,
            forall|k: int| 0 <= k < i ==> (#[trigger] out@[k])@ == refreshed_row(all[k], graph@),
        decreases rows.len() - i,
    {
        assert(all[i as int] == rows@[i as int]@);
        out.push(rows[i].refreshed(graph));
        i += 1;
    }
    assert(row::rows_view(out@) =~= refreshed_rows(all, graph@));
    out
}

} // verus!
