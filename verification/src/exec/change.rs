//! `SET` and `REMOVE`: changing the properties and labels of bound entities.
//!
//! Items apply in order, row by row, and each sees the effects of those before
//! it. A null target is left alone, as after an optional match that found
//! nothing.

use vstd::prelude::*;
use vstd::string::*;

use crate::bind::bound::{
    self, BoundRemoveItem, BoundRemoveItemView, BoundSetItem, BoundSetItemView,
};
use crate::exec::create::{self, Given, Inputs, Wrote, WroteAll};
use crate::exec::eval::{self, EvalState};
use crate::exec::fault::{ExecError, ExecErrorView};
use crate::exec::governor;
use crate::exec::inspect;
use crate::exec::operators;
use crate::exec::overlay::{MutableGraph, OverlayView, Tally};
use crate::exec::refresh;
use crate::exec::row::{self, Row};
use crate::exec::semantics::{self, Spent};
use crate::exec::source::GraphSource;
use crate::exec::value::{
    self, NodeValue, NodeValueView, PropertyMap, PropertyMapView, RelValue, RelValueView, Value,
    ValueView,
};
use crate::span::Span;
use crate::text;

verus! {

// --- Properties -------------------------------------------------------------------------------------

/// Properties, and how many of them were put or taken away.
pub struct Altered {
    pub properties: PropertyMapView,
    pub count: u64,
}

/// `value` put under the name `key`; null takes the name away.
pub open spec fn put(m: PropertyMapView, key: Seq<char>, value: ValueView) -> Altered {
    if value is Null {
        taken(m, key)
    } else {
        Altered { properties: m.inserted(key, value), count: 1 }
    }
}

/// The name `key` taken away.
pub open spec fn taken(m: PropertyMapView, key: Seq<char>) -> Altered {
    if m.lookup(key) is Some {
        Altered { properties: m.removed(key), count: 1 }
    } else {
        Altered { properties: m, count: 0 }
    }
}

/// The first `n` of `entries` put into `m`.
pub open spec fn merged(
    m: PropertyMapView,
    entries: Seq<(Seq<char>, ValueView)>,
    n: nat,
) -> Altered
    decreases n,
{
    if n == 0 || n > entries.len() {
        Altered { properties: m, count: 0 }
    } else {
        let before = merged(m, entries, (n - 1) as nat);
        let next = put(before.properties, entries[n - 1].0, entries[n - 1].1);
        Altered { properties: next.properties, count: governor::saturating_sum(before.count, next.count) }
    }
}

/// How many of the first `n` of `entries` have a name that `m` lacks.
pub open spec fn lost(entries: Seq<(Seq<char>, ValueView)>, m: PropertyMapView, n: nat) -> u64
    decreases n,
{
    if n == 0 || n > entries.len() {
        0
    } else {
        governor::saturating_sum(
            lost(entries, m, (n - 1) as nat),
            if m.lookup(entries[n - 1].0) is None {
                1
            } else {
                0
            },
        )
    }
}

/// `entries` in place of what `m` holds.
pub open spec fn replaced(m: PropertyMapView, entries: Seq<(Seq<char>, ValueView)>) -> Altered {
    let next = merged(PropertyMapView::empty(), entries, entries.len());
    Altered {
        properties: next.properties,
        count: governor::saturating_sum(
            next.count,
            lost(m.entries, next.properties, m.entries.len()),
        ),
    }
}

// --- Labels -----------------------------------------------------------------------------------------

/// `labels` with those of the first `n` of `more` that are not among them.
pub open spec fn with_labels(labels: Seq<Seq<char>>, more: Seq<Seq<char>>, n: nat) -> Seq<Seq<char>>
    decreases n,
{
    if n == 0 || n > more.len() {
        labels
    } else {
        let before = with_labels(labels, more, (n - 1) as nat);
        if before.contains(more[n - 1]) {
            before
        } else {
            before.push(more[n - 1])
        }
    }
}

/// The first `n` of `labels` without those among `gone`.
pub open spec fn without_labels(labels: Seq<Seq<char>>, gone: Seq<Seq<char>>, n: nat) -> Seq<
    Seq<char>,
>
    decreases n,
{
    if n == 0 || n > labels.len() {
        seq![]
    } else {
        let before = without_labels(labels, gone, (n - 1) as nat);
        if gone.contains(labels[n - 1]) {
            before
        } else {
            before.push(labels[n - 1])
        }
    }
}

// --- Items ------------------------------------------------------------------------------------------

/// What a change to the overlay comes to.
pub struct Changed {
    pub result: Result<OverlayView, ExecErrorView>,
    pub spent: Spent,
}

/// The overlay with other properties on an entity; nothing is recorded where no
/// property was touched.
pub open spec fn with_properties(o: OverlayView, v: ValueView, a: Altered) -> OverlayView {
    let t = Tally { properties_set: a.count, labels_added: 0, labels_removed: 0 };
    if a.count == 0 {
        o
    } else {
        match v {
            ValueView::Node(n) => o.with_node_version(
                NodeValueView { properties: a.properties, ..n },
                t,
            ),
            ValueView::Relationship(r) => o.with_relationship_version(
                RelValueView { properties: a.properties, ..r },
                t,
            ),
            _ => o,
        }
    }
}

/// The properties of an entity; null has none.
pub open spec fn properties_in(v: ValueView, span: Span) -> Result<
    Option<PropertyMapView>,
    ExecErrorView,
> {
    match v {
        ValueView::Null => Ok(None),
        ValueView::Node(n) => Ok(Some(n.properties)),
        ValueView::Relationship(r) => Ok(Some(r.properties)),
        other => Err(
            operators::type_error(
                "expected a node or relationship, got "@ + inspect::type_label_of(other),
                span,
            ),
        ),
    }
}

/// The properties that a value on the right of `=` or `+=` gives: a map, or
/// those of an entity.
pub open spec fn properties_from(v: ValueView, span: Span) -> Result<
    PropertyMapView,
    ExecErrorView,
> {
    match v {
        ValueView::Mapping(m) => Ok(m),
        ValueView::Node(n) => Ok(n.properties),
        ValueView::Relationship(r) => Ok(r.properties),
        other => Err(
            operators::type_error(
                "a property map must be a map, got "@ + inspect::type_label_of(other),
                span,
            ),
        ),
    }
}

/// The overlay with other labels on a node; nothing is recorded where they are
/// as many as before.
pub open spec fn relabelled(o: OverlayView, v: ValueView, labels: Seq<Seq<char>>) -> OverlayView {
    match v {
        ValueView::Node(n) => if labels.len() == n.labels.len() {
            o
        } else {
            o.with_node_version(
                NodeValueView { labels, ..n },
                Tally {
                    properties_set: 0,
                    labels_added: if labels.len() > n.labels.len() {
                        (labels.len() - n.labels.len()) as u64
                    } else {
                        0
                    },
                    labels_removed: if labels.len() < n.labels.len() {
                        (n.labels.len() - labels.len()) as u64
                    } else {
                        0
                    },
                },
            )
        },
        _ => o,
    }
}

/// The labels of a node; null has none.
pub open spec fn labels_in(v: ValueView, span: Span) -> Result<
    Option<Seq<Seq<char>>>,
    ExecErrorView,
> {
    match v {
        ValueView::Null => Ok(None),
        ValueView::Node(n) => Ok(Some(n.labels)),
        other => Err(
            operators::type_error(
                "only nodes carry labels, got "@ + inspect::type_label_of(other),
                span,
            ),
        ),
    }
}

/// One `SET` item.
#[verifier::opaque]
pub open spec fn item_set(
    item: BoundSetItemView,
    row: Map<u32, ValueView>,
    o: OverlayView,
    given: Given,
    spent: Spent,
) -> Changed {
    let env = given.env(o.graph());
    match item {
        BoundSetItemView::Property { target, key, value, span } => {
            let x = semantics::value_of(value, row, env, spent);
            let v = row::row_get(row, target);
            Changed {
                result: match x.result {
                    Err(e) => Err(e),
                    Ok(new) => match properties_in(v, span) {
                        Err(e) => Err(e),
                        Ok(None) => Ok(o),
                        Ok(Some(m)) => Ok(with_properties(o, v, put(m, key, new))),
                    },
                },
                spent: x.spent,
            }
        },
        BoundSetItemView::Replace { target, value, span } => {
            let x = semantics::value_of(value, row, env, spent);
            let v = row::row_get(row, target);
            Changed {
                result: match x.result {
                    Err(e) => Err(e),
                    Ok(new) => match properties_in(v, span) {
                        Err(e) => Err(e),
                        Ok(None) => Ok(o),
                        Ok(Some(m)) => match properties_from(new, span) {
                            Err(e) => Err(e),
                            Ok(p) => Ok(with_properties(o, v, replaced(m, p.entries))),
                        },
                    },
                },
                spent: x.spent,
            }
        },
        BoundSetItemView::Merge { target, value, span } => {
            let x = semantics::value_of(value, row, env, spent);
            let v = row::row_get(row, target);
            Changed {
                result: match x.result {
                    Err(e) => Err(e),
                    Ok(new) => match properties_in(v, span) {
                        Err(e) => Err(e),
                        Ok(None) => Ok(o),
                        Ok(Some(m)) => if new is Null {
                            Ok(o)
                        } else {
                            match properties_from(new, span) {
                                Err(e) => Err(e),
                                Ok(p) => Ok(
                                    with_properties(o, v, merged(m, p.entries, p.entries.len())),
                                ),
                            }
                        },
                    },
                },
                spent: x.spent,
            }
        },
        BoundSetItemView::AddLabels { target, labels, span } => {
            let v = row::row_get(row, target);
            Changed {
                result: match labels_in(v, span) {
                    Err(e) => Err(e),
                    Ok(None) => Ok(o),
                    Ok(Some(ls)) => Ok(relabelled(o, v, with_labels(ls, labels, labels.len()))),
                },
                spent,
            }
        },
    }
}

/// One `REMOVE` item.
#[verifier::opaque]
pub open spec fn item_removed(
    item: BoundRemoveItemView,
    row: Map<u32, ValueView>,
    o: OverlayView,
) -> Result<OverlayView, ExecErrorView> {
    match item {
        BoundRemoveItemView::Property { target, key, span } => {
            let v = row::row_get(row, target);
            match properties_in(v, span) {
                Err(e) => Err(e),
                Ok(None) => Ok(o),
                Ok(Some(m)) => Ok(with_properties(o, v, taken(m, key))),
            }
        },
        BoundRemoveItemView::Labels { target, labels, span } => {
            let v = row::row_get(row, target);
            match labels_in(v, span) {
                Err(e) => Err(e),
                Ok(None) => Ok(o),
                Ok(Some(ls)) => Ok(relabelled(o, v, without_labels(ls, labels, ls.len()))),
            }
        },
    }
}

// --- Clauses ----------------------------------------------------------------------------------------

/// The `SET` items from `k` on, for one row.
#[verifier::opaque]
pub open spec fn items_set(
    items: Seq<BoundSetItemView>,
    k: int,
    row: Map<u32, ValueView>,
    o: OverlayView,
    given: Given,
    spent: Spent,
) -> Wrote
    decreases items.len() - k,
{
    let row = refresh::refreshed_row(row, o);
    if k < 0 || k >= items.len() {
        Wrote { result: Ok((row, o)), spent }
    } else {
        let c = item_set(items[k], row, o, given, spent);
        match c.result {
            Err(e) => Wrote { result: Err(e), spent: c.spent },
            Ok(o) => items_set(items, k + 1, row, o, given, c.spent),
        }
    }
}

/// The `SET` items for each of `rows` from `i` on, behind `out`.
#[verifier::opaque]
pub open spec fn set_from(
    rows: Seq<Map<u32, ValueView>>,
    i: int,
    items: Seq<BoundSetItemView>,
    o: OverlayView,
    given: Given,
    spent: Spent,
    out: Seq<Map<u32, ValueView>>,
) -> WroteAll
    decreases rows.len() - i,
{
    if i < 0 || i >= rows.len() {
        WroteAll { result: Ok((refresh::refreshed_rows(out, o), o)), spent }
    } else {
        let w = items_set(items, 0, rows[i], o, given, spent);
        match w.result {
            Err(e) => WroteAll { result: Err(e), spent: w.spent },
            Ok((row, o)) => set_from(rows, i + 1, items, o, given, w.spent, out.push(row)),
        }
    }
}

/// The `REMOVE` items from `k` on, for one row.
#[verifier::opaque]
pub open spec fn items_removed(
    items: Seq<BoundRemoveItemView>,
    k: int,
    row: Map<u32, ValueView>,
    o: OverlayView,
) -> Result<(Map<u32, ValueView>, OverlayView), ExecErrorView>
    decreases items.len() - k,
{
    let row = refresh::refreshed_row(row, o);
    if k < 0 || k >= items.len() {
        Ok((row, o))
    } else {
        match item_removed(items[k], row, o) {
            Err(e) => Err(e),
            Ok(o) => items_removed(items, k + 1, row, o),
        }
    }
}

/// The `REMOVE` items for each of `rows` from `i` on, behind `out`.
#[verifier::opaque]
pub open spec fn removed_from(
    rows: Seq<Map<u32, ValueView>>,
    i: int,
    items: Seq<BoundRemoveItemView>,
    o: OverlayView,
    out: Seq<Map<u32, ValueView>>,
) -> Result<(Seq<Map<u32, ValueView>>, OverlayView), ExecErrorView>
    decreases rows.len() - i,
{
    if i < 0 || i >= rows.len() {
        Ok((refresh::refreshed_rows(out, o), o))
    } else {
        match items_removed(items, 0, rows[i], o) {
            Err(e) => Err(e),
            Ok((row, o)) => removed_from(rows, i + 1, items, o, out.push(row)),
        }
    }
}

// --- Execution --------------------------------------------------------------------------------------

fn take_property(m: &mut PropertyMap, key: &str) -> (r: u64)
    ensures
        (Altered { properties: final(m)@, count: r }) == taken(old(m)@, key@),
{
    if m.get(key).is_some() {
        m.remove(key);
        1
    } else {
        0
    }
}

fn put_property(m: &mut PropertyMap, key: &str, value: &Value) -> (r: u64)
    ensures
        (Altered { properties: final(m)@, count: r }) == put(old(m)@, key@, value@),
{
    if value.is_null() {
        take_property(m, key)
    } else {
        m.insert(key.to_owned(), value.dup());
        1
    }
}

fn merge_properties(m: &mut PropertyMap, from: &PropertyMap) -> (r: u64)
    ensures
        (Altered { properties: final(m)@, count: r }) == merged(
            old(m)@,
            from@.entries,
            from@.entries.len(),
        ),
{
    let ghost all = from@.entries;
    let mut count: u64 = 0;
    let mut i: usize = 0;
    while i < from.entries.len()
        invariant
            i <= from.entries.len(),
            all == from@.entries,
            (Altered { properties: m@, count }) == merged(old(m)@, all, i as nat),
        decreases from.entries.len() - i,
    {
        assert(all == value::string_values_view(from.entries@));
        assert(all[i as int] == (from.entries@[i as int].0@, from.entries@[i as int].1@));
        let n: u64 = put_property(m, from.entries[i].0.as_str(), &from.entries[i].1);
        count = count.saturating_add(n);
        i += 1;
    }
    assert(all == value::string_values_view(from.entries@));
    count
}

fn count_lost(from: &PropertyMap, m: &PropertyMap) -> (r: u64)
    ensures
        r == lost(from@.entries, m@, from@.entries.len()),
{
    let ghost all = from@.entries;
    let mut count: u64 = 0;
    let mut i: usize = 0;
    while i < from.entries.len()
        invariant
            i <= from.entries.len(),
            all == from@.entries,
            count == lost(all, m@, i as nat),
        decreases from.entries.len() - i,
    {
        assert(all == value::string_values_view(from.entries@));
        assert(all[i as int] == (from.entries@[i as int].0@, from.entries@[i as int].1@));
        if m.get(from.entries[i].0.as_str()).is_none() {
            count = count.saturating_add(1);
        }
        i += 1;
    }
    assert(all == value::string_values_view(from.entries@));
    count
}

fn store_properties<G: GraphSource>(
    graph: &mut MutableGraph<G>,
    v: &Value,
    properties: PropertyMap,
    count: u64,
)
    ensures
        final(graph)@ == with_properties(
            old(graph)@,
            v@,
            (Altered { properties: properties@, count }),
        ),
{
    if count == 0 {
        return;
    }
    let t = Tally { properties_set: count, labels_added: 0, labels_removed: 0 };
    match v {
        Value::Node(n) => {
            let node = NodeValue { id: n.id.dup(), labels: text::dup_strings(&n.labels), properties };
            assert(node@ == NodeValueView { properties: properties@, ..n@ });
            graph.update_node(node, t);
        },
        Value::Relationship(x) => {
            let rel = RelValue {
                id: x.id.dup(),
                rel_type: x.rel_type.clone(),
                start: x.start.dup(),
                end: x.end.dup(),
                properties,
            };
            assert(rel@ == RelValueView { properties: properties@, ..x@ });
            graph.update_rel(rel, t);
        },
        _ => {},
    }
}

fn entity_properties(v: &Value, span: Span) -> (r: Result<Option<PropertyMap>, ExecError>)
    ensures
        properties_in(v@, span) == match r {
            Ok(Some(m)) => Ok::<_, ExecErrorView>(Some(m@)),
            Ok(None) => Ok(None),
            Err(e) => Err(e@),
        },
{
    match v {
        Value::Null => Ok(None),
        Value::Node(n) => Ok(Some(n.properties.dup())),
        Value::Relationship(x) => Ok(Some(x.properties.dup())),
        other => Err(
            operators::type_err(
                text::join2("expected a node or relationship, got ", other.type_label()),
                span,
            ),
        ),
    }
}

fn given_properties(v: Value, span: Span) -> (r: Result<PropertyMap, ExecError>)
    ensures
        properties_from(v@, span) == match r {
            Ok(m) => Ok::<_, ExecErrorView>(m@),
            Err(e) => Err(e@),
        },
{
    match v {
        Value::Mapping(m) => Ok(m),
        Value::Node(n) => Ok(n.properties),
        Value::Relationship(x) => Ok(x.properties),
        other => Err(
            operators::type_err(
                text::join2("a property map must be a map, got ", other.type_label()),
                span,
            ),
        ),
    }
}

fn node_labels(v: &Value, span: Span) -> (r: Result<Option<Vec<String>>, ExecError>)
    ensures
        labels_in(v@, span) == match r {
            Ok(Some(ls)) => Ok::<_, ExecErrorView>(Some(text::strings_view(ls@))),
            Ok(None) => Ok(None),
            Err(e) => Err(e@),
        },
{
    match v {
        Value::Null => Ok(None),
        Value::Node(n) => Ok(Some(text::dup_strings(&n.labels))),
        other => Err(
            operators::type_err(
                text::join2("only nodes carry labels, got ", other.type_label()),
                span,
            ),
        ),
    }
}

fn store_labels<G: GraphSource>(graph: &mut MutableGraph<G>, v: &Value, labels: Vec<String>)
    ensures
        final(graph)@ == relabelled(old(graph)@, v@, text::strings_view(labels@)),
{
    if let Value::Node(n) = v {
        let before: usize = n.labels.len();
        let after: usize = labels.len();
        if before == after {
            return;
        }
        let t = Tally {
            properties_set: 0,
            labels_added: if after > before {
                (after - before) as u64
            } else {
                0
            },
            labels_removed: if after < before {
                (before - after) as u64
            } else {
                0
            },
        };
        let node = NodeValue { id: n.id.dup(), labels, properties: n.properties.dup() };
        assert(node@ == NodeValueView { labels: text::strings_view(labels@), ..n@ });
        graph.update_node(node, t);
    }
}

fn add_labels(labels: &mut Vec<String>, more: &Vec<String>)
    ensures
        text::strings_view(final(labels)@) == with_labels(
            text::strings_view(old(labels)@),
            text::strings_view(more@),
            more@.len(),
        ),
{
    let ghost all = text::strings_view(more@);
    let ghost before = text::strings_view(labels@);
    let mut i: usize = 0;
    while i < more.len()
        invariant
            i <= more.len(),
            all == text::strings_view(more@),
            before == text::strings_view(old(labels)@),
            text::strings_view(labels@) == with_labels(before, all, i as nat),
        decreases more.len() - i,
    {
        assert(all[i as int] == more@[i as int]@);
        if !text::strings_contain(labels, more[i].as_str()) {
            let label = more[i].clone();
            let ghost v = labels@;
            labels.push(label);
            assert(text::strings_view(v.push(label)) =~= text::strings_view(v).push(label@));
        }
        i += 1;
    }
}

fn drop_labels(labels: &Vec<String>, gone: &Vec<String>) -> (r: Vec<String>)
    ensures
        text::strings_view(r@) == without_labels(
            text::strings_view(labels@),
            text::strings_view(gone@),
            labels@.len(),
        ),
{
    let ghost all = text::strings_view(labels@);
    let ghost lost = text::strings_view(gone@);
    let mut out: Vec<String> = Vec::new();
    let mut i: usize = 0;
    assert(text::strings_view(out@) =~= seq![]);
    while i < labels.len()
        invariant
            i <= labels.len(),
            all == text::strings_view(labels@),
            lost == text::strings_view(gone@),
            text::strings_view(out@) == without_labels(all, lost, i as nat),
        decreases labels.len() - i,
    {
        assert(all[i as int] == labels@[i as int]@);
        if !text::strings_contain(gone, labels[i].as_str()) {
            let label = labels[i].clone();
            assert(text::strings_view(out@.push(label)) =~= text::strings_view(out@).push(label@));
            out.push(label);
        }
        i += 1;
    }
    out
}

/// Whether a change came to what the model says.
pub open spec fn changes(
    r: Result<(), ExecError>,
    before: Spent,
    after: Spent,
    o: OverlayView,
    model: Changed,
) -> bool {
    &&& after.budget.timed == before.budget.timed
    &&& after.budget.polled >= before.budget.polled
    &&& governor::timed_out(before.budget, model.spent.budget, r) || (match r {
        Ok(_) => model.result == Ok::<_, ExecErrorView>(o),
        Err(e) => model.result == Err::<OverlayView, _>(e@),
    } && after == model.spent)
}

fn set_item<G: GraphSource>(
    item: &BoundSetItem,
    row: &Row,
    graph: &mut MutableGraph<G>,
    inputs: &Inputs,
    st: &mut EvalState,
) -> (r: Result<(), ExecError>)
    ensures
        changes(
            r,
            old(st)@,
            final(st)@,
            final(graph)@,
            item_set(item@, row@, old(graph)@, inputs@, old(st)@),
        ),
{
    broadcast use crate::exec::poll_laws::group_polls;

    reveal(item_set);
    match item {
        BoundSetItem::Property { target, key, value, span } => {
            let ctx = inputs.context(&*graph);
            let new = match eval::eval_value(value, row, &ctx, st) {
                Err(e) => {
                    return Err(e);
                },
                Ok(v) => v,
            };
            let v = row.get(*target);
            match entity_properties(&v, *span) {
                Err(e) => Err(e),
                Ok(None) => Ok(()),
                Ok(Some(mut m)) => {
                    let n: u64 = put_property(&mut m, key.as_str(), &new);
                    store_properties(graph, &v, m, n);
                    Ok(())
                },
            }
        },
        BoundSetItem::Replace { target, value, span } => {
            let ctx = inputs.context(&*graph);
            let new = match eval::eval_value(value, row, &ctx, st) {
                Err(e) => {
                    return Err(e);
                },
                Ok(v) => v,
            };
            let v = row.get(*target);
            match entity_properties(&v, *span) {
                Err(e) => Err(e),
                Ok(None) => Ok(()),
                Ok(Some(m)) => match given_properties(new, *span) {
                    Err(e) => Err(e),
                    Ok(p) => {
                        let mut next = PropertyMap::new();
                        let n: u64 = merge_properties(&mut next, &p);
                        let gone: u64 = count_lost(&m, &next);
                        store_properties(graph, &v, next, n.saturating_add(gone));
                        Ok(())
                    },
                },
            }
        },
        BoundSetItem::Merge { target, value, span } => {
            let ctx = inputs.context(&*graph);
            let new = match eval::eval_value(value, row, &ctx, st) {
                Err(e) => {
                    return Err(e);
                },
                Ok(v) => v,
            };
            let v = row.get(*target);
            match entity_properties(&v, *span) {
                Err(e) => Err(e),
                Ok(None) => Ok(()),
                Ok(Some(mut m)) => {
                    if new.is_null() {
                        return Ok(());
                    }
                    match given_properties(new, *span) {
                        Err(e) => Err(e),
                        Ok(p) => {
                            let n: u64 = merge_properties(&mut m, &p);
                            store_properties(graph, &v, m, n);
                            Ok(())
                        },
                    }
                },
            }
        },
        BoundSetItem::AddLabels { target, labels, span } => {
            let v = row.get(*target);
            match node_labels(&v, *span) {
                Err(e) => Err(e),
                Ok(None) => Ok(()),
                Ok(Some(mut ls)) => {
                    add_labels(&mut ls, labels);
                    store_labels(graph, &v, ls);
                    Ok(())
                },
            }
        },
    }
}

/// Applies `SET` items to one row.
pub(crate) fn set_items<G: GraphSource>(
    items: &Vec<BoundSetItem>,
    row: &mut Row,
    graph: &mut MutableGraph<G>,
    inputs: &Inputs,
    st: &mut EvalState,
) -> (r: Result<(), ExecError>)
    ensures
        create::wrote_row(
            r,
            old(st)@,
            final(st)@,
            final(row)@,
            final(graph)@,
            items_set(
                bound::bound_set_items_view(items@),
                0,
                old(row)@,
                old(graph)@,
                inputs@,
                old(st)@,
            ),
        ),
{
    broadcast use crate::exec::poll_laws::group_polls;

    let ghost all = bound::bound_set_items_view(items@);
    let ghost given = inputs@;
    let ghost model = items_set(all, 0, row@, graph@, given, st@);
    let mut k: usize = 0;
    while k < items.len()
        invariant
            k <= items.len(),
            all == bound::bound_set_items_view(items@),
            given == inputs@,
            st@.budget.timed == old(st)@.budget.timed,
            st@.budget.polled >= old(st)@.budget.polled,
            model == items_set(all, 0, old(row)@, old(graph)@, given, old(st)@),
            model == items_set(all, k as int, row@, graph@, given, st@),
        decreases items.len() - k,
    {
        broadcast use crate::exec::poll_laws::group_polls;

        reveal(items_set);
        assert(all[k as int] == items@[k as int]@);
        *row = row.refreshed(graph);
        if let Err(e) = set_item(&items[k], row, graph, inputs, st) {
            return Err(e);
        }
        k += 1;
    }
    reveal(items_set);
    *row = row.refreshed(graph);
    Ok(())
}

/// Execute a SET clause.
pub(crate) fn set_clause<G: GraphSource>(
    rows: &Vec<Row>,
    items: &Vec<BoundSetItem>,
    graph: &mut MutableGraph<G>,
    inputs: &Inputs,
    st: &mut EvalState,
) -> (r: Result<Vec<Row>, ExecError>)
    ensures
        create::wrote_rows(
            r,
            old(st)@,
            final(st)@,
            final(graph)@,
            set_from(
                row::rows_view(rows@),
                0,
                bound::bound_set_items_view(items@),
                old(graph)@,
                inputs@,
                old(st)@,
                seq![],
            ),
        ),
{
    broadcast use crate::exec::poll_laws::group_polls;

    let ghost all = row::rows_view(rows@);
    let ghost its = bound::bound_set_items_view(items@);
    let ghost given = inputs@;
    let ghost model = set_from(all, 0, its, graph@, given, st@, seq![]);
    let mut out: Vec<Row> = Vec::new();
    assert(row::rows_view(out@) =~= seq![]);
    let mut i: usize = 0;
    while i < rows.len()
        invariant
            i <= rows.len(),
            all == row::rows_view(rows@),
            its == bound::bound_set_items_view(items@),
            given == inputs@,
            st@.budget.timed == old(st)@.budget.timed,
            st@.budget.polled >= old(st)@.budget.polled,
            model == set_from(all, 0, its, old(graph)@, given, old(st)@, seq![]),
            model == set_from(all, i as int, its, graph@, given, st@, row::rows_view(out@)),
        decreases rows.len() - i,
    {
        broadcast use crate::exec::poll_laws::group_polls;

        reveal(set_from);
        assert(all[i as int] == rows@[i as int]@);
        let mut row = rows[i].dup();
        if let Err(e) = set_items(items, &mut row, graph, inputs, st) {
            return Err(e);
        }
        assert(row::rows_view(out@.push(row)) =~= row::rows_view(out@).push(row@));
        out.push(row);
        i += 1;
    }
    reveal(set_from);
    Ok(refresh::refresh_rows(&out, graph))
}

fn remove_item<G: GraphSource>(item: &BoundRemoveItem, row: &Row, graph: &mut MutableGraph<G>) -> (r:
    Result<(), ExecError>)
    ensures
        item_removed(item@, row@, old(graph)@) == match r {
            Ok(_) => Ok::<_, ExecErrorView>(final(graph)@),
            Err(e) => Err(e@),
        },
{
    reveal(item_removed);
    match item {
        BoundRemoveItem::Property { target, key, span } => {
            let v = row.get(*target);
            match entity_properties(&v, *span) {
                Err(e) => Err(e),
                Ok(None) => Ok(()),
                Ok(Some(mut m)) => {
                    let n: u64 = take_property(&mut m, key.as_str());
                    store_properties(graph, &v, m, n);
                    Ok(())
                },
            }
        },
        BoundRemoveItem::Labels { target, labels, span } => {
            let v = row.get(*target);
            match node_labels(&v, *span) {
                Err(e) => Err(e),
                Ok(None) => Ok(()),
                Ok(Some(ls)) => {
                    let kept = drop_labels(&ls, labels);
                    store_labels(graph, &v, kept);
                    Ok(())
                },
            }
        },
    }
}

fn remove_items<G: GraphSource>(
    items: &Vec<BoundRemoveItem>,
    row: &mut Row,
    graph: &mut MutableGraph<G>,
) -> (r: Result<(), ExecError>)
    ensures
        items_removed(
            bound::bound_remove_items_view(items@),
            0,
            old(row)@,
            old(graph)@,
        ) == match r {
            Ok(_) => Ok::<_, ExecErrorView>((final(row)@, final(graph)@)),
            Err(e) => Err(e@),
        },
{
    let ghost all = bound::bound_remove_items_view(items@);
    let ghost model = items_removed(all, 0, row@, graph@);
    let mut k: usize = 0;
    while k < items.len()
        invariant
            k <= items.len(),
            all == bound::bound_remove_items_view(items@),
            model == items_removed(all, 0, old(row)@, old(graph)@),
            model == items_removed(all, k as int, row@, graph@),
        decreases items.len() - k,
    {
        reveal(items_removed);
        assert(all[k as int] == items@[k as int]@);
        *row = row.refreshed(graph);
        if let Err(e) = remove_item(&items[k], row, graph) {
            return Err(e);
        }
        k += 1;
    }
    reveal(items_removed);
    *row = row.refreshed(graph);
    Ok(())
}

/// Execute a REMOVE clause.
pub(crate) fn remove_clause<G: GraphSource>(
    rows: &Vec<Row>,
    items: &Vec<BoundRemoveItem>,
    graph: &mut MutableGraph<G>,
) -> (r: Result<Vec<Row>, ExecError>)
    ensures
        removed_from(
            row::rows_view(rows@),
            0,
            bound::bound_remove_items_view(items@),
            old(graph)@,
            seq![],
        ) == match r {
            Ok(out) => Ok::<_, ExecErrorView>((row::rows_view(out@), final(graph)@)),
            Err(e) => Err(e@),
        },
{
    let ghost all = row::rows_view(rows@);
    let ghost its = bound::bound_remove_items_view(items@);
    let ghost model = removed_from(all, 0, its, graph@, seq![]);
    let mut out: Vec<Row> = Vec::new();
    assert(row::rows_view(out@) =~= seq![]);
    let mut i: usize = 0;
    while i < rows.len()
        invariant
            i <= rows.len(),
            all == row::rows_view(rows@),
            its == bound::bound_remove_items_view(items@),
            model == removed_from(all, 0, its, old(graph)@, seq![]),
            model == removed_from(all, i as int, its, graph@, row::rows_view(out@)),
        decreases rows.len() - i,
    {
        reveal(removed_from);
        assert(all[i as int] == rows@[i as int]@);
        let mut row = rows[i].dup();
        if let Err(e) = remove_items(items, &mut row, graph) {
            return Err(e);
        }
        assert(row::rows_view(out@.push(row)) =~= row::rows_view(out@).push(row@));
        out.push(row);
        i += 1;
    }
    reveal(removed_from);
    Ok(refresh::refresh_rows(&out, graph))
}

} // verus!
