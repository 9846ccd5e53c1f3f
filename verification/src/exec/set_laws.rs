//! What `SET` and `REMOVE` do to the element that they name: which properties and
//! labels it has afterwards.

use vstd::prelude::*;

use crate::bind::bound::{BoundExprView, BoundRemoveItemView, BoundSetItemView, VarId};
use crate::exec::change::{self, Altered};
use crate::exec::create::Given;
use crate::exec::expression_laws;
use crate::exec::fault::ExecErrorView;
use crate::exec::inspect;
use crate::exec::overlay::{self, OverlayView, Tally};
use crate::exec::overlay_laws;
use crate::exec::refresh;
use crate::exec::semantics::Spent;
use crate::exec::source;
use crate::exec::value::{self, NodeValueView, Order, PropertyMapView, RelValueView, ValueView};
use crate::span::Span;

verus! {

/// The properties of a node or a relationship.
pub open spec fn has_properties(v: ValueView, m: PropertyMapView) -> bool {
    match v {
        ValueView::Node(n) => n.properties == m,
        ValueView::Relationship(r) => r.properties == m,
        _ => false,
    }
}

/// Whether a value is an element and as the pending writes have it.
pub open spec fn is_up_to_date(v: ValueView, o: OverlayView) -> bool {
    (v is Node || v is Relationship) && refresh::refreshed(v, o) == v
}

/// Whether two values are one element with the same labels, type and ends.
pub open spec fn is_the_same(a: ValueView, b: ValueView) -> bool {
    match (a, b) {
        (ValueView::Node(x), ValueView::Node(y)) => x.id == y.id && x.labels == y.labels,
        (ValueView::Relationship(x), ValueView::Relationship(y)) => x.id == y.id && x.start
            == y.start && x.end == y.end && x.rel_type == y.rel_type,
        _ => false,
    }
}

/// Whether an element has just these properties after a change: under each name what
/// `wanted` has, null meaning none.
pub open spec fn now_has(
    v: ValueView,
    later: OverlayView,
    wanted: spec_fn(Seq<char>) -> ValueView,
) -> bool {
    let after = refresh::refreshed(v, later);
    &&& is_the_same(v, after)
    &&& exists|m: PropertyMapView|
        #[trigger] has_properties(after, m) && forall|name: Seq<char>| #[trigger]
            m.lookup_or_null(name) == wanted(name)
}

// --- Versions ---------------------------------------------------------------------------------------

proof fn lemma_rel_found(rels: Seq<RelValueView>, rel: RelValueView, i: int)
    requires
        0 <= i <= rels.len(),
    ensures
        overlay::find_rel(overlay::with_rel_version(rels, rel, i), rel.id, i) == Some(rel),
        forall|k: int|
            0 <= k < i ==> #[trigger] overlay::with_rel_version(rels, rel, i)[k] == rels[k],
        overlay::with_rel_version(rels, rel, i).len() >= rels.len(),
    decreases rels.len() - i,
{
    if i < rels.len() && rels[i].id != rel.id {
        lemma_rel_found(rels, rel, i + 1);
        let after = overlay::with_rel_version(rels, rel, i);
        assert(after[i] == rels[i]);
    } else if i >= rels.len() {
        assert(rels.push(rel)[i] == rel || i > rels.len());
    }
}

proof fn lemma_version(o: OverlayView, v: ValueView, a: Altered)
    requires
        is_up_to_date(v, o),
        a.count > 0 || has_properties(v, a.properties),
    ensures
        ({
            let after = refresh::refreshed(v, change::with_properties(o, v, a));
            is_the_same(v, after) && has_properties(after, a.properties)
        }),
{
    let t = Tally { properties_set: a.count, labels_added: 0, labels_removed: 0 };
    if a.count > 0 {
        match v {
            ValueView::Node(n) => {
                lemma_node_version(o, NodeValueView { properties: a.properties, ..n }, t);
            },
            ValueView::Relationship(r) => {
                let rel = RelValueView { properties: a.properties, ..r };
                if overlay::find_rel(o.created_rels, rel.id, 0) is Some {
                    lemma_rel_found(o.created_rels, rel, 0);
                } else {
                    lemma_rel_found(o.changed_rels, rel, 0);
                }
            },
            _ => {},
        }
    }
}

proof fn lemma_node_version(o: OverlayView, node: NodeValueView, t: Tally)
    ensures
        o.with_node_version(node, t).own_node(node.id) == Some(node),
{
    if source::find_node(o.created_nodes, node.id, 0) is Some {
        overlay_laws::lemma_find_versioned(o.created_nodes, node, node.id, 0);
    } else {
        overlay_laws::lemma_find_versioned(o.changed_nodes, node, node.id, 0);
    }
}

// --- Maps -------------------------------------------------------------------------------------------

proof fn lemma_removed(m: PropertyMapView, key: Seq<char>, name: Seq<char>, i: int)
    requires
        0 <= i <= m.entries.len(),
        m.ascending(),
    ensures
        ({
            let after = inspect::removed_from(m.entries, key, i);
            &&& forall|k: int| 0 <= k < i ==> #[trigger] after[k] == m.entries[k]
            &&& i <= after.len() <= m.entries.len()
            &&& inspect::lookup_from(after, name, i) == (if name == key {
                None
            } else {
                inspect::lookup_from(m.entries, name, i)
            })
            &&& (PropertyMapView { entries: after }).ascending()
        }),
    decreases m.entries.len() - i,
{
    let entries = m.entries;
    if i < entries.len() {
        if entries[i].0 == key {
            let after = entries.remove(i);
            lemma_shifted(entries, name, i, i);
            assert forall|k: int| i <= k < after.len() implies (#[trigger] after[k]).0 != key by {
                assert(after[k] == entries[k + 1]);
                inspect::lemma_text_order_equal(entries[i].0, entries[k + 1].0);
            }
            lemma_absent(after, key, i);
            let less = PropertyMapView { entries: after };
            assert forall|j: int, k: int| 0 <= j < k < after.len() implies value::text_order(
                (#[trigger] less.entries[j]).0,
                (#[trigger] less.entries[k]).0,
            ) == Order::Less by {
                let a = if j < i {
                    j
                } else {
                    j + 1
                };
                let b = if k < i {
                    k
                } else {
                    k + 1
                };
                assert(after[j] == entries[a] && after[k] == entries[b]);
            }
        } else {
            lemma_removed(m, key, name, i + 1);
            let after = inspect::removed_from(entries, key, i);
            assert(after[i] == entries[i]);
        }
    }
}

/// Behind a removed entry, entries are found as before.
proof fn lemma_shifted(entries: Seq<(Seq<char>, ValueView)>, name: Seq<char>, i: int, k: int)
    requires
        0 <= i <= k < entries.len(),
    ensures
        inspect::lookup_from(entries.remove(i), name, k) == inspect::lookup_from(
            entries,
            name,
            k + 1,
        ),
    decreases entries.len() - k,
{
    if k + 1 < entries.len() {
        assert(entries.remove(i)[k] == entries[k + 1]);
        lemma_shifted(entries, name, i, k + 1);
    }
}

proof fn lemma_absent(entries: Seq<(Seq<char>, ValueView)>, name: Seq<char>, i: int)
    requires
        0 <= i,
        forall|k: int| i <= k < entries.len() ==> (#[trigger] entries[k]).0 != name,
    ensures
        inspect::lookup_from(entries, name, i) is None,
    decreases entries.len() - i,
{
    if i < entries.len() {
        lemma_absent(entries, name, i + 1);
    }
}

/// What a map has under a name after another name was put in or taken out.
pub open spec fn put_in(
    m: PropertyMapView,
    key: Seq<char>,
    value: ValueView,
    name: Seq<char>,
) -> ValueView {
    if name == key {
        value
    } else {
        m.lookup_or_null(name)
    }
}

proof fn lemma_put(m: PropertyMapView, key: Seq<char>, value: ValueView)
    requires
        m.ascending(),
    ensures
        ({
            let a = change::put(m, key, value);
            &&& a.properties.ascending()
            &&& a.count > 0 || a.properties == m
            &&& forall|name: Seq<char>| #[trigger]
                a.properties.lookup_or_null(name) == put_in(m, key, value, name)
        }),
{
    let a = change::put(m, key, value);
    inspect::insert_keeps_names_ascending(m, key, value);
    lemma_removed(m, key, key, 0);
    assert forall|name: Seq<char>| #[trigger] a.properties.lookup_or_null(name) == put_in(
        m,
        key,
        value,
        name,
    ) by {
        inspect::lookup_after_insert(m, key, value, name);
        lemma_removed(m, key, name, 0);
    }
}

/// What a map has under a name after entries were put in.
pub open spec fn merged_in(
    m: PropertyMapView,
    more: PropertyMapView,
    name: Seq<char>,
) -> ValueView {
    match more.lookup(name) {
        Some(v) => v,
        None => m.lookup_or_null(name),
    }
}

proof fn lemma_entry_found(m: PropertyMapView, n: nat, name: Seq<char>)
    requires
        0 < n <= m.entries.len(),
        m.ascending(),
    ensures
        ({
            let (first, more) = (
                PropertyMapView { entries: m.entries.take(n - 1) },
                PropertyMapView { entries: m.entries.take(n as int) },
            );
            &&& first.lookup(name) is Some ==> more.lookup(name) == first.lookup(name) && name
                != m.entries[n - 1].0
            &&& first.lookup(name) is None ==> more.lookup(name) == (if name == m.entries[n - 1].0 {
                Some(m.entries[n - 1].1)
            } else {
                None
            })
        }),
{
    lemma_entry_from(m, n, name, 0);
}

proof fn lemma_entry_from(m: PropertyMapView, n: nat, name: Seq<char>, i: int)
    requires
        0 <= i < n <= m.entries.len(),
        m.ascending(),
    ensures
        ({
            let (first, more) = (m.entries.take(n - 1), m.entries.take(n as int));
            let (x, y) = (
                inspect::lookup_from(first, name, i),
                inspect::lookup_from(more, name, i),
            );
            &&& x is Some ==> y == x && name != m.entries[n - 1].0
            &&& x is None ==> y == (if name == m.entries[n - 1].0 {
                Some(m.entries[n - 1].1)
            } else {
                None
            })
        }),
    decreases n - i,
{
    let (first, more) = (m.entries.take(n - 1), m.entries.take(n as int));
    if i < n - 1 {
        assert(first[i] == m.entries[i] && more[i] == m.entries[i]);
        inspect::lemma_text_order_equal(m.entries[i].0, m.entries[n - 1].0);
        if m.entries[i].0 != name {
            lemma_entry_from(m, n, name, i + 1);
        }
    } else {
        assert(more[i] == m.entries[n - 1]);
        assert(inspect::lookup_from(more, name, i + 1) is None);
    }
}

proof fn lemma_merged(m: PropertyMapView, more: PropertyMapView, n: nat)
    requires
        m.ascending(),
        more.ascending(),
        n <= more.entries.len(),
    ensures
        ({
            let a = change::merged(m, more.entries, n);
            &&& a.properties.ascending()
            &&& a.count > 0 || a.properties == m
            &&& forall|name: Seq<char>| #[trigger]
                a.properties.lookup_or_null(name) == merged_in(
                    m,
                    PropertyMapView { entries: more.entries.take(n as int) },
                    name,
                )
        }),
    decreases n,
{
    let a = change::merged(m, more.entries, n);
    let these = PropertyMapView { entries: more.entries.take(n as int) };
    if n == 0 {
        assert(these.entries.len() == 0);
    } else {
        lemma_merged(m, more, (n - 1) as nat);
        let before = change::merged(m, more.entries, (n - 1) as nat);
        let (key, value) = more.entries[n - 1];
        lemma_put(before.properties, key, value);
        assert forall|name: Seq<char>| #[trigger] a.properties.lookup_or_null(name) == merged_in(
            m,
            these,
            name,
        ) by {
            lemma_entry_found(more, n, name);
            assert(before.properties.lookup_or_null(name) == merged_in(
                m,
                PropertyMapView { entries: more.entries.take(n - 1) },
                name,
            ));
            assert(change::put(before.properties, key, value).properties.lookup_or_null(name)
                == put_in(before.properties, key, value, name));
        }
    }
}

// --- Properties -------------------------------------------------------------------------------------

/// Whether a value of a row is an element with these properties, as it is now.
pub open spec fn is_element(
    v: ValueView,
    o: OverlayView,
    m: PropertyMapView,
) -> bool {
    is_up_to_date(v, o) && has_properties(v, m) && m.ascending()
}

proof fn lemma_set(
    item: BoundSetItemView,
    target: VarId,
    value: BoundExprView,
    span: Span,
    row: Map<u32, ValueView>,
    o: OverlayView,
    given: Given,
    spent: Spent,
    new: ValueView,
    m: PropertyMapView,
    key: Seq<char>,
)
    requires
        item == (BoundSetItemView::Property { target, key, value, span }),
        row.dom().contains(target.0),
        has_properties(row[target.0], m),
        expression_laws::finding(value, row, given.env(o.graph()), spent) == Ok::<
            _,
            ExecErrorView,
        >(new),
    ensures
        change::item_set(item, row, o, given, spent).result == Ok::<_, ExecErrorView>(
            change::with_properties(o, row[target.0], change::put(m, key, new)),
        ),
{
    reveal(change::item_set);
    reveal(crate::exec::semantics::value_of);
    reveal(expression_laws::finding);
}

proof fn lemma_replaced(
    item: BoundSetItemView,
    target: VarId,
    value: BoundExprView,
    span: Span,
    row: Map<u32, ValueView>,
    o: OverlayView,
    given: Given,
    spent: Spent,
    new: ValueView,
    m: PropertyMapView,
    more: PropertyMapView,
)
    requires
        item == (BoundSetItemView::Replace { target, value, span }),
        row.dom().contains(target.0),
        has_properties(row[target.0], m),
        expression_laws::finding(value, row, given.env(o.graph()), spent) == Ok::<
            _,
            ExecErrorView,
        >(new),
        expression_laws::holds_names(new, more),
    ensures
        change::item_set(item, row, o, given, spent).result == Ok::<_, ExecErrorView>(
            change::with_properties(o, row[target.0], change::replaced(m, more.entries)),
        ),
{
    reveal(change::item_set);
    reveal(crate::exec::semantics::value_of);
    reveal(expression_laws::finding);
}

proof fn lemma_added(
    item: BoundSetItemView,
    target: VarId,
    value: BoundExprView,
    span: Span,
    row: Map<u32, ValueView>,
    o: OverlayView,
    given: Given,
    spent: Spent,
    new: ValueView,
    m: PropertyMapView,
    more: PropertyMapView,
)
    requires
        item == (BoundSetItemView::Merge { target, value, span }),
        row.dom().contains(target.0),
        has_properties(row[target.0], m),
        expression_laws::finding(value, row, given.env(o.graph()), spent) == Ok::<
            _,
            ExecErrorView,
        >(new),
        expression_laws::holds_names(new, more),
    ensures
        change::item_set(item, row, o, given, spent).result == Ok::<_, ExecErrorView>(
            change::with_properties(
                o,
                row[target.0],
                change::merged(m, more.entries, more.entries.len()),
            ),
        ),
{
    reveal(change::item_set);
    reveal(crate::exec::semantics::value_of);
    reveal(expression_laws::finding);
}

/// Setting a property of an element leaves it with that value under the name, and with
/// what it had under every other name; setting it to null takes it away.
pub proof fn setting_a_property_sets_it(
    target: VarId,
    key: Seq<char>,
    value: BoundExprView,
    span: Span,
    row: Map<u32, ValueView>,
    o: OverlayView,
    given: Given,
    spent: Spent,
    new: ValueView,
    m: PropertyMapView,
)
    requires
        row.dom().contains(target.0),
        is_element(row[target.0], o, m),
        expression_laws::finding(value, row, given.env(o.graph()), spent) == Ok::<
            _,
            ExecErrorView,
        >(new),
    ensures
        change::item_set(
            BoundSetItemView::Property { target, key, value, span },
            row,
            o,
            given,
            spent,
        ).result matches Ok(later) && now_has(
            row[target.0],
            later,
            |name: Seq<char>| put_in(m, key, new, name),
        ),
{
    let item = BoundSetItemView::Property { target, key, value, span };
    lemma_set(item, target, value, span, row, o, given, spent, new, m, key);
    lemma_put(m, key, new);
    let a = change::put(m, key, new);
    let v = row[target.0];
    lemma_version(o, v, a);
    let after = refresh::refreshed(v, change::with_properties(o, v, a));
    assert(has_properties(after, a.properties));
}

/// Setting an element to a map leaves it with what the map has, and nothing else.
pub proof fn setting_all_properties_replaces_them(
    target: VarId,
    value: BoundExprView,
    span: Span,
    row: Map<u32, ValueView>,
    o: OverlayView,
    given: Given,
    spent: Spent,
    new: ValueView,
    m: PropertyMapView,
    more: PropertyMapView,
)
    requires
        row.dom().contains(target.0),
        is_element(row[target.0], o, m),
        expression_laws::finding(value, row, given.env(o.graph()), spent) == Ok::<
            _,
            ExecErrorView,
        >(new),
        expression_laws::holds_names(new, more),
        more.ascending(),
    ensures
        change::item_set(
            BoundSetItemView::Replace { target, value, span },
            row,
            o,
            given,
            spent,
        ).result matches Ok(later) && now_has(
            row[target.0],
            later,
            |name: Seq<char>| more.lookup_or_null(name),
        ),
{
    let item = BoundSetItemView::Replace { target, value, span };
    lemma_replaced(item, target, value, span, row, o, given, spent, new, m, more);
    let none = PropertyMapView::empty();
    assert(none.ascending());
    lemma_merged(none, more, more.entries.len());
    assert(more.entries.take(more.entries.len() as int) =~= more.entries);
    let a = change::replaced(m, more.entries);
    let v = row[target.0];
    if a.count == 0 {
        let next = change::merged(none, more.entries, more.entries.len());
        assert(next.count == 0);
        assert(next.properties == none);
        if m.entries.len() > 0 {
            lemma_lost(m.entries, none, m.entries.len());
        }
        assert(m.entries =~= none.entries);
    }
    lemma_version(o, v, a);
    let after = refresh::refreshed(v, change::with_properties(o, v, a));
    assert(has_properties(after, a.properties));
    assert forall|name: Seq<char>| #[trigger] a.properties.lookup_or_null(name)
        == more.lookup_or_null(name) by {
        assert(a.properties.lookup_or_null(name) == merged_in(none, more, name));
    }
}

proof fn lemma_lost(entries: Seq<(Seq<char>, ValueView)>, none: PropertyMapView, n: nat)
    requires
        n <= entries.len(),
        none.entries.len() == 0,
        n > 0,
    ensures
        change::lost(entries, none, n) > 0,
    decreases n,
{
}

/// Merging a map into an element leaves it with what the map has, and with what it had
/// under every name that the map does not have; a null in the map takes a name away.
pub proof fn merging_properties_adds_them(
    target: VarId,
    value: BoundExprView,
    span: Span,
    row: Map<u32, ValueView>,
    o: OverlayView,
    given: Given,
    spent: Spent,
    new: ValueView,
    m: PropertyMapView,
    more: PropertyMapView,
)
    requires
        row.dom().contains(target.0),
        is_element(row[target.0], o, m),
        expression_laws::finding(value, row, given.env(o.graph()), spent) == Ok::<
            _,
            ExecErrorView,
        >(new),
        expression_laws::holds_names(new, more),
        more.ascending(),
    ensures
        change::item_set(
            BoundSetItemView::Merge { target, value, span },
            row,
            o,
            given,
            spent,
        ).result matches Ok(later) && now_has(
            row[target.0],
            later,
            |name: Seq<char>| merged_in(m, more, name),
        ),
{
    let item = BoundSetItemView::Merge { target, value, span };
    lemma_added(item, target, value, span, row, o, given, spent, new, m, more);
    lemma_merged(m, more, more.entries.len());
    assert(more.entries.take(more.entries.len() as int) =~= more.entries);
    let a = change::merged(m, more.entries, more.entries.len());
    let v = row[target.0];
    lemma_version(o, v, a);
    let after = refresh::refreshed(v, change::with_properties(o, v, a));
    assert(has_properties(after, a.properties));
}

/// Removing a property of an element takes that name away, and no other.
pub proof fn removing_a_property_takes_it_away(
    target: VarId,
    key: Seq<char>,
    span: Span,
    row: Map<u32, ValueView>,
    o: OverlayView,
    m: PropertyMapView,
)
    requires
        row.dom().contains(target.0),
        is_element(row[target.0], o, m),
    ensures
        change::item_removed(BoundRemoveItemView::Property { target, key, span }, row, o) matches Ok(
            later,
        ) && now_has(row[target.0], later, |name: Seq<char>| put_in(m, key, ValueView::Null, name)),
{
    reveal(change::item_removed);
    lemma_put(m, key, ValueView::Null);
    let a = change::put(m, key, ValueView::Null);
    let v = row[target.0];
    lemma_version(o, v, a);
    let after = refresh::refreshed(v, change::with_properties(o, v, a));
    assert(has_properties(after, a.properties));
}

// --- Labels -----------------------------------------------------------------------------------------

proof fn lemma_with_labels(labels: Seq<Seq<char>>, more: Seq<Seq<char>>, n: nat)
    requires
        n <= more.len(),
    ensures
        ({
            let after = change::with_labels(labels, more, n);
            &&& labels.len() <= after.len()
            &&& after.len() == labels.len() ==> after == labels
            &&& forall|l: Seq<char>| #[trigger]
                after.contains(l) <==> labels.contains(l) || more.take(n as int).contains(l)
        }),
    decreases n,
{
    let after = change::with_labels(labels, more, n);
    if n > 0 {
        lemma_with_labels(labels, more, (n - 1) as nat);
        let before = change::with_labels(labels, more, (n - 1) as nat);
        let last = more[n - 1];
        assert(more.take(n as int) =~= more.take(n - 1).push(last));
        assert forall|l: Seq<char>| #[trigger] after.contains(l) <==> labels.contains(l)
            || more.take(n as int).contains(l) by {
            assert(before.contains(l) <==> labels.contains(l) || more.take(n - 1).contains(l));
            lemma_pushed(more.take(n - 1), last, l);
            lemma_pushed(before, last, l);
        }
    } else {
        assert(more.take(0).len() == 0);
    }
}

proof fn lemma_pushed(s: Seq<Seq<char>>, x: Seq<char>, l: Seq<char>)
    ensures
        s.push(x).contains(l) <==> s.contains(l) || l == x,
{
    if s.contains(l) {
        assert(s.push(x)[s.index_of(l)] == l);
    }
    if l == x {
        assert(s.push(x)[s.len() as int] == l);
    }
    if s.push(x).contains(l) {
        let i = s.push(x).index_of(l);
        assert(i < s.len() ==> s[i] == l);
    }
}

proof fn lemma_without_labels(labels: Seq<Seq<char>>, gone: Seq<Seq<char>>, n: nat)
    requires
        n <= labels.len(),
    ensures
        ({
            let after = change::without_labels(labels, gone, n);
            &&& after.len() <= n
            &&& after.len() == n ==> after == labels.take(n as int)
            &&& forall|l: Seq<char>| #[trigger]
                after.contains(l) <==> labels.take(n as int).contains(l) && !gone.contains(l)
        }),
    decreases n,
{
    let after = change::without_labels(labels, gone, n);
    if n > 0 {
        lemma_without_labels(labels, gone, (n - 1) as nat);
        let before = change::without_labels(labels, gone, (n - 1) as nat);
        let last = labels[n - 1];
        assert(labels.take(n as int) =~= labels.take(n - 1).push(last));
        assert forall|l: Seq<char>| #[trigger] after.contains(l) <==> labels.take(
            n as int,
        ).contains(l) && !gone.contains(l) by {
            assert(before.contains(l) <==> labels.take(n - 1).contains(l) && !gone.contains(l));
            lemma_pushed(labels.take(n - 1), last, l);
            lemma_pushed(before, last, l);
        }
    } else {
        assert(labels.take(0) =~= seq![]);
    }
}

/// Whether a node has just these labels after a change, and the properties it had.
pub open spec fn now_carries(
    n: NodeValueView,
    later: OverlayView,
    wanted: spec_fn(Seq<char>) -> bool,
) -> bool {
    let after = refresh::refreshed_node(n, later);
    &&& after.id == n.id
    &&& after.properties == n.properties
    &&& forall|l: Seq<char>| #[trigger] after.labels.contains(l) <==> wanted(l)
}

/// Adding labels leaves a node with its labels and those, removing with its labels but
/// those.
pub proof fn labels_are_added_and_removed(
    target: VarId,
    labels: Seq<Seq<char>>,
    span: Span,
    row: Map<u32, ValueView>,
    o: OverlayView,
    given: Given,
    spent: Spent,
    n: NodeValueView,
)
    requires
        row.dom().contains(target.0),
        row[target.0] == ValueView::Node(n),
        refresh::refreshed_node(n, o) == n,
    ensures
        change::item_set(
            BoundSetItemView::AddLabels { target, labels, span },
            row,
            o,
            given,
            spent,
        ).result matches Ok(later) && now_carries(
            n,
            later,
            |l: Seq<char>| n.labels.contains(l) || labels.contains(l),
        ),
        change::item_removed(BoundRemoveItemView::Labels { target, labels, span }, row, o) matches Ok(
            later,
        ) && now_carries(n, later, |l: Seq<char>| n.labels.contains(l) && !labels.contains(l)),
{
    reveal(change::item_set);
    reveal(change::item_removed);
    let v = row[target.0];
    let more = change::with_labels(n.labels, labels, labels.len());
    lemma_with_labels(n.labels, labels, labels.len());
    assert(labels.take(labels.len() as int) =~= labels);
    lemma_relabelled(o, n, more);
    let less = change::without_labels(n.labels, labels, n.labels.len());
    lemma_without_labels(n.labels, labels, n.labels.len());
    assert(n.labels.take(n.labels.len() as int) =~= n.labels);
    lemma_relabelled(o, n, less);
}

proof fn lemma_relabelled(o: OverlayView, n: NodeValueView, labels: Seq<Seq<char>>)
    requires
        refresh::refreshed_node(n, o) == n,
        labels.len() == n.labels.len() ==> labels == n.labels,
    ensures
        refresh::refreshed_node(n, change::relabelled(o, ValueView::Node(n), labels)) == (
        NodeValueView { labels, ..n }),
{
    if labels.len() != n.labels.len() {
        let node = NodeValueView { labels, ..n };
        let t = Tally {
            properties_set: 0,
            labels_added: if labels.len() > n.labels.len() {
                (labels.len() - n.labels.len()) as u64
            } else {
                0
            },
            labels_removed: if labels.len() < n.labels.len() {
                (n.labels.len() - labels.len()) as u64
            } else {
                0
            },
        };
        lemma_node_version(o, node, t);
    }
}

} // verus!
