//! Looking at runtime values: names of types, nesting, rendering and access by
//! name.

use vstd::prelude::*;
use vstd::string::*;

use crate::exec::compare;
use crate::exec::order_laws;
use crate::exec::value::{
    self, NodeValueView, Order, PropertyMap, PropertyMapView, RelValueView, Value, ValueView,
};
use crate::text;

verus! {

/// The fixed cap on the container nesting of a runtime value, which keeps
/// recursive walks over values stack-safe.
pub const MAX_VALUE_DEPTH: usize = 256;

pub open spec fn type_label_of(v: ValueView) -> Seq<char> {
    match v {
        ValueView::Null => "Null"@,
        ValueView::Bool(_) => "Boolean"@,
        ValueView::Int(_) => "Integer"@,
        ValueView::Float(_) => "Float"@,
        ValueView::String(_) => "String"@,
        ValueView::List(_) => "List"@,
        ValueView::Mapping(_) => "Map"@,
        ValueView::Node(_) => "Node"@,
        ValueView::Relationship(_) => "Relationship"@,
        ValueView::Path(_) => "Path"@,
        ValueView::Stored(_) => "String"@,
    }
}

// --- Nesting ---------------------------------------------------------------------------------

pub open spec fn larger(a: nat, b: nat) -> nat {
    if a > b {
        a
    } else {
        b
    }
}

/// How deep containers nest in a value: 0 for a scalar, one more than the
/// deepest element for a list, a map, an entity's properties or a path.
pub open spec fn nesting(v: ValueView) -> nat
    decreases v, 0nat,
{
    match v {
        ValueView::List(items) => 1 + items_nesting(items, items.len()),
        ValueView::Mapping(m) => 1 + entries_nesting(m.entries, m.entries.len()),
        ValueView::Node(n) => 1 + entries_nesting(n.properties.entries, n.properties.entries.len()),
        ValueView::Relationship(r) => 1 + entries_nesting(
            r.properties.entries,
            r.properties.entries.len(),
        ),
        ValueView::Path(p) => 2 + larger(
            nodes_nesting(p.nodes, p.nodes.len()),
            rels_nesting(p.rels, p.rels.len()),
        ),
        _ => 0,
    }
}

pub open spec fn items_nesting(items: Seq<ValueView>, n: nat) -> nat
    decreases items, n,
{
    if n == 0 || n > items.len() {
        0
    } else {
        larger(items_nesting(items, (n - 1) as nat), nesting(items[n - 1]))
    }
}

pub open spec fn entries_nesting(entries: Seq<(Seq<char>, ValueView)>, n: nat) -> nat
    decreases entries, n,
{
    if n == 0 || n > entries.len() {
        0
    } else {
        larger(entries_nesting(entries, (n - 1) as nat), nesting(entries[n - 1].1))
    }
}

pub open spec fn nodes_nesting(nodes: Seq<NodeValueView>, n: nat) -> nat
    decreases nodes, n,
{
    if n == 0 || n > nodes.len() {
        0
    } else {
        larger(
            nodes_nesting(nodes, (n - 1) as nat),
            entries_nesting(
                nodes[n - 1].properties.entries,
                nodes[n - 1].properties.entries.len(),
            ),
        )
    }
}

pub open spec fn rels_nesting(rels: Seq<RelValueView>, n: nat) -> nat
    decreases rels, n,
{
    if n == 0 || n > rels.len() {
        0
    } else {
        larger(
            rels_nesting(rels, (n - 1) as nat),
            entries_nesting(
                rels[n - 1].properties.entries,
                rels[n - 1].properties.entries.len(),
            ),
        )
    }
}

fn entries_exceed(entries: &Vec<(String, Value)>, limit: usize) -> (r: bool)
    ensures
        r == (entries_nesting(value::string_values_view(entries@), entries@.len()) > limit),
    decreases entries, 0nat,
{
    let mut i: usize = 0;
    while i < entries.len()
        invariant
            i <= entries.len(),
            entries_nesting(value::string_values_view(entries@), i as nat) <= limit,
        decreases entries.len() - i,
    {
        proof {
            assert(decreases_to!(*entries => entries@[i as int].1));
        }
        if entries[i].1.nesting_exceeds(limit) {
            proof {
                lemma_entries_nesting_grows(
                    value::string_values_view(entries@),
                    (i + 1) as nat,
                    entries@.len(),
                );
            }
            return true;
        }
        i += 1;
    }
    false
}

proof fn lemma_entries_nesting_grows(entries: Seq<(Seq<char>, ValueView)>, m: nat, n: nat)
    requires
        m <= n <= entries.len(),
    ensures
        entries_nesting(entries, m) <= entries_nesting(entries, n),
    decreases n,
{
    if m < n {
        lemma_entries_nesting_grows(entries, m, (n - 1) as nat);
    }
}

proof fn lemma_items_nesting_grows(items: Seq<ValueView>, m: nat, n: nat)
    requires
        m <= n <= items.len(),
    ensures
        items_nesting(items, m) <= items_nesting(items, n),
    decreases n,
{
    if m < n {
        lemma_items_nesting_grows(items, m, (n - 1) as nat);
    }
}

proof fn lemma_nodes_nesting_grows(nodes: Seq<NodeValueView>, m: nat, n: nat)
    requires
        m <= n <= nodes.len(),
    ensures
        nodes_nesting(nodes, m) <= nodes_nesting(nodes, n),
    decreases n,
{
    if m < n {
        lemma_nodes_nesting_grows(nodes, m, (n - 1) as nat);
    }
}

proof fn lemma_rels_nesting_grows(rels: Seq<RelValueView>, m: nat, n: nat)
    requires
        m <= n <= rels.len(),
    ensures
        rels_nesting(rels, m) <= rels_nesting(rels, n),
    decreases n,
{
    if m < n {
        lemma_rels_nesting_grows(rels, m, (n - 1) as nat);
    }
}

impl Value {
    pub fn type_label(&self) -> (r: &'static str)
        ensures
            r@ == type_label_of(self@),
    {
        match self {
            Value::Null => "Null",
            Value::Bool(_) => "Boolean",
            Value::Int(_) => "Integer",
            Value::Float(_) => "Float",
            Value::String(_) => "String",
            Value::List(_) => "List",
            Value::Mapping(_) => "Map",
            Value::Node(_) => "Node",
            Value::Relationship(_) => "Relationship",
            Value::Path(_) => "Path",
            Value::Stored(_) => "String",
        }
    }

    pub fn is_null(&self) -> (r: bool)
        ensures
            r == (self@ is Null),
    {
        matches!(self, Value::Null)
    }

    /// Normalise a read-carrier to its string rendering when an operator or
    /// function is about to consume this value. Shallow: a list that merely
    /// contains a carrier is returned untouched, so an untouched pass-through
    /// keeps its carrier for the write-back round-trip.
    pub(crate) fn decayed(self) -> (r: Value)
        ensures
            r@ == compare::decayed(self@),
    {
        match self {
            Value::Stored(m) => Value::String(value::render_stored(&m)),
            other => other,
        }
    }

    /// Whether containers nest deeper than `limit` in this value.
    pub fn nesting_exceeds(&self, limit: usize) -> (r: bool)
        ensures
            r == (nesting(self@) > limit),
        decreases self, 0nat,
    {
        match self {
            Value::List(items) => {
                if limit == 0 {
                    return true;
                }
                let mut i: usize = 0;
                while i < items.len()
                    invariant
                        i <= items.len(),
                        limit > 0,
                        self is List,
                        *items == self->List_0,
                        items_nesting(value::values_view(items@), i as nat) <= limit - 1,
                    decreases items.len() - i,
                {
                    proof {
                        assert(decreases_to!(*self => self->List_0@[i as int]));
                    }
                    if items[i].nesting_exceeds(limit - 1) {
                        proof {
                            lemma_items_nesting_grows(
                                value::values_view(items@),
                                (i + 1) as nat,
                                items@.len(),
                            );
                        }
                        return true;
                    }
                    i += 1;
                }
                false
            },
            Value::Mapping(m) => {
                proof {
                    assert(decreases_to!(*self => self->Mapping_0.entries));
                    assert(m@.entries == value::string_values_view(m.entries@));
                }
                limit == 0 || entries_exceed(&m.entries, limit - 1)
            },
            Value::Node(n) => {
                proof {
                    assert(decreases_to!(*self => self->Node_0.properties.entries));
                    assert(n@.properties == n.properties@);
                    assert(
                        n.properties@.entries == value::string_values_view(n.properties.entries@)
                    );
                }
                limit == 0 || entries_exceed(&n.properties.entries, limit - 1)
            },
            Value::Relationship(x) => {
                proof {
                    assert(decreases_to!(*self => self->Relationship_0.properties.entries));
                    assert(x@.properties == x.properties@);
                    assert(
                        x.properties@.entries == value::string_values_view(x.properties.entries@)
                    );
                }
                limit == 0 || entries_exceed(&x.properties.entries, limit - 1)
            },
            Value::Path(p) => {
                if limit <= 1 {
                    return true;
                }
                let mut i: usize = 0;
                while i < p.nodes.len()
                    invariant
                        i <= p.nodes.len(),
                        limit > 1,
                        self is Path,
                        *p == self->Path_0,
                        nodes_nesting(p@.nodes, i as nat) <= limit - 2,
                    decreases p.nodes.len() - i,
                {
                    proof {
                        assert(decreases_to!(
                            *self => self->Path_0.nodes@[i as int].properties.entries
                        ));
                    }
                    if entries_exceed(&p.nodes[i].properties.entries, limit - 2) {
                        proof {
                            lemma_nodes_nesting_grows(
                                p@.nodes,
                                (i + 1) as nat,
                                p.nodes@.len(),
                            );
                        }
                        return true;
                    }
                    i += 1;
                }
                let mut j: usize = 0;
                while j < p.rels.len()
                    invariant
                        j <= p.rels.len(),
                        limit > 1,
                        self is Path,
                        *p == self->Path_0,
                        nodes_nesting(p@.nodes, p.nodes@.len()) <= limit - 2,
                        rels_nesting(p@.rels, j as nat) <= limit - 2,
                    decreases p.rels.len() - j,
                {
                    proof {
                        assert(decreases_to!(
                            *self => self->Path_0.rels@[j as int].properties.entries
                        ));
                    }
                    if entries_exceed(&p.rels[j].properties.entries, limit - 2) {
                        proof {
                            lemma_rels_nesting_grows(p@.rels, (j + 1) as nat, p.rels@.len());
                        }
                        return true;
                    }
                    j += 1;
                }
                false
            },
            _ => false,
        }
    }
}

// --- Access by name -----------------------------------------------------------------------------

/// The value called `key` from the entry `i` on.
pub open spec fn lookup_from(
    entries: Seq<(Seq<char>, ValueView)>,
    key: Seq<char>,
    i: int,
) -> Option<ValueView>
    decreases entries.len() - i,
{
    if i < 0 || i >= entries.len() {
        None
    } else if entries[i].0 == key {
        Some(entries[i].1)
    } else {
        lookup_from(entries, key, i + 1)
    }
}

impl PropertyMapView {
    /// The empty map.
    pub open spec fn empty() -> PropertyMapView {
        PropertyMapView { entries: seq![] }
    }

    /// The value called `key`.
    pub open spec fn lookup(self, key: Seq<char>) -> Option<ValueView> {
        lookup_from(self.entries, key, 0)
    }

    /// The value called `key`, null where there is none.
    pub open spec fn lookup_or_null(self, key: Seq<char>) -> ValueView {
        match self.lookup(key) {
            Some(v) => v,
            None => ValueView::Null,
        }
    }

    /// The map with `value` under the name `key`.
    pub open spec fn inserted(self, key: Seq<char>, value: ValueView) -> PropertyMapView {
        PropertyMapView { entries: inserted_from(self.entries, key, value, 0) }
    }

    /// The map without the name `key`.
    pub open spec fn removed(self, key: Seq<char>) -> PropertyMapView {
        PropertyMapView { entries: removed_from(self.entries, key, 0) }
    }

    /// Whether the names ascend.
    pub open spec fn ascending(self) -> bool {
        forall|i: int, j: int|
            0 <= i < j < self.entries.len() ==> value::text_order(
                (#[trigger] self.entries[i]).0,
                (#[trigger] self.entries[j]).0,
            ) == Order::Less
    }
}

/// The entries with `value` under `key`, which does not stand before `i`.
pub open spec fn inserted_from(
    entries: Seq<(Seq<char>, ValueView)>,
    key: Seq<char>,
    value: ValueView,
    i: int,
) -> Seq<(Seq<char>, ValueView)>
    decreases entries.len() - i,
{
    if i < 0 || i >= entries.len() {
        entries.push((key, value))
    } else {
        match value::text_order(entries[i].0, key) {
            Order::Less => inserted_from(entries, key, value, i + 1),
            Order::Equal => entries.update(i, (key, value)),
            Order::Greater => entries.insert(i, (key, value)),
        }
    }
}

/// The entries without the first called `key` from `i` on.
pub open spec fn removed_from(
    entries: Seq<(Seq<char>, ValueView)>,
    key: Seq<char>,
    i: int,
) -> Seq<(Seq<char>, ValueView)>
    decreases entries.len() - i,
{
    if i < 0 || i >= entries.len() {
        entries
    } else if entries[i].0 == key {
        entries.remove(i)
    } else {
        removed_from(entries, key, i + 1)
    }
}

impl PropertyMap {
    /// The empty map.
    pub fn new() -> (r: PropertyMap)
        ensures
            r@ == PropertyMapView::empty(),
    {
        let r = PropertyMap { entries: Vec::new() };
        assert(r@.entries =~= PropertyMapView::empty().entries);
        r
    }

    pub fn len(&self) -> (r: usize)
        ensures
            r == self@.entries.len(),
    {
        self.entries.len()
    }

    /// The value called `key`.
    pub fn get(&self, key: &str) -> (r: Option<&Value>)
        ensures
            self@.lookup(key@) == match r {
                Some(v) => Some(v@),
                None => None,
            },
    {
        let mut i: usize = 0;
        while i < self.entries.len()
            invariant
                i <= self.entries.len(),
                self@.lookup(key@) == lookup_from(self@.entries, key@, i as int),
            decreases self.entries.len() - i,
        {
            assert(self@.entries[i as int] == (
                self.entries@[i as int].0@,
                self.entries@[i as int].1@,
            ));
            if text::str_eq(self.entries[i].0.as_str(), key) {
                return Some(&self.entries[i].1);
            }
            i += 1;
        }
        None
    }

    /// A copy of the value called `key`, null where there is none.
    pub(crate) fn get_or_null(&self, key: &str) -> (r: Value)
        ensures
            r@ == self@.lookup_or_null(key@),
    {
        match self.get(key) {
            Some(v) => v.dup(),
            None => Value::Null,
        }
    }

    /// Put `value` under the name `key`.
    pub fn insert(&mut self, key: String, value: Value)
        ensures
            final(self)@ == old(self)@.inserted(key@, value@),
    {
        let ghost before = self@;
        let ghost raw = self.entries@;
        let mut i: usize = 0;
        while i < self.entries.len()
            invariant
                i <= self.entries.len(),
                self.entries@ == raw,
                before == self@,
                before.entries == value::string_values_view(raw),
                inserted_from(before.entries, key@, value@, 0) == inserted_from(
                    before.entries,
                    key@,
                    value@,
                    i as int,
                ),
                before == old(self)@,
            decreases self.entries.len() - i,
        {
            assert(before.entries[i as int].0 == self.entries@[i as int].0@);
            match value::order_texts(self.entries[i].0.as_str(), key.as_str()) {
                Order::Less => {},
                Order::Equal => {
                    let ghost entry = (key@, value@);
                    self.entries[i] = (key, value);
                    assert(self@.entries =~= before.entries.update(i as int, entry));
                    return;
                },
                Order::Greater => {
                    let ghost entry = (key@, value@);
                    self.entries.insert(i, (key, value));
                    assert(self@.entries =~= before.entries.insert(i as int, entry));
                    return;
                },
            }
            i += 1;
        }
        let ghost entry = (key@, value@);
        self.entries.push((key, value));
        assert(self@.entries =~= before.entries.push(entry));
    }

    /// Take the name `key` out.
    pub fn remove(&mut self, key: &str)
        ensures
            final(self)@ == old(self)@.removed(key@),
    {
        let ghost before = self@;
        let mut i: usize = 0;
        while i < self.entries.len()
            invariant
                i <= self.entries.len(),
                before == self@,
                removed_from(before.entries, key@, 0) == removed_from(
                    before.entries,
                    key@,
                    i as int,
                ),
                before == old(self)@,
            decreases self.entries.len() - i,
        {
            assert(before.entries[i as int].0 == self.entries@[i as int].0@);
            if text::str_eq(self.entries[i].0.as_str(), key) {
                let gone = self.entries.remove(i);
                assert(self@.entries =~= before.entries.remove(i as int));
                return;
            }
            i += 1;
        }
    }
}

proof fn lemma_text_same(a: Seq<char>, i: int)
    ensures
        value::text_order_from(a, a, i) == Order::Equal,
    decreases a.len() - i,
{
    if 0 <= i < a.len() {
        lemma_text_same(a, i + 1);
    }
}

proof fn lemma_text_equal(a: Seq<char>, b: Seq<char>, i: int)
    requires
        0 <= i,
        i <= a.len() || i <= b.len(),
        forall|k: int| 0 <= k < i && k < a.len() && k < b.len() ==> a[k] == b[k],
    ensures
        value::text_order_from(a, b, i) == Order::Equal ==> a == b,
    decreases a.len() - i,
{
    if i >= a.len() || i >= b.len() {
        if a.len() == b.len() {
            assert(a =~= b);
        }
    } else if a[i] == b[i] {
        lemma_text_equal(a, b, i + 1);
    }
}

/// Texts are equal in order exactly when they are equal.
pub proof fn lemma_text_order_equal(a: Seq<char>, b: Seq<char>)
    ensures
        value::text_order(a, b) == Order::Equal <==> a == b,
{
    lemma_text_equal(a, b, 0);
    lemma_text_same(a, 0);
}

proof fn lemma_inserted(
    entries: Seq<(Seq<char>, ValueView)>,
    key: Seq<char>,
    value: ValueView,
    other: Seq<char>,
    i: int,
)
    requires
        0 <= i <= entries.len(),
    ensures
        lookup_from(inserted_from(entries, key, value, i), other, i) == (if other == key {
            Some(value)
        } else {
            lookup_from(entries, other, i)
        }),
    decreases entries.len() - i,
{
    if i < entries.len() {
        lemma_text_order_equal(entries[i].0, key);
        if value::text_order(entries[i].0, key) == Order::Less {
            lemma_inserted(entries, key, value, other, i + 1);
            lemma_inserted_keeps(entries, key, value, i + 1, i);
        } else if value::text_order(entries[i].0, key) == Order::Equal {
            let after = entries.update(i, (key, value));
            lemma_lookup_update(entries, after, other, i + 1);
        } else {
            let after = entries.insert(i, (key, value));
            if other != key {
                assert(after[i].0 == key);
                lemma_lookup_shift(entries, after, other, i);
            }
        }
    } else {
        let after = entries.push((key, value));
        assert(lookup_from(after, other, i + 1) is None);
    }
}

proof fn lemma_lookup_shift(
    before: Seq<(Seq<char>, ValueView)>,
    after: Seq<(Seq<char>, ValueView)>,
    key: Seq<char>,
    i: int,
)
    requires
        0 <= i <= before.len(),
        after.len() == before.len() + 1,
        forall|k: int| i <= k < before.len() ==> #[trigger] after[k + 1] == before[k],
    ensures
        lookup_from(after, key, i + 1) == lookup_from(before, key, i),
    decreases before.len() - i,
{
    if i < before.len() {
        assert(after[i + 1] == before[i]);
        lemma_lookup_shift(before, after, key, i + 1);
    }
}

proof fn lemma_inserted_keeps(
    entries: Seq<(Seq<char>, ValueView)>,
    key: Seq<char>,
    value: ValueView,
    i: int,
    k: int,
)
    requires
        0 <= k < i <= entries.len(),
    ensures
        inserted_from(entries, key, value, i)[k] == entries[k],
        inserted_from(entries, key, value, i).len() >= entries.len(),
    decreases entries.len() - i,
{
    if i < entries.len() && value::text_order(entries[i].0, key) == Order::Less {
        lemma_inserted_keeps(entries, key, value, i + 1, k);
    }
}

proof fn lemma_lookup_update(
    before: Seq<(Seq<char>, ValueView)>,
    after: Seq<(Seq<char>, ValueView)>,
    key: Seq<char>,
    i: int,
)
    requires
        0 <= i <= before.len(),
        after.len() == before.len(),
        forall|k: int| i <= k < before.len() ==> #[trigger] after[k] == before[k],
    ensures
        lookup_from(after, key, i) == lookup_from(before, key, i),
    decreases before.len() - i,
{
    if i < before.len() {
        lemma_lookup_update(before, after, key, i + 1);
    }
}

/// What is put under a name is found there, and nothing else changes.
pub proof fn lookup_after_insert(
    m: PropertyMapView,
    key: Seq<char>,
    value: ValueView,
    other: Seq<char>,
)
    ensures
        m.inserted(key, value).lookup(key) == Some(value),
        other != key ==> m.inserted(key, value).lookup(other) == m.lookup(other),
{
    lemma_inserted(m.entries, key, value, key, 0);
    lemma_inserted(m.entries, key, value, other, 0);
}

proof fn lemma_inserted_ascends(
    m: PropertyMapView,
    key: Seq<char>,
    value: ValueView,
    i: int,
)
    requires
        m.ascending(),
        0 <= i <= m.entries.len(),
        forall|k: int| 0 <= k < i ==> value::text_order((#[trigger] m.entries[k]).0, key) == Order::Less,
    ensures
        (PropertyMapView { entries: inserted_from(m.entries, key, value, i) }).ascending(),
    decreases m.entries.len() - i,
{
    let entries = m.entries;
    if i < entries.len() {
        match value::text_order(entries[i].0, key) {
            Order::Less => {
                lemma_inserted_ascends(m, key, value, i + 1);
            },
            Order::Equal => {
                lemma_text_order_equal(entries[i].0, key);
                let after = PropertyMapView { entries: entries.update(i, (key, value)) };
                assert forall|j: int, k: int| 0 <= j < k < after.entries.len() implies value::text_order(
                    (#[trigger] after.entries[j]).0,
                    (#[trigger] after.entries[k]).0,
                ) == Order::Less by {
                    assert(after.entries[j].0 == entries[j].0);
                    assert(after.entries[k].0 == entries[k].0);
                }
            },
            Order::Greater => {
                let after = PropertyMapView { entries: entries.insert(i, (key, value)) };
                order_laws::lemma_text_flips(entries[i].0, key);
                assert forall|j: int, k: int| 0 <= j < k < after.entries.len() implies value::text_order(
                    (#[trigger] after.entries[j]).0,
                    (#[trigger] after.entries[k]).0,
                ) == Order::Less by {
                    let p = if j < i {
                        j
                    } else {
                        j - 1
                    };
                    let q = if k < i {
                        k
                    } else {
                        k - 1
                    };
                    if j == i {
                        if k > i + 1 {
                            order_laws::lemma_texts_compose(key, entries[i].0, entries[q].0);
                        }
                    } else if k != i {
                        assert(after.entries[j] == entries[p]);
                        assert(after.entries[k] == entries[q]);
                    }
                }
            },
        }
    } else {
        let after = PropertyMapView { entries: entries.push((key, value)) };
        assert forall|j: int, k: int| 0 <= j < k < after.entries.len() implies value::text_order(
            (#[trigger] after.entries[j]).0,
            (#[trigger] after.entries[k]).0,
        ) == Order::Less by {
            assert(after.entries[j] == entries[j]);
            if k < entries.len() {
                assert(after.entries[k] == entries[k]);
            }
        }
    }
}

/// The names of a map keep ascending when one is put in.
pub proof fn insert_keeps_names_ascending(m: PropertyMapView, key: Seq<char>, value: ValueView)
    requires
        m.ascending(),
    ensures
        m.inserted(key, value).ascending(),
{
    lemma_inserted_ascends(m, key, value, 0);
}

} // verus!
