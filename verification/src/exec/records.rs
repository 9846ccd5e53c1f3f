//! Stored records, and how their values become runtime values and back.

use vstd::prelude::*;
use vstd::string::*;

use crate::exec::inspect::{self, MAX_VALUE_DEPTH};
use crate::exec::value::{
    self, PropertyMap, PropertyMapView, StoredValue, StoredValueView, Value, ValueView,
};
use crate::text;

verus! {

/// A value as storage has it.
#[derive(Debug, PartialEq, Eq)]
pub enum ModelValue {
    Null,
    Bool(bool),
    Int(i64),
    /// The bit pattern of an IEEE-754 binary64 number.
    Float(u64),
    String(String),
    List(Vec<ModelValue>),
    /// Bytes and temporal values, which the runtime has no native form of.
    Deferred(StoredValue),
}

/// The value that a [`ModelValue`] stands for.
pub enum ModelValueView {
    Null,
    Bool(bool),
    Int(i64),
    Float(u64),
    String(Seq<char>),
    List(Seq<ModelValueView>),
    Deferred(StoredValueView),
}

/// A node's identity: its primary label and the values of its key.
#[derive(Debug, PartialEq, Eq)]
pub struct NodeKey {
    pub label: String,
    pub key: Vec<ModelValue>,
}

/// The value that a [`NodeKey`] stands for.
pub struct NodeKeyView {
    pub label: Seq<char>,
    pub key: Seq<ModelValueView>,
}

/// What a node stores besides its key.
#[derive(Debug, PartialEq, Eq)]
pub struct NodeRecord {
    pub secondary_labels: Vec<String>,
    pub properties: Vec<(String, ModelValue)>,
}

/// The value that a [`NodeRecord`] stands for.
pub struct NodeRecordView {
    pub secondary_labels: Seq<Seq<char>>,
    pub properties: Seq<(Seq<char>, ModelValueView)>,
}

/// A relationship's identity: its ends and its type.
#[derive(Debug, PartialEq, Eq)]
pub struct EdgeKey {
    pub src: NodeKey,
    pub rtype: String,
    pub dst: NodeKey,
}

/// The value that a [`EdgeKey`] stands for.
pub struct EdgeKeyView {
    pub src: NodeKeyView,
    pub rtype: Seq<char>,
    pub dst: NodeKeyView,
}

/// What a relationship stores besides its key.
#[derive(Debug, PartialEq, Eq)]
pub struct EdgeRecord {
    pub properties: Vec<(String, ModelValue)>,
}

/// The value that a [`EdgeRecord`] stands for.
pub struct EdgeRecordView {
    pub properties: Seq<(Seq<char>, ModelValueView)>,
}

impl ModelValue {
    pub open spec fn view(&self) -> ModelValueView
        decreases self,
    {
        match self {
            ModelValue::Null => ModelValueView::Null,
            ModelValue::Bool(x) => ModelValueView::Bool(*x),
            ModelValue::Int(x) => ModelValueView::Int(*x),
            ModelValue::Float(x) => ModelValueView::Float(*x),
            ModelValue::String(x) => ModelValueView::String(x@),
            ModelValue::List(x) => ModelValueView::List(model_values_view(x@)),
            ModelValue::Deferred(x) => ModelValueView::Deferred(x@),
        }
    }

    /// A copy.
    pub fn dup(&self) -> (r: ModelValue)
        ensures
            r@ == self@,
        decreases self,
    {
        match self {
            ModelValue::Null => ModelValue::Null,
            ModelValue::Bool(x) => ModelValue::Bool(*x),
            ModelValue::Int(x) => ModelValue::Int(*x),
            ModelValue::Float(x) => ModelValue::Float(*x),
            ModelValue::String(x) => ModelValue::String(x.clone()),
            ModelValue::List(x) => ModelValue::List(dup_model_values(x)),
            ModelValue::Deferred(x) => ModelValue::Deferred(x.dup()),
        }
    }
}

impl NodeKey {
    pub open spec fn view(&self) -> NodeKeyView
    {
        NodeKeyView {
            label: self.label@,
            key: model_values_view(self.key@),
        }
    }

    /// A copy.
    pub fn dup(&self) -> (r: NodeKey)
        ensures
            r@ == self@,
    {
        NodeKey {
            label: self.label.clone(),
            key: dup_model_values(&self.key),
        }
    }
}

impl NodeRecord {
    pub open spec fn view(&self) -> NodeRecordView
    {
        NodeRecordView {
            secondary_labels: text::strings_view(self.secondary_labels@),
            properties: string_model_values_view(self.properties@),
        }
    }

    /// A copy.
    pub fn dup(&self) -> (r: NodeRecord)
        ensures
            r@ == self@,
    {
        NodeRecord {
            secondary_labels: text::dup_strings(&self.secondary_labels),
            properties: dup_string_model_values(&self.properties),
        }
    }
}

impl EdgeKey {
    pub open spec fn view(&self) -> EdgeKeyView
    {
        EdgeKeyView {
            src: self.src@,
            rtype: self.rtype@,
            dst: self.dst@,
        }
    }

    /// A copy.
    pub fn dup(&self) -> (r: EdgeKey)
        ensures
            r@ == self@,
    {
        EdgeKey {
            src: self.src.dup(),
            rtype: self.rtype.clone(),
            dst: self.dst.dup(),
        }
    }
}

impl EdgeRecord {
    pub open spec fn view(&self) -> EdgeRecordView
    {
        EdgeRecordView {
            properties: string_model_values_view(self.properties@),
        }
    }

    /// A copy.
    pub fn dup(&self) -> (r: EdgeRecord)
        ensures
            r@ == self@,
    {
        EdgeRecord {
            properties: dup_string_model_values(&self.properties),
        }
    }
}

pub open spec fn model_values_view(v: Seq<ModelValue>) -> Seq<ModelValueView>
    decreases v,
{
    Seq::new(v.len(), |i: int| if 0 <= i < v.len() { v[i]@ } else { arbitrary() })
}

pub fn dup_model_values(v: &Vec<ModelValue>) -> (r: Vec<ModelValue>)
    ensures
        model_values_view(r@) == model_values_view(v@),
    decreases v,
{
    let mut out: Vec<ModelValue> = Vec::new();
    let mut i: usize = 0;
    while i < v.len()
        invariant
            i <= v.len(),
            out@.len() == i,
            forall|k: int| 0 <= k < i ==> model_values_view(out@)[k] == #[trigger] model_values_view(v@)[k],
        decreases v.len() - i,
    {
        proof {
            assert(decreases_to!(*v => v@[i as int]));
        }
        out.push(v[i].dup());
        i += 1;
    }
    proof {
        assert(model_values_view(out@) =~= model_values_view(v@));
    }
    out
}

pub open spec fn string_model_values_view(
    v: Seq<(String, ModelValue)>,
) -> Seq<(Seq<char>, ModelValueView)>
    decreases v,
{
    Seq::new(v.len(), |i: int| if 0 <= i < v.len() { (v[i].0@, v[i].1@) } else { arbitrary() })
}

pub fn dup_string_model_values(v: &Vec<(String, ModelValue)>) -> (r: Vec<(String, ModelValue)>)
    ensures
        string_model_values_view(r@) == string_model_values_view(v@),
    decreases v,
{
    let mut out: Vec<(String, ModelValue)> = Vec::new();
    let mut i: usize = 0;
    while i < v.len()
        invariant
            i <= v.len(),
            out@.len() == i,
            forall|k: int| 0 <= k < i ==> string_model_values_view(out@)[k] == #[trigger] string_model_values_view(v@)[k],
        decreases v.len() - i,
    {
        proof {
            assert(decreases_to!(*v => v@[i as int]));
        }
        out.push((v[i].0.clone(), v[i].1.dup()));
        i += 1;
    }
    proof {
        assert(string_model_values_view(out@) =~= string_model_values_view(v@));
    }
    out
}

// --- Reading ----------------------------------------------------------------------------------------

/// The runtime value of a stored one, `depth` lists deep in others. Deferred
/// types are carried verbatim; beyond the depth limit stands null.
pub open spec fn runtime_of(v: ModelValueView, depth: nat) -> ValueView
    decreases v, 0nat,
{
    if depth >= MAX_VALUE_DEPTH {
        ValueView::Null
    } else {
        match v {
            ModelValueView::Null => ValueView::Null,
            ModelValueView::Bool(b) => ValueView::Bool(b),
            ModelValueView::Int(n) => ValueView::Int(n),
            ModelValueView::Float(x) => ValueView::Float(x),
            ModelValueView::String(s) => ValueView::String(s),
            ModelValueView::List(items) => ValueView::List(
                runtime_items(items, items.len(), depth + 1),
            ),
            ModelValueView::Deferred(s) => ValueView::Stored(s),
        }
    }
}

/// The runtime values of the first `n` stored ones.
pub open spec fn runtime_items(items: Seq<ModelValueView>, n: nat, depth: nat) -> Seq<ValueView>
    decreases items, n,
{
    if n == 0 || n > items.len() {
        seq![]
    } else {
        runtime_items(items, (n - 1) as nat, depth).push(runtime_of(items[n - 1], depth))
    }
}

/// Convert a stored value to a runtime value. The runtime has no native
/// bytes/temporal variant, so those are wrapped in a carrier that presents as
/// its string rendering in every query semantic and from which writing recovers
/// the stored value.
pub fn convert_value(v: &ModelValue) -> (r: Value)
    ensures
        r@ == runtime_of(v@, 0),
{
    convert_value_at(v, 0)
}

fn convert_value_at(v: &ModelValue, depth: usize) -> (r: Value)
    requires
        depth <= MAX_VALUE_DEPTH,
    ensures
        r@ == runtime_of(v@, depth as nat),
    decreases v,
{
    if depth >= MAX_VALUE_DEPTH {
        return Value::Null;
    }
    match v {
        ModelValue::Null => Value::Null,
        ModelValue::Bool(b) => Value::Bool(*b),
        ModelValue::Int(n) => Value::Int(*n),
        ModelValue::Float(x) => Value::Float(*x),
        ModelValue::String(s) => Value::String(s.clone()),
        ModelValue::List(items) => {
            let ghost all = model_values_view(items@);
            let ghost d = (depth + 1) as nat;
            let mut out: Vec<Value> = Vec::new();
            let mut i: usize = 0;
            assert(value::values_view(out@) =~= runtime_items(all, 0, d));
            while i < items.len()
                invariant
                    i <= items.len(),
                    v is List,
                    *items == v->List_0,
                    depth < MAX_VALUE_DEPTH,
                    d == depth + 1,
                    all == model_values_view(items@),
                    value::values_view(out@) == runtime_items(all, i as nat, d),
                decreases items.len() - i,
            {
                assert(decreases_to!(*v => v->List_0@[i as int]));
                assert(all[i as int] == items@[i as int]@);
                let x = convert_value_at(&items[i], depth + 1);
                assert(value::values_view(out@.push(x)) =~= value::values_view(out@).push(x@));
                out.push(x);
                i += 1;
            }
            Value::List(out)
        },
        ModelValue::Deferred(s) => Value::Stored(s.dup()),
    }
}

/// The first `n` properties as runtime values.
pub open spec fn runtime_map(
    properties: Seq<(Seq<char>, ModelValueView)>,
    n: nat,
) -> PropertyMapView
    decreases n,
{
    if n == 0 || n > properties.len() {
        PropertyMapView::empty()
    } else {
        runtime_map(properties, (n - 1) as nat).inserted(
            properties[n - 1].0,
            runtime_of(properties[n - 1].1, 0),
        )
    }
}

/// Stored properties as runtime values.
pub(crate) fn convert_map(properties: &Vec<(String, ModelValue)>) -> (r: PropertyMap)
    ensures
        r@ == runtime_map(string_model_values_view(properties@), properties@.len()),
{
    let ghost all = string_model_values_view(properties@);
    let mut out = PropertyMap::new();
    let mut i: usize = 0;
    while i < properties.len()
        invariant
            i <= properties.len(),
            all == string_model_values_view(properties@),
            out@ == runtime_map(all, i as nat),
        decreases properties.len() - i,
    {
        assert(all[i as int] == (properties@[i as int].0@, properties@[i as int].1@));
        out.insert(properties[i].0.clone(), convert_value(&properties[i].1));
        i += 1;
    }
    out
}

// --- Index values -----------------------------------------------------------------------------------

/// The stored value that a runtime value is looked up by in an index: as it
/// compares, so that a carrier is its string rendering. Maps, entities and what
/// nests beyond the depth limit are not looked up.
pub open spec fn indexed_as(v: ValueView, depth: nat) -> Option<ModelValueView>
    decreases v, 0nat,
{
    if depth >= MAX_VALUE_DEPTH {
        None
    } else {
        match v {
            ValueView::Null => Some(ModelValueView::Null),
            ValueView::Bool(b) => Some(ModelValueView::Bool(b)),
            ValueView::Int(n) => Some(ModelValueView::Int(n)),
            ValueView::Float(x) => Some(ModelValueView::Float(x)),
            ValueView::String(s) => Some(ModelValueView::String(s)),
            ValueView::Stored(s) => Some(ModelValueView::String(value::stored_text(s))),
            ValueView::List(items) => match indexed_items(items, items.len(), depth + 1) {
                Some(all) => Some(ModelValueView::List(all)),
                None => None,
            },
            _ => None,
        }
    }
}

/// As [`indexed_as`], for the first `n` items.
pub open spec fn indexed_items(items: Seq<ValueView>, n: nat, depth: nat) -> Option<
    Seq<ModelValueView>,
>
    decreases items, n,
{
    if n == 0 || n > items.len() {
        Some(seq![])
    } else {
        match indexed_items(items, (n - 1) as nat, depth) {
            None => None,
            Some(before) => match indexed_as(items[n - 1], depth) {
                None => None,
                Some(x) => Some(before.push(x)),
            },
        }
    }
}

proof fn lemma_indexed_items_none(items: Seq<ValueView>, m: nat, n: nat, depth: nat)
    requires
        m <= n <= items.len(),
        indexed_items(items, m, depth) is None,
    ensures
        indexed_items(items, n, depth) is None,
    decreases n - m,
{
    if m < n {
        lemma_indexed_items_none(items, m, (n - 1) as nat, depth);
    }
}

/// Convert a runtime value to the stored value it is looked up by, or `None` for
/// a kind that cannot be an index value or one nested past the depth limit.
pub fn model_value_of(v: &Value) -> (r: Option<ModelValue>)
    ensures
        indexed_as(v@, 0) == match r {
            Some(x) => Some(x@),
            None => None,
        },
{
    model_value_of_at(v, 0)
}

fn model_value_of_at(v: &Value, depth: usize) -> (r: Option<ModelValue>)
    requires
        depth <= MAX_VALUE_DEPTH,
    ensures
        indexed_as(v@, depth as nat) == match r {
            Some(x) => Some(x@),
            None => None,
        },
    decreases v,
{
    if depth >= MAX_VALUE_DEPTH {
        return None;
    }
    match v {
        Value::Null => Some(ModelValue::Null),
        Value::Bool(b) => Some(ModelValue::Bool(*b)),
        Value::Int(n) => Some(ModelValue::Int(*n)),
        Value::Float(x) => Some(ModelValue::Float(*x)),
        Value::String(s) => Some(ModelValue::String(s.clone())),
        Value::Stored(s) => Some(ModelValue::String(value::render_stored(s))),
        Value::List(items) => match model_values_of(items, depth + 1) {
            Some(all) => Some(ModelValue::List(all)),
            None => None,
        },
        Value::Mapping(_) | Value::Node(_) | Value::Relationship(_) | Value::Path(_) => None,
    }
}

fn model_values_of(items: &Vec<Value>, depth: usize) -> (r: Option<Vec<ModelValue>>)
    requires
        depth <= MAX_VALUE_DEPTH,
    ensures
        indexed_items(value::values_view(items@), items@.len(), depth as nat) == match r {
            Some(x) => Some(model_values_view(x@)),
            None => None,
        },
    decreases items,
{
    let ghost all = value::values_view(items@);
    let ghost d = depth as nat;
    let mut out: Vec<ModelValue> = Vec::new();
    let mut i: usize = 0;
    assert(model_values_view(out@) =~= seq![]);
    while i < items.len()
        invariant
            i <= items.len(),
            depth <= MAX_VALUE_DEPTH,
            d == depth,
            all == value::values_view(items@),
            indexed_items(all, i as nat, d) == Some(model_values_view(out@)),
        decreases items.len() - i,
    {
        assert(decreases_to!(*items => items@[i as int]));
        assert(all[i as int] == items@[i as int]@);
        match model_value_of_at(&items[i], depth) {
            None => {
                proof {
                    lemma_indexed_items_none(all, (i + 1) as nat, all.len(), d);
                }
                return None;
            },
            Some(x) => {
                assert(model_values_view(out@.push(x)) =~= model_values_view(out@).push(x@));
                out.push(x);
            },
        }
        i += 1;
    }
    Some(out)
}

// --- Writing ----------------------------------------------------------------------------------------

/// The stored value of a runtime one, or what kind of value cannot be stored. A
/// read carrier becomes the value it was read from.
pub open spec fn stored_as(v: ValueView, depth: nat) -> Result<ModelValueView, Seq<char>>
    decreases v, 0nat,
{
    if depth >= MAX_VALUE_DEPTH {
        Err("list nested past the depth limit"@)
    } else {
        match v {
            ValueView::Null => Ok(ModelValueView::Null),
            ValueView::Bool(b) => Ok(ModelValueView::Bool(b)),
            ValueView::Int(n) => Ok(ModelValueView::Int(n)),
            ValueView::Float(x) => Ok(ModelValueView::Float(x)),
            ValueView::String(s) => Ok(ModelValueView::String(s)),
            ValueView::Stored(s) => Ok(ModelValueView::Deferred(s)),
            ValueView::List(items) => match stored_items(items, items.len(), depth + 1) {
                Ok(all) => Ok(ModelValueView::List(all)),
                Err(kind) => Err(kind),
            },
            ValueView::Mapping(_) => Err("map"@),
            ValueView::Node(_) => Err("node"@),
            ValueView::Relationship(_) => Err("relationship"@),
            ValueView::Path(_) => Err("path"@),
        }
    }
}

/// As [`stored_as`], for the first `n` items.
pub open spec fn stored_items(items: Seq<ValueView>, n: nat, depth: nat) -> Result<
    Seq<ModelValueView>,
    Seq<char>,
>
    decreases items, n,
{
    if n == 0 || n > items.len() {
        Ok(seq![])
    } else {
        match stored_items(items, (n - 1) as nat, depth) {
            Err(kind) => Err(kind),
            Ok(before) => match stored_as(items[n - 1], depth) {
                Err(kind) => Err(kind),
                Ok(x) => Ok(before.push(x)),
            },
        }
    }
}

proof fn lemma_stored_items_err(items: Seq<ValueView>, m: nat, n: nat, depth: nat)
    requires
        m <= n <= items.len(),
        stored_items(items, m, depth) is Err,
    ensures
        stored_items(items, n, depth) == stored_items(items, m, depth),
    decreases n - m,
{
    if m < n {
        lemma_stored_items_err(items, m, (n - 1) as nat, depth);
    }
}

/// Convert a runtime value to a storable one; the error names the kind of value
/// that cannot be stored.
pub fn storable(v: &Value) -> (r: Result<ModelValue, &'static str>)
    ensures
        stored_as(v@, 0) == match r {
            Ok(x) => Ok::<_, Seq<char>>(x@),
            Err(kind) => Err(kind@),
        },
{
    storable_at(v, 0)
}

fn storable_at(v: &Value, depth: usize) -> (r: Result<ModelValue, &'static str>)
    requires
        depth <= MAX_VALUE_DEPTH,
    ensures
        stored_as(v@, depth as nat) == match r {
            Ok(x) => Ok::<_, Seq<char>>(x@),
            Err(kind) => Err(kind@),
        },
    decreases v,
{
    if depth >= MAX_VALUE_DEPTH {
        return Err("list nested past the depth limit");
    }
    match v {
        Value::Null => Ok(ModelValue::Null),
        Value::Bool(b) => Ok(ModelValue::Bool(*b)),
        Value::Int(n) => Ok(ModelValue::Int(*n)),
        Value::Float(x) => Ok(ModelValue::Float(*x)),
        Value::String(s) => Ok(ModelValue::String(s.clone())),
        Value::Stored(s) => Ok(ModelValue::Deferred(s.dup())),
        Value::List(items) => match storable_items(items, depth + 1) {
            Ok(all) => Ok(ModelValue::List(all)),
            Err(kind) => Err(kind),
        },
        Value::Mapping(_) => Err("map"),
        Value::Node(_) => Err("node"),
        Value::Relationship(_) => Err("relationship"),
        Value::Path(_) => Err("path"),
    }
}

fn storable_items(items: &Vec<Value>, depth: usize) -> (r: Result<Vec<ModelValue>, &'static str>)
    requires
        depth <= MAX_VALUE_DEPTH,
    ensures
        stored_items(value::values_view(items@), items@.len(), depth as nat) == match r {
            Ok(x) => Ok::<_, Seq<char>>(model_values_view(x@)),
            Err(kind) => Err(kind@),
        },
    decreases items,
{
    let ghost all = value::values_view(items@);
    let ghost d = depth as nat;
    let mut out: Vec<ModelValue> = Vec::new();
    let mut i: usize = 0;
    assert(model_values_view(out@) =~= seq![]);
    while i < items.len()
        invariant
            i <= items.len(),
            depth <= MAX_VALUE_DEPTH,
            d == depth,
            all == value::values_view(items@),
            stored_items(all, i as nat, d) == Ok::<_, Seq<char>>(model_values_view(out@)),
        decreases items.len() - i,
    {
        assert(decreases_to!(*items => items@[i as int]));
        assert(all[i as int] == items@[i as int]@);
        match storable_at(&items[i], depth) {
            Err(kind) => {
                proof {
                    lemma_stored_items_err(all, (i + 1) as nat, all.len(), d);
                }
                return Err(kind);
            },
            Ok(x) => {
                assert(model_values_view(out@.push(x)) =~= model_values_view(out@).push(x@));
                out.push(x);
            },
        }
        i += 1;
    }
    Ok(out)
}

// --- Laws -------------------------------------------------------------------------------------------

/// How deep lists nest in a stored value.
pub open spec fn list_depth(v: ModelValueView) -> nat
    decreases v, 0nat,
{
    match v {
        ModelValueView::List(items) => 1 + items_depth(items, items.len()),
        _ => 0,
    }
}

/// How deep lists nest in the first `n` items.
pub open spec fn items_depth(items: Seq<ModelValueView>, n: nat) -> nat
    decreases items, n,
{
    if n == 0 || n > items.len() {
        0
    } else {
        inspect::larger(items_depth(items, (n - 1) as nat), list_depth(items[n - 1]))
    }
}

proof fn lemma_reads_back(v: ModelValueView, depth: nat)
    requires
        depth + list_depth(v) < MAX_VALUE_DEPTH,
    ensures
        stored_as(runtime_of(v, depth), depth) == Ok::<_, Seq<char>>(v),
    decreases v, 0nat,
{
    match v {
        ModelValueView::List(items) => {
            lemma_items_read_back(items, items.len(), depth + 1);
            lemma_runtime_length(items, items.len(), depth + 1);
            assert(runtime_of(v, depth) == ValueView::List(
                runtime_items(items, items.len(), depth + 1),
            ));
            assert(items.take(items.len() as int) =~= items);
        },
        _ => {},
    }
}

proof fn lemma_runtime_length(items: Seq<ModelValueView>, n: nat, depth: nat)
    requires
        n <= items.len(),
    ensures
        runtime_items(items, n, depth).len() == n,
        forall|i: int|
            0 <= i < n ==> #[trigger] runtime_items(items, n, depth)[i] == runtime_of(
                items[i],
                depth,
            ),
    decreases n,
{
    if n > 0 {
        lemma_runtime_length(items, (n - 1) as nat, depth);
    }
}

proof fn lemma_items_read_back(items: Seq<ModelValueView>, n: nat, depth: nat)
    requires
        n <= items.len(),
        depth + items_depth(items, items.len()) < MAX_VALUE_DEPTH,
    ensures
        stored_items(runtime_items(items, items.len(), depth), n, depth) == Ok::<_, Seq<char>>(
            items.take(n as int),
        ),
    decreases items, n,
{
    lemma_runtime_length(items, items.len(), depth);
    if n == 0 {
        assert(items.take(0) =~= seq![]);
    } else {
        lemma_items_read_back(items, (n - 1) as nat, depth);
        lemma_item_depth(items, items.len(), n - 1);
        lemma_reads_back(items[n - 1], depth);
        assert(items.take(n as int) =~= items.take(n - 1).push(items[n - 1]));
    }
}

proof fn lemma_item_depth(items: Seq<ModelValueView>, n: nat, i: int)
    requires
        0 <= i < n <= items.len(),
    ensures
        list_depth(items[i]) <= items_depth(items, n),
    decreases n,
{
    if i < n - 1 {
        lemma_item_depth(items, (n - 1) as nat, i);
    }
}

/// A stored value whose lists nest less deep than the limit, read and written
/// back, is itself: bytes and temporal values keep their type.
pub proof fn reading_and_writing_keeps_a_stored_value(v: ModelValueView)
    requires
        list_depth(v) < MAX_VALUE_DEPTH,
    ensures
        stored_as(runtime_of(v, 0), 0) == Ok::<_, Seq<char>>(v),
{
    lemma_reads_back(v, 0);
}

proof fn lemma_reads_shallow(v: ModelValueView, depth: nat)
    requires
        depth <= MAX_VALUE_DEPTH,
    ensures
        depth + inspect::nesting(runtime_of(v, depth)) <= MAX_VALUE_DEPTH,
    decreases v, 0nat,
{
    if depth < MAX_VALUE_DEPTH {
        match v {
            ModelValueView::List(items) => {
                lemma_items_read_shallow(items, items.len(), depth + 1);
                lemma_runtime_length(items, items.len(), depth + 1);
            },
            _ => {},
        }
    }
}

proof fn lemma_items_read_shallow(items: Seq<ModelValueView>, n: nat, depth: nat)
    requires
        n <= items.len(),
        depth <= MAX_VALUE_DEPTH,
    ensures
        depth + inspect::items_nesting(
            runtime_items(items, items.len(), depth),
            n,
        ) <= MAX_VALUE_DEPTH,
    decreases items, n,
{
    lemma_runtime_length(items, items.len(), depth);
    if n > 0 {
        lemma_items_read_shallow(items, (n - 1) as nat, depth);
        lemma_reads_shallow(items[n - 1], depth);
    }
}

/// However deep a stored value nests, what is read of it stays within the depth
/// limit.
pub proof fn reading_bounds_the_depth(v: ModelValueView)
    ensures
        inspect::nesting(runtime_of(v, 0)) <= MAX_VALUE_DEPTH,
{
    lemma_reads_shallow(v, 0);
}

} // verus!
