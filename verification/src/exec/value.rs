//! The runtime value model and openCypher's three comparison regimes:
//!
//! - **Equality** (`=`, ternary): null propagates; numbers compare across
//!   Int/Float; cross-type equality is false; lists/maps compare element-wise
//!   ternarily.
//! - **Ordering comparison** (`<` etc., ternary): only mutually comparable
//!   values order; cross-type and null yield null; NaN compares false against
//!   everything including itself.
//! - **Global sort order** (ORDER BY/min/max, total): maps < nodes <
//!   relationships < lists < paths < strings < booleans < numbers < null, NaN
//!   after all other numbers; used for DISTINCT/grouping equivalence too, where
//!   null equals itself and NaN equals itself.

use std::cmp::Ordering;

use vstd::prelude::*;
use vstd::string::*;

use crate::text;

verus! {

/// Opaque, stable entity identity (in-memory counter bytes or storage key
/// bytes). Equality of entities is identity, not property equality.
#[derive(Debug, Clone, PartialEq, Eq, PartialOrd, Ord, Hash)]
pub struct EntityId {
    pub bytes: Vec<u8>,
}

/// The value that a [`EntityId`] stands for.
pub struct EntityIdView {
    pub bytes: Seq<u8>,
}

#[derive(Debug)]
pub struct NodeValue {
    pub id: EntityId,
    pub labels: Vec<String>,
    pub properties: PropertyMap,
}

/// The value that a [`NodeValue`] stands for.
pub struct NodeValueView {
    pub id: EntityIdView,
    pub labels: Seq<Seq<char>>,
    pub properties: PropertyMapView,
}

#[derive(Debug)]
pub struct RelValue {
    pub id: EntityId,
    pub rel_type: String,
    pub start: EntityId,
    pub end: EntityId,
    pub properties: PropertyMap,
}

/// The value that a [`RelValue`] stands for.
pub struct RelValueView {
    pub id: EntityIdView,
    pub rel_type: Seq<char>,
    pub start: EntityIdView,
    pub end: EntityIdView,
    pub properties: PropertyMapView,
}

/// A path: alternating nodes and relationships, starting and ending with a
/// node.
#[derive(Debug)]
pub struct PathValue {
    pub nodes: Vec<NodeValue>,
    pub rels: Vec<RelValue>,
}

/// The value that a [`PathValue`] stands for.
pub struct PathValueView {
    pub nodes: Seq<NodeValueView>,
    pub rels: Seq<RelValueView>,
}

/// Values by name, in the order of the names.
#[derive(Debug)]
pub struct PropertyMap {
    pub entries: Vec<(String, Value)>,
}

/// The value that a [`PropertyMap`] stands for.
pub struct PropertyMapView {
    pub entries: Seq<(Seq<char>, ValueView)>,
}

#[derive(Debug)]
pub enum Value {
    Null,
    Bool(bool),
    Int(i64),
    /// The bit pattern of an IEEE-754 binary64 number.
    Float(u64),
    String(String),
    List(Vec<Value>),
    Mapping(PropertyMap),
    Node(NodeValue),
    Relationship(RelValue),
    Path(PathValue),
    /// A read-only carrier for a stored value the runtime does not model
    /// natively. The read adapter produces it so an untouched read-then-write
    /// round-trip recovers the original typed value instead of retyping it to
    /// a string; it is never produced by an expression. In every query
    /// semantic it is behaviourally identical to the string of its rendering.
    Stored(StoredValue),
}

/// The value that a [`Value`] stands for.
pub enum ValueView {
    Null,
    Bool(bool),
    Int(i64),
    Float(u64),
    String(Seq<char>),
    List(Seq<ValueView>),
    Mapping(PropertyMapView),
    Node(NodeValueView),
    Relationship(RelValueView),
    Path(PathValueView),
    Stored(StoredValueView),
}

/// A stored value of a type the runtime carries through: bytes and the four
/// temporal types.
#[derive(Debug, Clone, PartialEq, Eq)]
pub enum StoredValue {
    Bytes(Vec<u8>),
    Date { days: i64 },
    Time { nanos: i64 },
    DateTime { epoch_nanos: i64, offset_minutes: i64 },
    Duration { months: i64, days: i64, nanos: i64 },
}

/// The value that a [`StoredValue`] stands for.
pub enum StoredValueView {
    Bytes(Seq<u8>),
    Date { days: i64 },
    Time { nanos: i64 },
    DateTime { epoch_nanos: i64, offset_minutes: i64 },
    Duration { months: i64, days: i64, nanos: i64 },
}

impl EntityId {
    pub open spec fn view(&self) -> EntityIdView
    {
        EntityIdView {
            bytes: self.bytes@,
        }
    }

    /// A copy.
    pub fn dup(&self) -> (r: EntityId)
        ensures
            r@ == self@,
    {
        EntityId {
            bytes: dup_u8s(&self.bytes),
        }
    }
}

impl NodeValue {
    pub open spec fn view(&self) -> NodeValueView
        decreases self,
    {
        NodeValueView {
            id: self.id@,
            labels: text::strings_view(self.labels@),
            properties: self.properties@,
        }
    }

    /// A copy.
    pub fn dup(&self) -> (r: NodeValue)
        ensures
            r@ == self@,
        decreases self,
    {
        NodeValue {
            id: self.id.dup(),
            labels: text::dup_strings(&self.labels),
            properties: self.properties.dup(),
        }
    }
}

impl RelValue {
    pub open spec fn view(&self) -> RelValueView
        decreases self,
    {
        RelValueView {
            id: self.id@,
            rel_type: self.rel_type@,
            start: self.start@,
            end: self.end@,
            properties: self.properties@,
        }
    }

    /// A copy.
    pub fn dup(&self) -> (r: RelValue)
        ensures
            r@ == self@,
        decreases self,
    {
        RelValue {
            id: self.id.dup(),
            rel_type: self.rel_type.clone(),
            start: self.start.dup(),
            end: self.end.dup(),
            properties: self.properties.dup(),
        }
    }
}

impl PathValue {
    pub open spec fn view(&self) -> PathValueView
        decreases self,
    {
        PathValueView {
            nodes: node_values_view(self.nodes@),
            rels: rel_values_view(self.rels@),
        }
    }

    /// A copy.
    pub fn dup(&self) -> (r: PathValue)
        ensures
            r@ == self@,
        decreases self,
    {
        PathValue {
            nodes: dup_node_values(&self.nodes),
            rels: dup_rel_values(&self.rels),
        }
    }
}

impl PropertyMap {
    pub open spec fn view(&self) -> PropertyMapView
        decreases self,
    {
        PropertyMapView {
            entries: string_values_view(self.entries@),
        }
    }

    /// A copy.
    pub fn dup(&self) -> (r: PropertyMap)
        ensures
            r@ == self@,
        decreases self,
    {
        PropertyMap {
            entries: dup_string_values(&self.entries),
        }
    }
}

impl Value {
    pub open spec fn view(&self) -> ValueView
        decreases self,
    {
        match self {
            Value::Null => ValueView::Null,
            Value::Bool(x) => ValueView::Bool(*x),
            Value::Int(x) => ValueView::Int(*x),
            Value::Float(x) => ValueView::Float(*x),
            Value::String(x) => ValueView::String(x@),
            Value::List(x) => ValueView::List(values_view(x@)),
            Value::Mapping(x) => ValueView::Mapping(x@),
            Value::Node(x) => ValueView::Node(x@),
            Value::Relationship(x) => ValueView::Relationship(x@),
            Value::Path(x) => ValueView::Path(x@),
            Value::Stored(x) => ValueView::Stored(x@),
        }
    }

    /// A copy.
    pub fn dup(&self) -> (r: Value)
        ensures
            r@ == self@,
        decreases self,
    {
        match self {
            Value::Null => Value::Null,
            Value::Bool(x) => Value::Bool(*x),
            Value::Int(x) => Value::Int(*x),
            Value::Float(x) => Value::Float(*x),
            Value::String(x) => Value::String(x.clone()),
            Value::List(x) => Value::List(dup_values(x)),
            Value::Mapping(x) => Value::Mapping(x.dup()),
            Value::Node(x) => Value::Node(x.dup()),
            Value::Relationship(x) => Value::Relationship(x.dup()),
            Value::Path(x) => Value::Path(x.dup()),
            Value::Stored(x) => Value::Stored(x.dup()),
        }
    }
}

impl StoredValue {
    pub open spec fn view(&self) -> StoredValueView
    {
        match self {
            StoredValue::Bytes(x) => StoredValueView::Bytes(x@),
            StoredValue::Date { days } => StoredValueView::Date {
                days: *days,
            },
            StoredValue::Time { nanos } => StoredValueView::Time {
                nanos: *nanos,
            },
            StoredValue::DateTime { epoch_nanos, offset_minutes } => StoredValueView::DateTime {
                epoch_nanos: *epoch_nanos,
                offset_minutes: *offset_minutes,
            },
            StoredValue::Duration { months, days, nanos } => StoredValueView::Duration {
                months: *months,
                days: *days,
                nanos: *nanos,
            },
        }
    }

    /// A copy.
    pub fn dup(&self) -> (r: StoredValue)
        ensures
            r@ == self@,
    {
        match self {
            StoredValue::Bytes(x) => StoredValue::Bytes(dup_u8s(x)),
            StoredValue::Date { days } => StoredValue::Date {
                days: *days,
            },
            StoredValue::Time { nanos } => StoredValue::Time {
                nanos: *nanos,
            },
            StoredValue::DateTime { epoch_nanos, offset_minutes } => StoredValue::DateTime {
                epoch_nanos: *epoch_nanos,
                offset_minutes: *offset_minutes,
            },
            StoredValue::Duration { months, days, nanos } => StoredValue::Duration {
                months: *months,
                days: *days,
                nanos: *nanos,
            },
        }
    }
}

pub fn dup_u8s(v: &Vec<u8>) -> (r: Vec<u8>)
    ensures
        r@ == v@,
{
    let mut out: Vec<u8> = Vec::new();
    let mut i: usize = 0;
    while i < v.len()
        invariant
            i <= v.len(),
            out@.len() == i,
            forall|k: int| 0 <= k < i ==> out@[k] == #[trigger] v@[k],
        decreases v.len() - i,
    {
        out.push(v[i]);
        i += 1;
    }
    proof {
        assert(out@ =~= v@);
    }
    out
}

pub open spec fn node_values_view(v: Seq<NodeValue>) -> Seq<NodeValueView>
    decreases v,
{
    Seq::new(v.len(), |i: int| if 0 <= i < v.len() { v[i]@ } else { arbitrary() })
}

pub fn dup_node_values(v: &Vec<NodeValue>) -> (r: Vec<NodeValue>)
    ensures
        node_values_view(r@) == node_values_view(v@),
    decreases v,
{
    let mut out: Vec<NodeValue> = Vec::new();
    let mut i: usize = 0;
    while i < v.len()
        invariant
            i <= v.len(),
            out@.len() == i,
            forall|k: int| 0 <= k < i ==> node_values_view(out@)[k] == #[trigger] node_values_view(v@)[k],
        decreases v.len() - i,
    {
        proof {
            assert(decreases_to!(*v => v@[i as int]));
        }
        out.push(v[i].dup());
        i += 1;
    }
    proof {
        assert(node_values_view(out@) =~= node_values_view(v@));
    }
    out
}

pub open spec fn rel_values_view(v: Seq<RelValue>) -> Seq<RelValueView>
    decreases v,
{
    Seq::new(v.len(), |i: int| if 0 <= i < v.len() { v[i]@ } else { arbitrary() })
}

pub fn dup_rel_values(v: &Vec<RelValue>) -> (r: Vec<RelValue>)
    ensures
        rel_values_view(r@) == rel_values_view(v@),
    decreases v,
{
    let mut out: Vec<RelValue> = Vec::new();
    let mut i: usize = 0;
    while i < v.len()
        invariant
            i <= v.len(),
            out@.len() == i,
            forall|k: int| 0 <= k < i ==> rel_values_view(out@)[k] == #[trigger] rel_values_view(v@)[k],
        decreases v.len() - i,
    {
        proof {
            assert(decreases_to!(*v => v@[i as int]));
        }
        out.push(v[i].dup());
        i += 1;
    }
    proof {
        assert(rel_values_view(out@) =~= rel_values_view(v@));
    }
    out
}

pub open spec fn string_values_view(v: Seq<(String, Value)>) -> Seq<(Seq<char>, ValueView)>
    decreases v,
{
    Seq::new(v.len(), |i: int| if 0 <= i < v.len() { (v[i].0@, v[i].1@) } else { arbitrary() })
}

pub fn dup_string_values(v: &Vec<(String, Value)>) -> (r: Vec<(String, Value)>)
    ensures
        string_values_view(r@) == string_values_view(v@),
    decreases v,
{
    let mut out: Vec<(String, Value)> = Vec::new();
    let mut i: usize = 0;
    while i < v.len()
        invariant
            i <= v.len(),
            out@.len() == i,
            forall|k: int| 0 <= k < i ==> string_values_view(out@)[k] == #[trigger] string_values_view(v@)[k],
        decreases v.len() - i,
    {
        proof {
            assert(decreases_to!(*v => v@[i as int]));
        }
        out.push((v[i].0.clone(), v[i].1.dup()));
        i += 1;
    }
    proof {
        assert(string_values_view(out@) =~= string_values_view(v@));
    }
    out
}

pub open spec fn values_view(v: Seq<Value>) -> Seq<ValueView>
    decreases v,
{
    Seq::new(v.len(), |i: int| if 0 <= i < v.len() { v[i]@ } else { arbitrary() })
}

pub fn dup_values(v: &Vec<Value>) -> (r: Vec<Value>)
    ensures
        values_view(r@) == values_view(v@),
    decreases v,
{
    let mut out: Vec<Value> = Vec::new();
    let mut i: usize = 0;
    while i < v.len()
        invariant
            i <= v.len(),
            out@.len() == i,
            forall|k: int| 0 <= k < i ==> values_view(out@)[k] == #[trigger] values_view(v@)[k],
        decreases v.len() - i,
    {
        proof {
            assert(decreases_to!(*v => v@[i as int]));
        }
        out.push(v[i].dup());
        i += 1;
    }
    proof {
        assert(values_view(out@) =~= values_view(v@));
    }
    out
}

impl Clone for Value {
    fn clone(&self) -> (r: Self)
        ensures
            r@ == self@,
    {
        self.dup()
    }
}

impl Clone for NodeValue {
    fn clone(&self) -> (r: Self)
        ensures
            r@ == self@,
    {
        self.dup()
    }
}

impl Clone for RelValue {
    fn clone(&self) -> (r: Self)
        ensures
            r@ == self@,
    {
        self.dup()
    }
}

impl Clone for PathValue {
    fn clone(&self) -> (r: Self)
        ensures
            r@ == self@,
    {
        self.dup()
    }
}

impl Clone for PropertyMap {
    fn clone(&self) -> (r: Self)
        ensures
            r@ == self@,
    {
        self.dup()
    }
}

/// How two things are ordered.
#[derive(Debug, Clone, Copy, PartialEq, Eq, Structural)]
pub enum Order {
    Less,
    Equal,
    Greater,
}

impl Order {
    /// The order of the two the other way round.
    pub open spec fn flipped(self) -> Order {
        match self {
            Order::Less => Order::Greater,
            Order::Equal => Order::Equal,
            Order::Greater => Order::Less,
        }
    }

    /// The same order as the standard library has it.
    pub open spec fn standard(self) -> Ordering {
        match self {
            Order::Less => Ordering::Less,
            Order::Equal => Ordering::Equal,
            Order::Greater => Ordering::Greater,
        }
    }

    pub(crate) fn to_standard(self) -> (r: Ordering)
        ensures
            r == self.standard(),
    {
        match self {
            Order::Less => Ordering::Less,
            Order::Equal => Ordering::Equal,
            Order::Greater => Ordering::Greater,
        }
    }

    pub(crate) fn flip(self) -> (r: Order)
        ensures
            r == self.flipped(),
    {
        match self {
            Order::Less => Order::Greater,
            Order::Equal => Order::Equal,
            Order::Greater => Order::Less,
        }
    }
}

/// Ternary logic result.
pub type Ternary = Option<bool>;

// --- Text and byte order -----------------------------------------------------------------

pub open spec fn int_order(a: int, b: int) -> Order {
    if a < b {
        Order::Less
    } else if a == b {
        Order::Equal
    } else {
        Order::Greater
    }
}

/// The lexicographic order, by code points, of two texts that agree before
/// `i`.
pub open spec fn text_order_from(a: Seq<char>, b: Seq<char>, i: int) -> Order
    decreases a.len() - i,
{
    if i < 0 || i >= a.len() || i >= b.len() {
        int_order(a.len() as int, b.len() as int)
    } else if a[i] == b[i] {
        text_order_from(a, b, i + 1)
    } else if a[i] < b[i] {
        Order::Less
    } else {
        Order::Greater
    }
}

/// The lexicographic order of two texts.
pub open spec fn text_order(a: Seq<char>, b: Seq<char>) -> Order {
    text_order_from(a, b, 0)
}

/// The lexicographic order of two byte strings that agree before `i`.
pub open spec fn bytes_order_from(a: Seq<u8>, b: Seq<u8>, i: int) -> Order
    decreases a.len() - i,
{
    if i < 0 || i >= a.len() || i >= b.len() {
        int_order(a.len() as int, b.len() as int)
    } else if a[i] == b[i] {
        bytes_order_from(a, b, i + 1)
    } else {
        int_order(a[i] as int, b[i] as int)
    }
}

/// The lexicographic order of two byte strings.
pub open spec fn bytes_order(a: Seq<u8>, b: Seq<u8>) -> Order {
    bytes_order_from(a, b, 0)
}

/// The lexicographic order of two lists of byte strings that agree before `i`.
pub open spec fn ids_order_from(a: Seq<Seq<u8>>, b: Seq<Seq<u8>>, i: int) -> Order
    decreases a.len() - i,
{
    if i < 0 || i >= a.len() || i >= b.len() {
        int_order(a.len() as int, b.len() as int)
    } else if bytes_order(a[i], b[i]) == Order::Equal {
        ids_order_from(a, b, i + 1)
    } else {
        bytes_order(a[i], b[i])
    }
}

/// The lexicographic order of two lists of byte strings.
pub open spec fn ids_order(a: Seq<Seq<u8>>, b: Seq<Seq<u8>>) -> Order {
    ids_order_from(a, b, 0)
}

pub(crate) fn order_ints(a: i64, b: i64) -> (r: Order)
    ensures
        r == int_order(a as int, b as int),
{
    if a < b {
        Order::Less
    } else if a == b {
        Order::Equal
    } else {
        Order::Greater
    }
}

pub(crate) fn order_sizes(a: usize, b: usize) -> (r: Order)
    ensures
        r == int_order(a as int, b as int),
{
    if a < b {
        Order::Less
    } else if a == b {
        Order::Equal
    } else {
        Order::Greater
    }
}

/// The lexicographic order of two texts.
pub(crate) fn order_texts(a: &str, b: &str) -> (r: Order)
    ensures
        r == text_order(a@, b@),
{
    let x = text::chars_of(a);
    let y = text::chars_of(b);
    let mut i: usize = 0;
    while i < x.len() && i < y.len()
        invariant
            i <= x.len(),
            i <= y.len(),
            x@ == a@,
            y@ == b@,
            text_order(a@, b@) == text_order_from(a@, b@, i as int),
        decreases x.len() - i,
    {
        let c: char = x[i];
        let d: char = y[i];
        if c != d {
            return if c < d {
                Order::Less
            } else {
                Order::Greater
            };
        }
        i += 1;
    }
    order_sizes(x.len(), y.len())
}

/// The lexicographic order of two byte strings.
pub(crate) fn order_bytes(a: &Vec<u8>, b: &Vec<u8>) -> (r: Order)
    ensures
        r == bytes_order(a@, b@),
{
    let mut i: usize = 0;
    while i < a.len() && i < b.len()
        invariant
            i <= a.len(),
            i <= b.len(),
            bytes_order(a@, b@) == bytes_order_from(a@, b@, i as int),
        decreases a.len() - i,
    {
        if a[i] != b[i] {
            return if a[i] < b[i] {
                Order::Less
            } else {
                Order::Greater
            };
        }
        i += 1;
    }
    order_sizes(a.len(), b.len())
}

proof fn lemma_bytes_equal(a: Seq<u8>, b: Seq<u8>, i: int)
    requires
        0 <= i,
        i <= a.len() || i <= b.len(),
        forall|k: int| 0 <= k < i && k < a.len() && k < b.len() ==> a[k] == b[k],
    ensures
        bytes_order_from(a, b, i) == Order::Equal ==> a == b,
    decreases a.len() - i,
{
    if i >= a.len() || i >= b.len() {
        if a.len() == b.len() {
            assert(a =~= b);
        }
    } else if a[i] == b[i] {
        lemma_bytes_equal(a, b, i + 1);
    }
}

proof fn lemma_bytes_same(a: Seq<u8>, i: int)
    ensures
        bytes_order_from(a, a, i) == Order::Equal,
    decreases a.len() - i,
{
    if 0 <= i < a.len() {
        lemma_bytes_same(a, i + 1);
    }
}

/// Byte strings are equal in order exactly when they are equal.
pub proof fn lemma_bytes_order_equal(a: Seq<u8>, b: Seq<u8>)
    ensures
        bytes_order(a, b) == Order::Equal <==> a == b,
{
    lemma_bytes_equal(a, b, 0);
    lemma_bytes_same(a, 0);
}

impl EntityId {
    pub fn from_bytes(bytes: Vec<u8>) -> (r: Self)
        ensures
            r@.bytes == bytes@,
    {
        EntityId { bytes }
    }

    /// Whether two identities are the same.
    pub fn same(&self, other: &EntityId) -> (r: bool)
        ensures
            r == (self@ == other@),
    {
        proof {
            lemma_bytes_order_equal(self.bytes@, other.bytes@);
        }
        order_bytes(&self.bytes, &other.bytes) == Order::Equal
    }
}

// --- Stored values -------------------------------------------------------------------------

/// Lower-case hexadecimal, two digits a byte.
pub open spec fn hex_of(bytes: Seq<u8>) -> Seq<char>
    decreases bytes.len(),
{
    if bytes.len() == 0 {
        Seq::empty()
    } else {
        hex_of(bytes.drop_last()).push(text::hex_char((bytes.last() / 16) as nat)).push(
            text::hex_char((bytes.last() % 16) as nat),
        )
    }
}

fn hex(bytes: &Vec<u8>) -> (r: String)
    ensures
        r@ == hex_of(bytes@),
{
    let mut out = String::new();
    let mut i: usize = 0;
    proof {
        assert(bytes@.take(0) =~= Seq::<u8>::empty());
    }
    while i < bytes.len()
        invariant
            i <= bytes.len(),
            out@ == hex_of(bytes@.take(i as int)),
        decreases bytes.len() - i,
    {
        text::push_byte_hex(&mut out, bytes[i]);
        proof {
            assert(bytes@.take(i + 1).drop_last() =~= bytes@.take(i as int));
        }
        i += 1;
    }
    proof {
        assert(bytes@.take(i as int) =~= bytes@);
    }
    out
}

/// The frozen string form a stored value presents in every query semantic:
/// lower-case hex for bytes, a stable rendering of the fields for the
/// temporal types.
pub open spec fn stored_text(v: StoredValueView) -> Seq<char> {
    match v {
        StoredValueView::Bytes(bytes) => hex_of(bytes),
        StoredValueView::Date { days } => "Date(Date { days: "@ + text::signed_decimal(days as int)
            + " })"@,
        StoredValueView::Time { nanos } => "Time(Time { nanos: "@ + text::signed_decimal(nanos as int)
            + " })"@,
        StoredValueView::DateTime { epoch_nanos, offset_minutes } =>
            "DateTime(DateTime { epoch_nanos: "@ + text::signed_decimal(epoch_nanos as int)
            + ", offset_minutes: "@ + text::signed_decimal(offset_minutes as int) + " })"@,
        StoredValueView::Duration { months, days, nanos } => "Duration(Duration { months: "@
            + text::signed_decimal(months as int) + ", days: "@ + text::signed_decimal(days as int)
            + ", nanos: "@ + text::signed_decimal(nanos as int) + " })"@,
    }
}

/// Render a stored value as its frozen string form.
pub fn render_stored(v: &StoredValue) -> (r: String)
    ensures
        r@ == stored_text(v@),
{
    match v {
        StoredValue::Bytes(bytes) => hex(bytes),
        StoredValue::Date { days } => text::join3(
            "Date(Date { days: ",
            text::int_text(*days).as_str(),
            " })",
        ),
        StoredValue::Time { nanos } => text::join3(
            "Time(Time { nanos: ",
            text::int_text(*nanos).as_str(),
            " })",
        ),
        StoredValue::DateTime { epoch_nanos, offset_minutes } => {
            let head = text::join3(
                "DateTime(DateTime { epoch_nanos: ",
                text::int_text(*epoch_nanos).as_str(),
                ", offset_minutes: ",
            );
            text::join3(head.as_str(), text::int_text(*offset_minutes).as_str(), " })")
        },
        StoredValue::Duration { months, days, nanos } => {
            let head = text::join3(
                "Duration(Duration { months: ",
                text::int_text(*months).as_str(),
                ", days: ",
            );
            let middle = text::join3(head.as_str(), text::int_text(*days).as_str(), ", nanos: ");
            text::join3(middle.as_str(), text::int_text(*nanos).as_str(), " })")
        },
    }
}

} // verus!
