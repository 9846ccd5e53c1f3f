//! openCypher's three comparison regimes over runtime values.

use std::cmp::Ordering;

use vstd::prelude::*;

use crate::exec::exact;
use crate::exec::float;
use crate::exec::value::{self, Order, PathValue, PathValueView, Ternary, Value, ValueView};
use crate::text;

verus! {

/// The text a value presents as: a string is itself, a carrier its rendering.
pub open spec fn text_of_value(v: ValueView) -> Option<Seq<char>> {
    match v {
        ValueView::String(s) => Some(s),
        ValueView::Stored(m) => Some(value::stored_text(m)),
        _ => None,
    }
}

/// A value with a carrier replaced by the string it presents as.
pub open spec fn decayed(v: ValueView) -> ValueView {
    match v {
        ValueView::Stored(m) => ValueView::String(value::stored_text(m)),
        _ => v,
    }
}

pub open spec fn is_number(v: ValueView) -> bool {
    v is Int || v is Float
}

/// The float pattern a number compares as.
pub open spec fn number_bits(v: ValueView) -> u64 {
    match v {
        ValueView::Int(n) => float::of_int(n as int) as u64,
        ValueView::Float(x) => x,
        _ => 0,
    }
}

/// Ternary conjunction of equalities: false wins, then unknown.
pub open spec fn both_equal(a: Ternary, b: Ternary) -> Ternary {
    if a == Some(false) || b == Some(false) {
        Some(false)
    } else if a is None || b is None {
        None
    } else {
        Some(true)
    }
}

/// openCypher equality (`=`).
pub open spec fn equality(a: ValueView, b: ValueView) -> Ternary
    decreases a, 0nat,
{
    if a is Null || b is Null {
        None
    } else if text_of_value(a) is Some || text_of_value(b) is Some {
        Some(text_of_value(a) == text_of_value(b))
    } else {
        match (a, b) {
            (ValueView::Bool(x), ValueView::Bool(y)) => Some(x == y),
            (ValueView::Int(x), ValueView::Int(y)) => Some(x == y),
            (ValueView::List(xs), ValueView::List(ys)) => if xs.len() != ys.len() {
                Some(false)
            } else {
                all_equal(xs, ys, xs.len())
            },
            (ValueView::Mapping(x), ValueView::Mapping(y)) => if !same_keys(x.entries, y.entries) {
                Some(false)
            } else {
                all_entries_equal(x.entries, y.entries, x.entries.len())
            },
            (ValueView::Node(x), ValueView::Node(y)) => Some(x.id == y.id),
            (ValueView::Relationship(x), ValueView::Relationship(y)) => Some(x.id == y.id),
            (ValueView::Path(x), ValueView::Path(y)) => Some(same_path(x, y)),
            _ => if is_number(a) && is_number(b) {
                let (x, y) = (number_bits(a), number_bits(b));
                Some(
                    !float::is_nan(x) && !float::is_nan(y) && float::order_key(x) == float::order_key(y),
                )
            } else {
                Some(false)
            },
        }
    }
}

/// The equality of the first `n` elements.
pub open spec fn all_equal(xs: Seq<ValueView>, ys: Seq<ValueView>, n: nat) -> Ternary
    decreases xs, n,
{
    if n == 0 || n > xs.len() || n > ys.len() {
        Some(true)
    } else {
        both_equal(all_equal(xs, ys, (n - 1) as nat), equality(xs[n - 1], ys[n - 1]))
    }
}

/// The equality of the values of the first `n` entries.
pub open spec fn all_entries_equal(
    xs: Seq<(Seq<char>, ValueView)>,
    ys: Seq<(Seq<char>, ValueView)>,
    n: nat,
) -> Ternary
    decreases xs, n,
{
    if n == 0 || n > xs.len() || n > ys.len() {
        Some(true)
    } else {
        both_equal(
            all_entries_equal(xs, ys, (n - 1) as nat),
            equality(xs[n - 1].1, ys[n - 1].1),
        )
    }
}

/// Whether two maps have the same names.
pub open spec fn same_keys(
    xs: Seq<(Seq<char>, ValueView)>,
    ys: Seq<(Seq<char>, ValueView)>,
) -> bool {
    xs.len() == ys.len() && forall|i: int|
        0 <= i < xs.len() ==> (#[trigger] xs[i]).0 == ys[i].0
}

/// Whether two paths run over the same nodes and relationships.
pub open spec fn same_path(x: PathValueView, y: PathValueView) -> bool {
    &&& x.nodes.len() == y.nodes.len()
    &&& forall|i: int| 0 <= i < x.nodes.len() ==> (#[trigger] x.nodes[i]).id == y.nodes[i].id
    &&& forall|i: int|
        0 <= i < x.rels.len() && i < y.rels.len() ==> (#[trigger] x.rels[i]).id == y.rels[i].id
}

/// The order of two numbers neither of which is NaN.
pub open spec fn key_order(x: u64, y: u64) -> Order {
    value::int_order(float::order_key(x), float::order_key(y))
}

pub open spec fn bool_order(x: bool, y: bool) -> Order {
    if x == y {
        Order::Equal
    } else if !x {
        Order::Less
    } else {
        Order::Greater
    }
}

/// openCypher ordering comparison (`<` and friends): only mutually comparable
/// values order.
pub open spec fn comparison(a: ValueView, b: ValueView) -> Option<Order>
    decreases a, 0nat,
{
    if text_of_value(a) is Some && text_of_value(b) is Some {
        Some(value::text_order(text_of_value(a)->0, text_of_value(b)->0))
    } else {
        match (a, b) {
            (ValueView::Int(x), ValueView::Int(y)) => Some(value::int_order(x as int, y as int)),
            (ValueView::Bool(x), ValueView::Bool(y)) => Some(bool_order(x, y)),
            (ValueView::List(xs), ValueView::List(ys)) => list_comparison(xs, ys, 0),
            _ => if is_number(a) && is_number(b) {
                let (x, y) = (number_bits(a), number_bits(b));
                if float::is_nan(x) || float::is_nan(y) {
                    None
                } else {
                    Some(key_order(x, y))
                }
            } else {
                None
            },
        }
    }
}

/// The comparison of two lists that agree before `i`.
pub open spec fn list_comparison(xs: Seq<ValueView>, ys: Seq<ValueView>, i: int) -> Option<Order>
    decreases xs, xs.len() - i,
{
    if i < 0 || i >= xs.len() || i >= ys.len() {
        Some(value::int_order(xs.len() as int, ys.len() as int))
    } else {
        match comparison(xs[i], ys[i]) {
            Some(Order::Equal) => list_comparison(xs, ys, i + 1),
            other => other,
        }
    }
}

/// The place of a value's type in the global sort order.
pub open spec fn type_rank(v: ValueView) -> int {
    match v {
        ValueView::Mapping(_) => 0,
        ValueView::Node(_) => 1,
        ValueView::Relationship(_) => 2,
        ValueView::List(_) => 3,
        ValueView::Path(_) => 4,
        ValueView::String(_) => 5,
        ValueView::Bool(_) => 6,
        ValueView::Int(_) => 7,
        ValueView::Float(_) => 7,
        ValueView::Null => 8,
        ValueView::Stored(_) => 5,
    }
}

/// The identities along a path: its nodes, then its relationships.
pub open spec fn path_ids(p: PathValueView) -> Seq<Seq<u8>> {
    Seq::new(
        p.nodes.len() + p.rels.len(),
        |i: int|
            if i < p.nodes.len() {
                p.nodes[i].id.bytes
            } else {
                p.rels[i - p.nodes.len()].id.bytes
            },
    )
}

/// The global sort order: maps, nodes, relationships, lists, paths, strings,
/// booleans, numbers and null, one after the other; null greatest; NaN after
/// all other numbers. Numbers go by their exact values, integers and
/// floating-point numbers alike, so that the order is total.
pub open spec fn sort_order(a: ValueView, b: ValueView) -> Order
    decreases a, 0nat,
{
    if text_of_value(a) is Some && text_of_value(b) is Some {
        value::text_order(text_of_value(a)->0, text_of_value(b)->0)
    } else {
        match (a, b) {
            (ValueView::Bool(x), ValueView::Bool(y)) => bool_order(x, y),
            (ValueView::List(xs), ValueView::List(ys)) => list_order(xs, ys, 0),
            (ValueView::Mapping(x), ValueView::Mapping(y)) => match names_order(
                x.entries,
                y.entries,
                0,
            ) {
                Order::Equal => entries_order(x.entries, y.entries, 0),
                other => other,
            },
            (ValueView::Node(x), ValueView::Node(y)) => value::bytes_order(x.id.bytes, y.id.bytes),
            (ValueView::Relationship(x), ValueView::Relationship(y)) => value::bytes_order(
                x.id.bytes,
                y.id.bytes,
            ),
            (ValueView::Path(x), ValueView::Path(y)) => value::ids_order(path_ids(x), path_ids(y)),
            _ => if is_number(a) && is_number(b) {
                exact::numbers_order(a, b)
            } else {
                value::int_order(type_rank(a), type_rank(b))
            },
        }
    }
}

/// The order of two lists that agree before `i`.
pub open spec fn list_order(xs: Seq<ValueView>, ys: Seq<ValueView>, i: int) -> Order
    decreases xs, xs.len() - i,
{
    if i < 0 || i >= xs.len() || i >= ys.len() {
        value::int_order(xs.len() as int, ys.len() as int)
    } else {
        match sort_order(xs[i], ys[i]) {
            Order::Equal => list_order(xs, ys, i + 1),
            other => other,
        }
    }
}

/// The order of the names of two maps that agree before `i`.
pub open spec fn names_order(
    xs: Seq<(Seq<char>, ValueView)>,
    ys: Seq<(Seq<char>, ValueView)>,
    i: int,
) -> Order
    decreases xs.len() - i,
{
    if i < 0 || i >= xs.len() || i >= ys.len() {
        value::int_order(xs.len() as int, ys.len() as int)
    } else {
        match value::text_order(xs[i].0, ys[i].0) {
            Order::Equal => names_order(xs, ys, i + 1),
            other => other,
        }
    }
}

/// The order of the values of two maps of the same names that agree before
/// `i`.
pub open spec fn entries_order(
    xs: Seq<(Seq<char>, ValueView)>,
    ys: Seq<(Seq<char>, ValueView)>,
    i: int,
) -> Order
    decreases xs, xs.len() - i,
{
    if i < 0 || i >= xs.len() || i >= ys.len() {
        Order::Equal
    } else {
        match sort_order(xs[i].1, ys[i].1) {
            Order::Equal => entries_order(xs, ys, i + 1),
            other => other,
        }
    }
}

// --- Execution -------------------------------------------------------------------------------

fn number_pattern(v: &Value) -> (r: u64)
    requires
        is_number(v@),
    ensures
        r == number_bits(v@),
{
    match v {
        Value::Int(n) => float::from_int(*n),
        Value::Float(x) => *x,
        _ => 0,
    }
}

fn numeric(v: &Value) -> (r: bool)
    ensures
        r == is_number(v@),
{
    matches!(v, Value::Int(_) | Value::Float(_))
}

/// The text a string or a carrier presents as.
fn text_value(v: &Value) -> (r: Option<String>)
    ensures
        text_of_value(v@) == match r {
            Some(s) => Some(s@),
            None => None,
        },
{
    match v {
        Value::String(s) => Some(s.clone()),
        Value::Stored(m) => Some(value::render_stored(m)),
        _ => None,
    }
}

fn join_equalities(a: Ternary, b: Ternary) -> (r: Ternary)
    ensures
        r == both_equal(a, b),
{
    match (a, b) {
        (Some(false), _) => Some(false),
        (_, Some(false)) => Some(false),
        (None, _) => None,
        (_, None) => None,
        _ => Some(true),
    }
}

fn equal_names(xs: &Vec<(String, Value)>, ys: &Vec<(String, Value)>) -> (r: bool)
    ensures
        r == same_keys(value::string_values_view(xs@), value::string_values_view(ys@)),
{
    let ghost a = value::string_values_view(xs@);
    let ghost b = value::string_values_view(ys@);
    if xs.len() != ys.len() {
        return false;
    }
    let mut i: usize = 0;
    while i < xs.len()
        invariant
            i <= xs.len(),
            xs.len() == ys.len(),
            a == value::string_values_view(xs@),
            b == value::string_values_view(ys@),
            forall|k: int| 0 <= k < i ==> (#[trigger] a[k]).0 == b[k].0,
        decreases xs.len() - i,
    {
        if !text::str_eq(xs[i].0.as_str(), ys[i].0.as_str()) {
            assert(a[i as int].0 != b[i as int].0);
            return false;
        }
        i += 1;
    }
    true
}

fn paths_agree(x: &PathValue, y: &PathValue) -> (r: bool)
    ensures
        r == same_path(x@, y@),
{
    if x.nodes.len() != y.nodes.len() {
        return false;
    }
    let mut i: usize = 0;
    while i < x.nodes.len()
        invariant
            i <= x.nodes.len(),
            x.nodes.len() == y.nodes.len(),
            forall|k: int| 0 <= k < i ==> (#[trigger] x@.nodes[k]).id == y@.nodes[k].id,
        decreases x.nodes.len() - i,
    {
        if !x.nodes[i].id.same(&y.nodes[i].id) {
            assert(x@.nodes[i as int].id != y@.nodes[i as int].id);
            return false;
        }
        i += 1;
    }
    let mut j: usize = 0;
    while j < x.rels.len() && j < y.rels.len()
        invariant
            j <= x.rels.len(),
            j <= y.rels.len(),
            x.nodes.len() == y.nodes.len(),
            forall|k: int|
                0 <= k < x@.nodes.len() ==> (#[trigger] x@.nodes[k]).id == y@.nodes[k].id,
            forall|k: int| 0 <= k < j ==> (#[trigger] x@.rels[k]).id == y@.rels[k].id,
        decreases x.rels.len() - j,
    {
        if !x.rels[j].id.same(&y.rels[j].id) {
            assert(x@.rels[j as int].id != y@.rels[j as int].id);
            return false;
        }
        j += 1;
    }
    true
}

impl Value {
    /// openCypher equality (`=`): ternary.
    pub fn eq3(&self, other: &Value) -> (r: Ternary)
        ensures
            r == equality(self@, other@),
        decreases self,
    {
        if matches!(self, Value::Null) || matches!(other, Value::Null) {
            return None;
        }
        match (text_value(self), text_value(other)) {
            (Some(x), Some(y)) => {
                return Some(text::str_eq(x.as_str(), y.as_str()));
            },
            (Some(_), None) => {
                return Some(false);
            },
            (None, Some(_)) => {
                return Some(false);
            },
            (None, None) => {},
        }
        match (self, other) {
            (Value::Bool(x), Value::Bool(y)) => Some(*x == *y),
            (Value::Int(x), Value::Int(y)) => Some(*x == *y),
            (Value::List(xs), Value::List(ys)) => {
                if xs.len() != ys.len() {
                    return Some(false);
                }
                let mut seen: Ternary = Some(true);
                let mut i: usize = 0;
                while i < xs.len()
                    invariant
                        i <= xs.len(),
                        xs.len() == ys.len(),
                        self is List,
                        *xs == self->List_0,
                        seen == all_equal(
                            value::values_view(xs@),
                            value::values_view(ys@),
                            i as nat,
                        ),
                    decreases xs.len() - i,
                {
                    proof {
                        assert(decreases_to!(*self => self->List_0@[i as int]));
                    }
                    seen = join_equalities(seen, xs[i].eq3(&ys[i]));
                    i += 1;
                }
                seen
            },
            (Value::Mapping(x), Value::Mapping(y)) => {
                let xs = &x.entries;
                let ys = &y.entries;
                if !equal_names(xs, ys) {
                    return Some(false);
                }
                let mut seen: Ternary = Some(true);
                let mut i: usize = 0;
                while i < xs.len()
                    invariant
                        i <= xs.len(),
                        xs.len() == ys.len(),
                        self is Mapping,
                        *xs == self->Mapping_0.entries,
                        seen == all_entries_equal(
                            value::string_values_view(xs@),
                            value::string_values_view(ys@),
                            i as nat,
                        ),
                    decreases xs.len() - i,
                {
                    proof {
                        assert(decreases_to!(*self => self->Mapping_0.entries@[i as int].1));
                    }
                    seen = join_equalities(seen, xs[i].1.eq3(&ys[i].1));
                    i += 1;
                }
                seen
            },
            (Value::Node(x), Value::Node(y)) => Some(x.id.same(&y.id)),
            (Value::Relationship(x), Value::Relationship(y)) => Some(x.id.same(&y.id)),
            (Value::Path(x), Value::Path(y)) => Some(paths_agree(x, y)),
            _ => if numeric(self) && numeric(other) {
                let x: u64 = number_pattern(self);
                let y: u64 = number_pattern(other);
                Some(!float::nan(x) && !float::nan(y) && !float::below(x, y) && !float::below(y, x))
            } else {
                Some(false)
            },
        }
    }
}

fn order_bools(x: bool, y: bool) -> (r: Order)
    ensures
        r == bool_order(x, y),
{
    if x == y {
        Order::Equal
    } else if !x {
        Order::Less
    } else {
        Order::Greater
    }
}

fn order_keys(x: u64, y: u64) -> (r: Order)
    ensures
        r == key_order(x, y),
{
    if float::below(x, y) {
        Order::Less
    } else if float::below(y, x) {
        Order::Greater
    } else {
        Order::Equal
    }
}

fn order_ranks(a: u8, b: u8) -> (r: Order)
    ensures
        r == value::int_order(a as int, b as int),
{
    if a < b {
        Order::Less
    } else if a == b {
        Order::Equal
    } else {
        Order::Greater
    }
}

fn rank(v: &Value) -> (r: u8)
    ensures
        r == type_rank(v@),
{
    match v {
        Value::Mapping(_) => 0,
        Value::Node(_) => 1,
        Value::Relationship(_) => 2,
        Value::List(_) => 3,
        Value::Path(_) => 4,
        Value::String(_) => 5,
        Value::Bool(_) => 6,
        Value::Int(_) => 7,
        Value::Float(_) => 7,
        Value::Null => 8,
        Value::Stored(_) => 5,
    }
}

fn order_of_names(xs: &Vec<(String, Value)>, ys: &Vec<(String, Value)>) -> (r: Order)
    ensures
        r == names_order(value::string_values_view(xs@), value::string_values_view(ys@), 0),
{
    let mut i: usize = 0;
    while i < xs.len() && i < ys.len()
        invariant
            i <= xs.len(),
            i <= ys.len(),
            names_order(value::string_values_view(xs@), value::string_values_view(ys@), 0) == names_order(
                value::string_values_view(xs@),
                value::string_values_view(ys@),
                i as int,
            ),
        decreases xs.len() - i,
    {
        match value::order_texts(xs[i].0.as_str(), ys[i].0.as_str()) {
            Order::Equal => {},
            other => {
                return other;
            },
        }
        i += 1;
    }
    value::order_sizes(xs.len(), ys.len())
}

fn path_id<'a>(p: &'a PathValue, i: u128) -> (r: &'a Vec<u8>)
    requires
        i < path_ids(p@).len(),
    ensures
        r@ == path_ids(p@)[i as int],
{
    let nodes: u128 = p.nodes.len() as u128;
    if i < nodes {
        let at: usize = i as usize;
        &p.nodes[at].id.bytes
    } else {
        let rels: usize = p.rels.len();
        assert(i - nodes < rels);
        let at: usize = (i - nodes) as usize;
        &p.rels[at].id.bytes
    }
}

fn order_paths(x: &PathValue, y: &PathValue) -> (r: Order)
    ensures
        r == value::ids_order(path_ids(x@), path_ids(y@)),
{
    let m: u128 = x.nodes.len() as u128 + x.rels.len() as u128;
    let n: u128 = y.nodes.len() as u128 + y.rels.len() as u128;
    let mut i: u128 = 0;
    while i < m && i < n
        invariant
            i <= m,
            i <= n,
            m == path_ids(x@).len(),
            n == path_ids(y@).len(),
            value::ids_order(path_ids(x@), path_ids(y@)) == value::ids_order_from(
                path_ids(x@),
                path_ids(y@),
                i as int,
            ),
        decreases m - i,
    {
        match value::order_bytes(path_id(x, i), path_id(y, i)) {
            Order::Equal => {},
            other => {
                return other;
            },
        }
        i += 1;
    }
    if m < n {
        Order::Less
    } else if m == n {
        Order::Equal
    } else {
        Order::Greater
    }
}

impl Value {
    /// openCypher ordering comparison, as an [`Order`].
    pub(crate) fn order3(&self, other: &Value) -> (r: Option<Order>)
        ensures
            r == comparison(self@, other@),
        decreases self,
    {
        if let (Some(x), Some(y)) = (text_value(self), text_value(other)) {
            return Some(value::order_texts(x.as_str(), y.as_str()));
        }
        match (self, other) {
            (Value::Int(x), Value::Int(y)) => Some(value::order_ints(*x, *y)),
            (Value::Bool(x), Value::Bool(y)) => Some(order_bools(*x, *y)),
            (Value::List(xs), Value::List(ys)) => {
                let mut i: usize = 0;
                while i < xs.len() && i < ys.len()
                    invariant
                        i <= xs.len(),
                        i <= ys.len(),
                        self is List,
                        *xs == self->List_0,
                        list_comparison(value::values_view(xs@), value::values_view(ys@), 0) == list_comparison(
                            value::values_view(xs@),
                            value::values_view(ys@),
                            i as int,
                        ),
                        comparison(self@, other@) == list_comparison(
                            value::values_view(xs@),
                            value::values_view(ys@),
                            0,
                        ),
                    decreases xs.len() - i,
                {
                    proof {
                        assert(decreases_to!(*self => self->List_0@[i as int]));
                    }
                    match xs[i].order3(&ys[i]) {
                        Some(Order::Equal) => {},
                        unequal => {
                            return unequal;
                        },
                    }
                    i += 1;
                }
                Some(value::order_sizes(xs.len(), ys.len()))
            },
            _ => if numeric(self) && numeric(other) {
                let x: u64 = number_pattern(self);
                let y: u64 = number_pattern(other);
                if float::nan(x) || float::nan(y) {
                    None
                } else {
                    Some(order_keys(x, y))
                }
            } else {
                None
            },
        }
    }

    /// The global sort order, as an [`Order`].
    pub(crate) fn sorted_against(&self, other: &Value) -> (r: Order)
        ensures
            r == sort_order(self@, other@),
        decreases self,
    {
        if let (Some(x), Some(y)) = (text_value(self), text_value(other)) {
            return value::order_texts(x.as_str(), y.as_str());
        }
        match (self, other) {
            (Value::Bool(x), Value::Bool(y)) => order_bools(*x, *y),
            (Value::List(xs), Value::List(ys)) => {
                let mut i: usize = 0;
                while i < xs.len() && i < ys.len()
                    invariant
                        i <= xs.len(),
                        i <= ys.len(),
                        self is List,
                        *xs == self->List_0,
                        list_order(value::values_view(xs@), value::values_view(ys@), 0) == list_order(
                            value::values_view(xs@),
                            value::values_view(ys@),
                            i as int,
                        ),
                        sort_order(self@, other@) == list_order(
                            value::values_view(xs@),
                            value::values_view(ys@),
                            0,
                        ),
                    decreases xs.len() - i,
                {
                    proof {
                        assert(decreases_to!(*self => self->List_0@[i as int]));
                    }
                    match xs[i].sorted_against(&ys[i]) {
                        Order::Equal => {},
                        unequal => {
                            return unequal;
                        },
                    }
                    i += 1;
                }
                value::order_sizes(xs.len(), ys.len())
            },
            (Value::Mapping(x), Value::Mapping(y)) => {
                let xs = &x.entries;
                let ys = &y.entries;
                match order_of_names(xs, ys) {
                    Order::Equal => {},
                    unequal => {
                        return unequal;
                    },
                }
                let mut i: usize = 0;
                while i < xs.len() && i < ys.len()
                    invariant
                        i <= xs.len(),
                        i <= ys.len(),
                        self is Mapping,
                        *xs == self->Mapping_0.entries,
                        entries_order(
                            value::string_values_view(xs@),
                            value::string_values_view(ys@),
                            0,
                        )
                            == entries_order(
                            value::string_values_view(xs@),
                            value::string_values_view(ys@),
                            i as int,
                        ),
                        sort_order(self@, other@) == entries_order(
                            value::string_values_view(xs@),
                            value::string_values_view(ys@),
                            0,
                        ),
                    decreases xs.len() - i,
                {
                    proof {
                        assert(decreases_to!(*self => self->Mapping_0.entries@[i as int].1));
                    }
                    match xs[i].1.sorted_against(&ys[i].1) {
                        Order::Equal => {},
                        unequal => {
                            return unequal;
                        },
                    }
                    i += 1;
                }
                Order::Equal
            },
            (Value::Node(x), Value::Node(y)) => value::order_bytes(&x.id.bytes, &y.id.bytes),
            (Value::Relationship(x), Value::Relationship(y)) => value::order_bytes(
                &x.id.bytes,
                &y.id.bytes,
            ),
            (Value::Path(x), Value::Path(y)) => order_paths(x, y),
            _ => if numeric(self) && numeric(other) {
                exact::order_numbers(self, other)
            } else {
                order_ranks(rank(self), rank(other))
            },
        }
    }

    /// openCypher ordering comparison (`<` and friends): ternary. Only
    /// mutually comparable values order: numbers with numbers, strings with
    /// strings, booleans with booleans, lists with lists.
    pub fn cmp3(&self, other: &Value) -> (r: Option<Ordering>)
        ensures
            r == match comparison(self@, other@) {
                Some(order) => Some(order.standard()),
                None => None,
            },
    {
        match self.order3(other) {
            Some(order) => Some(order.to_standard()),
            None => None,
        }
    }

    /// The global sort order (ORDER BY): total over all values.
    pub fn global_cmp(&self, other: &Value) -> (r: Ordering)
        ensures
            r == sort_order(self@, other@).standard(),
    {
        self.sorted_against(other).to_standard()
    }

    /// Equivalence for DISTINCT and grouping: global order equality (null is
    /// equivalent to null, NaN to NaN).
    pub fn equivalent(&self, other: &Value) -> (r: bool)
        ensures
            r == (sort_order(self@, other@) == Order::Equal),
    {
        self.sorted_against(other) == Order::Equal
    }
}

} // verus!
