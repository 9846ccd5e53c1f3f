//! Seeks: which stored values a pinned value could equal, and which values lie
//! between bounds.
//!
//! A seek returns candidates that the caller still filters, so selecting too
//! much is safe and selecting too little is not: where a pin's probes may be
//! incomplete, the seek declines and the caller scans.

use vstd::prelude::*;
use vstd::string::*;

use crate::exec::compare;
use crate::exec::float;
use crate::exec::records::{self, ModelValue, ModelValueView};
use crate::exec::value::{self, Order, StoredValue, Value, ValueView};
use crate::text;

verus! {

/// The pattern of 2^53: integers are exact as floating-point numbers below it.
pub const EXACT_LIMIT: u64 = 0x4340_0000_0000_0000;

/// How many combinations of probes a seek tries at most.
pub const MAX_PROBES: usize = 16;

// --- Index values -----------------------------------------------------------------------------------

/// Whether NaN stands anywhere in a stored value.
pub open spec fn holds_nan(v: ModelValueView) -> bool
    decreases v, 0nat,
{
    match v {
        ModelValueView::Float(x) => float::is_nan(x),
        ModelValueView::List(items) => items_hold_nan(items, items.len()),
        _ => false,
    }
}

/// Whether NaN stands anywhere in the first `n` items.
pub open spec fn items_hold_nan(items: Seq<ModelValueView>, n: nat) -> bool
    decreases items, n,
{
    if n == 0 || n > items.len() {
        false
    } else {
        items_hold_nan(items, (n - 1) as nat) || holds_nan(items[n - 1])
    }
}

/// The one pattern of zero.
pub open spec fn one_zero(x: u64) -> u64 {
    if float::magnitude(x) == 0 {
        0
    } else {
        x
    }
}

/// The value under which a runtime value stands in an index. Indexes are blind
/// to null and NaN; the two zeros are one.
pub open spec fn index_value(v: ValueView) -> Option<ModelValueView> {
    match records::indexed_as(v, 0) {
        None => None,
        Some(ModelValueView::Null) => None,
        Some(ModelValueView::Float(x)) => if float::is_nan(x) {
            None
        } else {
            Some(ModelValueView::Float(one_zero(x)))
        },
        Some(m) => if holds_nan(m) {
            None
        } else {
            Some(m)
        },
    }
}

fn contains_nan(v: &ModelValue) -> (r: bool)
    ensures
        r == holds_nan(v@),
    decreases v,
{
    match v {
        ModelValue::Float(x) => float::nan(*x),
        ModelValue::List(items) => {
            let ghost all = records::model_values_view(items@);
            let mut found_one = false;
            let mut i: usize = 0;
            while i < items.len()
                invariant
                    i <= items.len(),
                    v is List,
                    *items == v->List_0,
                    all == records::model_values_view(items@),
                    found_one == items_hold_nan(all, i as nat),
                decreases items.len() - i,
            {
                assert(decreases_to!(*v => v->List_0@[i as int]));
                assert(all[i as int] == items@[i as int]@);
                if contains_nan(&items[i]) {
                    found_one = true;
                }
                i += 1;
            }
            found_one
        },
        _ => false,
    }
}

fn unite_zero(x: u64) -> (r: u64)
    ensures
        r == one_zero(x),
{
    if float::absolute(x) == 0 {
        0
    } else {
        x
    }
}

/// The value under which a runtime value stands in an index.
pub(crate) fn encode_index_value(v: &Value) -> (r: Option<ModelValue>)
    ensures
        index_value(v@) == match r {
            Some(m) => Some(m@),
            None => None,
        },
{
    match records::model_value_of(v) {
        None => None,
        Some(ModelValue::Null) => None,
        Some(ModelValue::Float(x)) => if float::nan(x) {
            None
        } else {
            Some(ModelValue::Float(unite_zero(x)))
        },
        Some(m) => if contains_nan(&m) {
            None
        } else {
            Some(m)
        },
    }
}

pub(crate) fn same_model(a: &ModelValue, b: &ModelValue) -> (r: bool)
    ensures
        r == (a@ == b@),
    decreases a,
{
    match (a, b) {
        (ModelValue::Null, ModelValue::Null) => true,
        (ModelValue::Bool(x), ModelValue::Bool(y)) => *x == *y,
        (ModelValue::Int(x), ModelValue::Int(y)) => *x == *y,
        (ModelValue::Float(x), ModelValue::Float(y)) => *x == *y,
        (ModelValue::String(x), ModelValue::String(y)) => text::str_eq(x.as_str(), y.as_str()),
        (ModelValue::List(x), ModelValue::List(y)) => same_models(x, y),
        (ModelValue::Deferred(x), ModelValue::Deferred(y)) => same_stored(x, y),
        _ => false,
    }
}

fn same_stored(a: &StoredValue, b: &StoredValue) -> (r: bool)
    ensures
        r == (a@ == b@),
{
    match (a, b) {
        (StoredValue::Bytes(x), StoredValue::Bytes(y)) => same_bytes(x, y),
        (StoredValue::Date { days: x }, StoredValue::Date { days: y }) => *x == *y,
        (StoredValue::Time { nanos: x }, StoredValue::Time { nanos: y }) => *x == *y,
        (
            StoredValue::DateTime { epoch_nanos: x, offset_minutes: v },
            StoredValue::DateTime { epoch_nanos: y, offset_minutes: w },
        ) => *x == *y && *v == *w,
        (
            StoredValue::Duration { months: x, days: v, nanos: p },
            StoredValue::Duration { months: y, days: w, nanos: q },
        ) => *x == *y && *v == *w && *p == *q,
        _ => false,
    }
}

fn same_bytes(a: &Vec<u8>, b: &Vec<u8>) -> (r: bool)
    ensures
        r == (a@ == b@),
{
    if a.len() != b.len() {
        return false;
    }
    let mut i: usize = 0;
    while i < a.len()
        invariant
            i <= a.len(),
            a@.len() == b@.len(),
            forall|k: int| 0 <= k < i ==> a@[k] == b@[k],
        decreases a.len() - i,
    {
        if a[i] != b[i] {
            return false;
        }
        i += 1;
    }
    assert(a@ =~= b@);
    true
}

/// Whether two tuples of stored values are the same.
pub(crate) fn same_models(a: &Vec<ModelValue>, b: &Vec<ModelValue>) -> (r: bool)
    ensures
        r == (records::model_values_view(a@) == records::model_values_view(b@)),
    decreases a,
{
    let ghost x = records::model_values_view(a@);
    let ghost y = records::model_values_view(b@);
    assert(x.len() == a@.len());
    assert(y.len() == b@.len());
    if a.len() != b.len() {
        return false;
    }
    let mut i: usize = 0;
    while i < a.len()
        invariant
            i <= a.len(),
            a@.len() == b@.len(),
            x == records::model_values_view(a@),
            y == records::model_values_view(b@),
            forall|k: int| 0 <= k < i ==> x[k] == y[k],
        decreases a.len() - i,
    {
        assert(decreases_to!(*a => a@[i as int]));
        assert(x[i as int] == a@[i as int]@);
        assert(y[i as int] == b@[i as int]@);
        if !same_model(&a[i], &b[i]) {
            return false;
        }
        i += 1;
    }
    assert(x =~= y);
    true
}

// --- Probes -----------------------------------------------------------------------------------------

/// Whether the probes of a pin may be incomplete: many integers compare equal to
/// a floating-point integer at or beyond 2^53, and lists compare element by
/// element across types.
pub open spec fn incomplete(v: ValueView) -> bool {
    match v {
        ValueView::List(_) => true,
        ValueView::Float(x) => !float::is_nan(x) && !float::is_infinite(x) && float::is_whole(x) && float::magnitude(x)
            >= EXACT_LIMIT,
        _ => false,
    }
}

fn probe_set_incomplete(v: &Value) -> (r: bool)
    ensures
        r == incomplete(v@),
{
    match v {
        Value::List(_) => true,
        Value::Float(x) => !float::nan(*x) && !float::infinite(*x) && float::integral(*x) && float::absolute(*x) >= EXACT_LIMIT,
        _ => false,
    }
}

/// The index values that could equal a pin. A number matches its own type and
/// the other numeric type; everything else only its own value.
pub open spec fn lookup_keys(v: ValueView) -> Seq<ModelValueView> {
    match v {
        ValueView::Int(n) => seq![
            ModelValueView::Int(n),
            ModelValueView::Float(one_zero(float::of_int(n as int) as u64)),
        ],
        ValueView::Float(x) => if float::is_nan(x) {
            seq![]
        } else if !float::is_infinite(x) && float::is_whole(x) {
            seq![
                ModelValueView::Float(one_zero(x)),
                ModelValueView::Int(float::to_int(x) as i64),
            ]
        } else {
            seq![ModelValueView::Float(one_zero(x))]
        },
        _ => match index_value(v) {
            Some(m) => seq![m],
            None => seq![],
        },
    }
}

fn index_lookup_keys(v: &Value) -> (r: Vec<ModelValue>)
    ensures
        records::model_values_view(r@) == lookup_keys(v@),
{
    let mut out: Vec<ModelValue> = Vec::new();
    match v {
        Value::Int(n) => {
            out.push(ModelValue::Int(*n));
            out.push(ModelValue::Float(unite_zero(float::from_int(*n))));
        },
        Value::Float(x) => {
            if !float::nan(*x) {
                out.push(ModelValue::Float(unite_zero(*x)));
                if !float::infinite(*x) && float::integral(*x) {
                    out.push(ModelValue::Int(float::truncate(*x)));
                }
            }
        },
        _ => {
            if let Some(m) = encode_index_value(v) {
                out.push(m);
            }
        },
    }
    assert(records::model_values_view(out@) =~= lookup_keys(v@));
    out
}

/// Each of `prefixes` with each of `ends` behind it, in order.
pub open spec fn extended_by(
    prefixes: Seq<Seq<ModelValueView>>,
    n: nat,
    ends: Seq<ModelValueView>,
) -> Seq<Seq<ModelValueView>>
    decreases n,
{
    if n == 0 || n > prefixes.len() {
        seq![]
    } else {
        extended_by(prefixes, (n - 1) as nat, ends) + Seq::new(
            ends.len(),
            |j: int| prefixes[n - 1].push(ends[j]),
        )
    }
}

/// Every tuple that takes one of the lookup keys of each of the first `n` pins.
pub open spec fn combinations(values: Seq<ValueView>, n: nat) -> Seq<Seq<ModelValueView>>
    decreases n,
{
    if n == 0 || n > values.len() {
        seq![seq![]]
    } else {
        let before = combinations(values, (n - 1) as nat);
        extended_by(before, before.len(), lookup_keys(values[n - 1]))
    }
}

/// Whether the probes of one of the first `n` pins may be incomplete.
pub open spec fn any_incomplete(values: Seq<ValueView>, n: nat) -> bool
    decreases n,
{
    if n == 0 || n > values.len() {
        false
    } else {
        any_incomplete(values, (n - 1) as nat) || incomplete(values[n - 1])
    }
}

/// Whether the first `n` pins have more combinations than a seek tries, before
/// any of them has no key.
pub open spec fn too_many(values: Seq<ValueView>, n: nat) -> bool
    decreases n,
{
    if n == 0 || n > values.len() {
        false
    } else {
        too_many(values, (n - 1) as nat) || combinations(values, n).len() > MAX_PROBES
    }
}

/// Whether one of the first `n` pins has no lookup key.
pub open spec fn any_blind(values: Seq<ValueView>, n: nat) -> bool
    decreases n,
{
    if n == 0 || n > values.len() {
        false
    } else {
        any_blind(values, (n - 1) as nat) || lookup_keys(values[n - 1]).len() == 0
    }
}

/// The probes for a tuple of pins: none where they may be incomplete or are too
/// many (the scan decides), and an empty list where a pin can equal nothing.
pub open spec fn probes_for(values: Seq<ValueView>) -> Option<Seq<Seq<ModelValueView>>> {
    if any_incomplete(values, values.len()) {
        None
    } else if any_blind(values, values.len()) {
        Some(seq![])
    } else if too_many(values, values.len()) {
        None
    } else {
        Some(combinations(values, values.len()))
    }
}

pub open spec fn tuples_view(v: Seq<Vec<ModelValue>>) -> Seq<Seq<ModelValueView>> {
    Seq::new(v.len(), |i: int| records::model_values_view(v[i]@))
}

pub(crate) fn extend_tuples(prefixes: &Vec<Vec<ModelValue>>, ends: &Vec<ModelValue>) -> (r: Vec<
    Vec<ModelValue>,
>)
    ensures
        tuples_view(r@) == extended_by(
            tuples_view(prefixes@),
            prefixes@.len(),
            records::model_values_view(ends@),
        ),
{
    let ghost ps = tuples_view(prefixes@);
    let ghost es = records::model_values_view(ends@);
    let mut out: Vec<Vec<ModelValue>> = Vec::new();
    let mut i: usize = 0;
    assert(tuples_view(out@) =~= extended_by(ps, 0, es));
    while i < prefixes.len()
        invariant
            i <= prefixes.len(),
            ps == tuples_view(prefixes@),
            es == records::model_values_view(ends@),
            tuples_view(out@) == extended_by(ps, i as nat, es),
        decreases prefixes.len() - i,
    {
        let ghost before = tuples_view(out@);
        let ghost p = records::model_values_view(prefixes@[i as int]@);
        let ghost tails = Seq::new(es.len(), |j: int| p.push(es[j]));
        assert(ps[i as int] == p);
        let mut j: usize = 0;
        assert(tuples_view(out@) =~= before + tails.take(0));
        while j < ends.len()
            invariant
                i < prefixes.len(),
                j <= ends.len(),
                ps == tuples_view(prefixes@),
                es == records::model_values_view(ends@),
                p == records::model_values_view(prefixes@[i as int]@),
                tails == Seq::new(es.len(), |j: int| p.push(es[j])),
                tuples_view(out@) == before + tails.take(j as int),
            decreases ends.len() - j,
        {
            let mut tuple = records::dup_model_values(&prefixes[i]);
            let end = ends[j].dup();
            let ghost t = tuple@;
            tuple.push(end);
            assert(records::model_values_view(tuple@) =~= p.push(es[j as int]));
            let ghost v = out@;
            out.push(tuple);
            assert(tuples_view(v.push(tuple)) =~= tuples_view(v).push(tails[j as int]));
            assert(tails.take(j + 1) =~= tails.take(j as int).push(tails[j as int]));
            j += 1;
            assert(tuples_view(out@) =~= before + tails.take(j as int));
        }
        assert(tails.take(j as int) =~= tails);
        assert(es.len() == ends@.len());
        i += 1;
    }
    out
}

/// The bounded cartesian product of per-component probes for a pinned value
/// tuple.
pub(crate) fn cartesian_probes(values: &Vec<Value>) -> (r: Option<Vec<Vec<ModelValue>>>)
    ensures
        probes_for(value::values_view(values@)) == match r {
            Some(probes) => Some(tuples_view(probes@)),
            None => None,
        },
{
    let ghost all = value::values_view(values@);
    let mut unsure = false;
    let mut blind = false;
    let mut i: usize = 0;
    while i < values.len()
        invariant
            i <= values.len(),
            all == value::values_view(values@),
            unsure == any_incomplete(all, i as nat),
            blind == any_blind(all, i as nat),
        decreases values.len() - i,
    {
        assert(all[i as int] == values@[i as int]@);
        if probe_set_incomplete(&values[i]) {
            unsure = true;
        }
        let keys = index_lookup_keys(&values[i]);
        assert(records::model_values_view(keys@).len() == keys@.len());
        if keys.len() == 0 {
            blind = true;
        }
        i += 1;
    }
    if unsure {
        return None;
    }
    let mut probes: Vec<Vec<ModelValue>> = Vec::new();
    if blind {
        assert(tuples_view(probes@) =~= seq![]);
        return Some(probes);
    }
    probes.push(Vec::new());
    assert(records::model_values_view(probes@[0]@) =~= seq![]);
    assert(tuples_view(probes@) =~= combinations(all, 0));
    let mut k: usize = 0;
    while k < values.len()
        invariant
            k <= values.len(),
            all == value::values_view(values@),
            !any_incomplete(all, all.len()),
            !any_blind(all, all.len()),
            !too_many(all, k as nat),
            tuples_view(probes@) == combinations(all, k as nat),
        decreases values.len() - k,
    {
        assert(all[k as int] == values@[k as int]@);
        assert(tuples_view(probes@).len() == probes@.len());
        probes = extend_tuples(&probes, &index_lookup_keys(&values[k]));
        assert(tuples_view(probes@).len() == probes@.len());
        if probes.len() > MAX_PROBES {
            proof {
                lemma_too_many_grows(all, (k + 1) as nat, all.len());
            }
            return None;
        }
        k += 1;
    }
    Some(probes)
}

proof fn lemma_too_many_grows(values: Seq<ValueView>, m: nat, n: nat)
    requires
        m <= n <= values.len(),
        too_many(values, m),
    ensures
        too_many(values, n),
    decreases n - m,
{
    if m < n {
        lemma_too_many_grows(values, m, (n - 1) as nat);
    }
}

// --- Ranges -----------------------------------------------------------------------------------------

/// A bound of a range: a value, and whether it is included.
pub struct RangeEnd {
    pub value: ValueView,
    pub inclusive: bool,
}

/// Whether a bound compares as unknown with everything.
pub open spec fn is_degenerate(end: Option<RangeEnd>) -> bool {
    match end {
        Some(e) => match e.value {
            ValueView::Null => true,
            ValueView::Float(x) => float::is_nan(x),
            _ => false,
        },
        None => false,
    }
}

/// Whether a numeric bound is beyond where integers and floating-point numbers
/// convert exactly.
pub open spec fn is_hazard(end: Option<RangeEnd>) -> bool {
    match end {
        Some(e) => match e.value {
            ValueView::Float(x) => float::magnitude(x) >= EXACT_LIMIT,
            ValueView::Int(n) => float::magnitude(float::of_int(n as int) as u64) >= EXACT_LIMIT,
            _ => false,
        },
        None => false,
    }
}

pub open spec fn is_numeric(end: Option<RangeEnd>) -> bool {
    match end {
        Some(e) => compare::is_number(e.value),
        None => true,
    }
}

/// Whether a value lies at or above a lower bound.
pub open spec fn above(v: ValueView, end: Option<RangeEnd>) -> bool {
    match end {
        None => true,
        Some(e) => match compare::comparison(v, e.value) {
            Some(Order::Greater) => true,
            Some(Order::Equal) => e.inclusive,
            _ => false,
        },
    }
}

/// Whether a value lies at or below an upper bound.
pub open spec fn beneath(v: ValueView, end: Option<RangeEnd>) -> bool {
    match end {
        None => true,
        Some(e) => match compare::comparison(v, e.value) {
            Some(Order::Less) => true,
            Some(Order::Equal) => e.inclusive,
            _ => false,
        },
    }
}

/// What a range seek does.
#[derive(Debug, Clone, Copy, PartialEq, Eq, Structural)]
pub enum RangePlan {
    /// The range cannot be served: scan.
    Decline,
    /// Nothing can lie in the range.
    Nothing,
    /// Select what lies between the bounds.
    Select,
}

/// What a range seek does for bounds.
pub open spec fn range_plan(lower: Option<RangeEnd>, upper: Option<RangeEnd>) -> RangePlan {
    if is_degenerate(lower) || is_degenerate(upper) {
        RangePlan::Nothing
    } else if lower is None && upper is None {
        RangePlan::Decline
    } else if is_numeric(lower) && is_numeric(upper) && (is_hazard(lower) || is_hazard(upper)) {
        RangePlan::Decline
    } else {
        RangePlan::Select
    }
}

pub open spec fn range_end_view(end: Option<(&Value, bool)>) -> Option<RangeEnd> {
    match end {
        Some((value, inclusive)) => Some(RangeEnd { value: value@, inclusive }),
        None => None,
    }
}

fn degenerate(end: &Option<(&Value, bool)>) -> (r: bool)
    ensures
        r == is_degenerate(range_end_view(*end)),
{
    match end {
        Some((value, _)) => match value {
            Value::Null => true,
            Value::Float(x) => float::nan(*x),
            _ => false,
        },
        None => false,
    }
}

fn hazard(end: &Option<(&Value, bool)>) -> (r: bool)
    ensures
        r == is_hazard(range_end_view(*end)),
{
    match end {
        Some((value, _)) => match value {
            Value::Float(x) => float::absolute(*x) >= EXACT_LIMIT,
            Value::Int(n) => float::absolute(float::from_int(*n)) >= EXACT_LIMIT,
            _ => false,
        },
        None => false,
    }
}

pub(crate) fn numeric(end: &Option<(&Value, bool)>) -> (r: bool)
    ensures
        r == is_numeric(range_end_view(*end)),
{
    match end {
        Some((value, _)) => matches!(value, Value::Int(_) | Value::Float(_)),
        None => true,
    }
}

/// What a range seek does for bounds.
pub(crate) fn plan_range(lower: &Option<(&Value, bool)>, upper: &Option<(&Value, bool)>) -> (r:
    RangePlan)
    ensures
        r == range_plan(range_end_view(*lower), range_end_view(*upper)),
{
    if degenerate(lower) || degenerate(upper) {
        RangePlan::Nothing
    } else if lower.is_none() && upper.is_none() {
        RangePlan::Decline
    } else if numeric(lower) && numeric(upper) && (hazard(lower) || hazard(upper)) {
        RangePlan::Decline
    } else {
        RangePlan::Select
    }
}

/// Whether a value lies at or above a lower bound.
pub(crate) fn is_above(v: &Value, end: &Option<(&Value, bool)>) -> (r: bool)
    ensures
        r == above(v@, range_end_view(*end)),
{
    match end {
        None => true,
        Some((value, inclusive)) => match v.order3(value) {
            Some(Order::Greater) => true,
            Some(Order::Equal) => *inclusive,
            _ => false,
        },
    }
}

/// Whether a value lies at or below an upper bound.
pub(crate) fn is_beneath(v: &Value, end: &Option<(&Value, bool)>) -> (r: bool)
    ensures
        r == beneath(v@, range_end_view(*end)),
{
    match end {
        None => true,
        Some((value, inclusive)) => match v.order3(value) {
            Some(Order::Less) => true,
            Some(Order::Equal) => *inclusive,
            _ => false,
        },
    }
}

// --- Laws -------------------------------------------------------------------------------------------

pub(crate) proof fn lemma_equal_numbers(i: i64, x: u64)
    requires
        !float::is_nan(x),
        float::order_key(float::of_int(i as int) as u64) == float::order_key(x),
        !incomplete(ValueView::Float(x)),
    ensures
        !float::is_infinite(x) && float::is_whole(x) && float::to_int(x) == i,
{
    let n = i as int;
    let y = float::of_int(n) as u64;
    if -0x20_0000_0000_0000 < n < 0x20_0000_0000_0000 {
        float::small_integers_convert_exactly(n);
        if float::magnitude(x) == 0 {
            lemma_zero_converts(n);
            assert(n == 0);
            lemma_zeros(x);
        } else {
            assert(x == y);
        }
    } else {
        float::lemma_large_integers(n);
        assert(x == y);
        assert(false);
    }
}

pub(crate) proof fn lemma_zero_converts(n: int)
    requires
        -0x20_0000_0000_0000 < n < 0x20_0000_0000_0000,
        float::magnitude(float::of_int(n) as u64) == 0,
    ensures
        n == 0,
{
    float::exact_integers_keep_their_order(n, 0);
    float::exact_integers_keep_their_order(0, n);
}

proof fn lemma_zeros(x: u64)
    requires
        float::magnitude(x) == 0,
    ensures
        !float::is_infinite(x) && float::is_whole(x) && float::to_int(x) == 0,
{
    float::small_integers_convert_exactly(0);
    assert(float::of_int(0) == 0);
    assert(float::significand(x) == float::significand(0) && float::scale(x) == float::scale(0));
    assert(float::whole_part(x) == float::whole_part(0));
}

/// A seek misses nothing: an indexed value that equals a pin is one of the pin's
/// lookup keys.
pub proof fn lookup_keys_cover_what_is_equal(v: ValueView, pin: ValueView)
    requires
        !incomplete(pin),
        compare::equality(v, pin) == Some(true),
        index_value(v) is Some,
    ensures
        lookup_keys(pin).contains(index_value(v)->0),
{
    let keys = lookup_keys(pin);
    match (v, pin) {
        (ValueView::Int(x), ValueView::Int(y)) => {
            assert(keys[0] == ModelValueView::Int(x));
        },
        (ValueView::Float(x), ValueView::Int(y)) => {
            assert(keys[1] == ModelValueView::Float(one_zero(x)));
        },
        (ValueView::Float(x), ValueView::Float(y)) => {
            assert(keys[0] == ModelValueView::Float(one_zero(x)));
        },
        (ValueView::Int(x), ValueView::Float(y)) => {
            lemma_equal_numbers(x, y);
            assert(keys[1] == ModelValueView::Int(x));
        },
        _ => {
            assert(index_value(pin) == index_value(v));
            assert(keys[0] == index_value(v)->0);
        },
    }
}

/// What compares within bounds is selected, or the seek declines: a bound that a
/// range holds nothing for compares with nothing.
pub proof fn ranges_cover_what_is_between(
    v: ValueView,
    lower: Option<RangeEnd>,
    upper: Option<RangeEnd>,
)
    requires
        above(v, lower),
        beneath(v, upper),
    ensures
        range_plan(lower, upper) != RangePlan::Nothing,
{
}

} // verus!
