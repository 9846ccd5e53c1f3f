//! The parts of a numeric range. An index holds integers and floating-point
//! numbers apart, each kind in its own order, so a numeric range is one range of
//! integers and one of floating-point numbers.

use vstd::arithmetic::power2::*;
use vstd::prelude::*;

use crate::exec::compare;
use crate::exec::exact;
use crate::exec::float::{self, SIGN};
use crate::exec::order_laws;
use crate::exec::seek::{self, EXACT_LIMIT, RangeEnd, RangePlan};
use crate::exec::value::{self, Order, Value, ValueView};

verus! {

// --- The order within an index ----------------------------------------------------------------------

/// An integer that orders floating-point numbers as an index has them: by value,
/// and the negative zero before the positive one.
pub open spec fn total_key(x: u64) -> int {
    if x >= SIGN {
        -(x - SIGN) - 1
    } else {
        x as int
    }
}

/// The order in which an index has two values: integers before floating-point
/// numbers, and otherwise by value.
pub open spec fn index_order(a: ValueView, b: ValueView) -> Order {
    match (a, b) {
        (ValueView::Int(x), ValueView::Int(y)) => value::int_order(x as int, y as int),
        (ValueView::Int(_), ValueView::Float(_)) => Order::Less,
        (ValueView::Float(_), ValueView::Int(_)) => Order::Greater,
        (ValueView::Float(x), ValueView::Float(y)) => value::int_order(total_key(x), total_key(y)),
        _ => compare::sort_order(a, b),
    }
}

/// The order of an index turned around is that of the values turned around.
pub proof fn index_order_is_antisymmetric(a: ValueView, b: ValueView)
    ensures
        index_order(b, a) == index_order(a, b).flipped(),
{
    order_laws::sort_order_is_antisymmetric(a, b);
}

/// The order of an index is transitive, and so is being equal in it.
pub proof fn index_order_is_transitive(a: ValueView, b: ValueView, c: ValueView)
    ensures
        order_laws::composes(index_order(a, b), index_order(b, c), index_order(a, c)),
{
    order_laws::sort_order_is_transitive(a, b, c);
    let (p, q, r) = (compare::type_rank(a), compare::type_rank(b), compare::type_rank(c));
    assert(p != q ==> compare::sort_order(a, b) == value::int_order(p, q));
    assert(q != r ==> compare::sort_order(b, c) == value::int_order(q, r));
    assert(p != r ==> compare::sort_order(a, c) == value::int_order(p, r));
    assert(p == 7 <==> compare::is_number(a));
    assert(q == 7 <==> compare::is_number(b));
    assert(r == 7 <==> compare::is_number(c));
}

/// Whether a value stands after another in an index.
#[verifier::opaque]
pub open spec fn stands_after(a: ValueView, b: ValueView) -> bool {
    index_order(a, b) == Order::Greater
}

/// Of two values only one stands after the other, and what does not stand after
/// something that does not stand after a third does not stand after that.
pub proof fn standing_after_is_an_order(a: ValueView, b: ValueView, c: ValueView)
    ensures
        stands_after(a, b) ==> !stands_after(b, a),
        !stands_after(a, b) && !stands_after(b, c) ==> !stands_after(a, c),
{
    reveal(stands_after);
    index_order_is_antisymmetric(a, b);
    index_order_is_transitive(a, b, c);
}

fn after_zero(x: u64, y: u64) -> (r: bool)
    ensures
        r == (total_key(x) > total_key(y)),
{
    if x >= SIGN {
        y >= SIGN && x < y
    } else {
        y >= SIGN || x > y
    }
}

/// Whether a value stands after another in an index.
pub(crate) fn is_after(a: &Value, b: &Value) -> (r: bool)
    ensures
        r == stands_after(a@, b@),
{
    reveal(stands_after);
    matches!(order_in_index(a, b), Order::Greater)
}

/// The order in which an index has two values.
fn order_in_index(a: &Value, b: &Value) -> (r: Order)
    ensures
        r == index_order(a@, b@),
{
    match (a, b) {
        (Value::Int(x), Value::Int(y)) => value::order_ints(*x, *y),
        (Value::Int(_), Value::Float(_)) => Order::Less,
        (Value::Float(_), Value::Int(_)) => Order::Greater,
        (Value::Float(x), Value::Float(y)) => if after_zero(*x, *y) {
            Order::Greater
        } else if after_zero(*y, *x) {
            Order::Less
        } else {
            Order::Equal
        },
        _ => a.sorted_against(b),
    }
}

// --- Families ---------------------------------------------------------------------------------------

/// A bound on integers: a number, and whether it is included.
#[derive(Debug, Clone, Copy, PartialEq, Eq, Structural)]
pub struct IntEnd {
    pub value: i64,
    pub inclusive: bool,
}

/// A bound on floating-point numbers: a pattern, and whether it is included.
/// The negative zero comes before the positive one.
#[derive(Debug, Clone, Copy, PartialEq, Eq, Structural)]
pub struct FloatEnd {
    pub bits: u64,
    pub inclusive: bool,
}

/// A range of integers.
#[derive(Debug, Clone, Copy, PartialEq, Eq, Structural)]
pub struct IntRange {
    pub lower: Option<IntEnd>,
    pub upper: Option<IntEnd>,
}

/// A range of floating-point numbers.
#[derive(Debug, Clone, Copy, PartialEq, Eq, Structural)]
pub struct FloatRange {
    pub lower: Option<FloatEnd>,
    pub upper: Option<FloatEnd>,
}

/// The parts of a numeric range; neither where nothing can lie in it.
#[derive(Debug, Clone, Copy, PartialEq, Eq, Structural)]
pub struct Families {
    pub ints: Option<IntRange>,
    pub floats: Option<FloatRange>,
}

/// Whether an integer lies in a range.
pub open spec fn int_lies_in(n: i64, r: IntRange) -> bool {
    &&& r.lower matches Some(e) ==> n > e.value || (n == e.value && e.inclusive)
    &&& r.upper matches Some(e) ==> n < e.value || (n == e.value && e.inclusive)
}

/// Whether a floating-point number lies in a range.
pub open spec fn float_lies_in(x: u64, r: FloatRange) -> bool {
    &&& r.lower matches Some(e) ==> total_key(x) > total_key(e.bits) || (x == e.bits && e.inclusive)
    &&& r.upper matches Some(e) ==> total_key(x) < total_key(e.bits) || (x == e.bits && e.inclusive)
}

/// Whether a number lies in its family's range.
pub open spec fn lies_in(v: ValueView, f: Families) -> bool {
    match v {
        ValueView::Int(n) => f.ints is Some && int_lies_in(n, f.ints->0),
        ValueView::Float(x) => f.floats is Some && float_lies_in(x, f.floats->0),
        _ => false,
    }
}

/// Where the integers above a bound begin: at the smallest integer that is no
/// less than a floating-point bound, or greater where that is not included.
pub open spec fn int_start(end: Option<RangeEnd>) -> Option<IntEnd> {
    match end {
        None => None,
        Some(e) => match e.value {
            ValueView::Int(n) => Some(IntEnd { value: n, inclusive: e.inclusive }),
            ValueView::Float(x) => {
                let t = float::to_int(x);
                let past = if float::is_whole(x) {
                    !e.inclusive
                } else {
                    !float::is_negative(x)
                };
                Some(
                    IntEnd {
                        value: (if past {
                            t + 1
                        } else {
                            t
                        }) as i64,
                        inclusive: true,
                    },
                )
            },
            _ => None,
        },
    }
}

/// Where the integers beneath a bound end.
pub open spec fn int_end(end: Option<RangeEnd>) -> Option<IntEnd> {
    match end {
        None => None,
        Some(e) => match e.value {
            ValueView::Int(n) => Some(IntEnd { value: n, inclusive: e.inclusive }),
            ValueView::Float(x) => {
                let t = float::to_int(x);
                let past = if float::is_whole(x) {
                    !e.inclusive
                } else {
                    float::is_negative(x)
                };
                Some(
                    IntEnd {
                        value: (if past {
                            t - 1
                        } else {
                            t
                        }) as i64,
                        inclusive: true,
                    },
                )
            },
            _ => None,
        },
    }
}

/// Where the floating-point numbers above a bound begin. A zero bound stands for
/// both zeros: it begins before them or behind them.
pub open spec fn float_start(end: Option<RangeEnd>) -> Option<FloatEnd> {
    match end {
        None => None,
        Some(e) => {
            let x = compare::number_bits(e.value);
            Some(
                FloatEnd {
                    bits: if float::magnitude(x) != 0 {
                        x
                    } else if e.inclusive {
                        SIGN
                    } else {
                        0
                    },
                    inclusive: e.inclusive,
                },
            )
        },
    }
}

/// Where the floating-point numbers beneath a bound end.
pub open spec fn float_end(end: Option<RangeEnd>) -> Option<FloatEnd> {
    match end {
        None => None,
        Some(e) => {
            let x = compare::number_bits(e.value);
            Some(
                FloatEnd {
                    bits: if float::magnitude(x) != 0 {
                        x
                    } else if e.inclusive {
                        0
                    } else {
                        SIGN
                    },
                    inclusive: e.inclusive,
                },
            )
        },
    }
}

/// The parts of a numeric range, unless it cannot be served.
pub open spec fn families_of(lower: Option<RangeEnd>, upper: Option<RangeEnd>) -> Option<Families> {
    match seek::range_plan(lower, upper) {
        RangePlan::Decline => None,
        RangePlan::Nothing => Some(Families { ints: None, floats: None }),
        RangePlan::Select => Some(
            Families {
                ints: Some(IntRange { lower: int_start(lower), upper: int_end(upper) }),
                floats: Some(FloatRange { lower: float_start(lower), upper: float_end(upper) }),
            },
        ),
    }
}

// --- What they hold ---------------------------------------------------------------------------------

proof fn lemma_near_zero(x: u64)
    requires
        float::magnitude(x) < EXACT_LIMIT,
    ensures
        !float::is_nan(x),
        !float::is_infinite(x),
        float::whole_part(x) < 0x20_0000_0000_0000,
        float::to_int(x) == (if float::is_negative(x) {
            -float::whole_part(x)
        } else {
            float::whole_part(x) as int
        }),
{
    let u = exact::unit() as int;
    lemma_pow2_pos(1074);
    exact::lemma_units_grow(x, EXACT_LIMIT);
    assert(float::magnitude(EXACT_LIMIT) == EXACT_LIMIT);
    assert(0x4340_0000_0000_0000int / 0x10_0000_0000_0000 == 1076);
    assert(0x4340_0000_0000_0000int % 0x10_0000_0000_0000 == 0);
    assert(float::scale(EXACT_LIMIT) == 1);
    assert(float::significand(EXACT_LIMIT) == 0x10_0000_0000_0000);
    lemma_pow2_adds(1, 1074);
    lemma2_to64();
    assert(0x10_0000_0000_0000 * (2 * u) == 0x20_0000_0000_0000 * u) by (nonlinear_arith);
    let rest = exact::lemma_whole_and_rest(x) as int;
    let w = float::whole_part(x) as int;
    assert(w < 0x20_0000_0000_0000) by (nonlinear_arith)
        requires
            w * u + rest < 0x20_0000_0000_0000 * u,
            rest >= 0,
            u > 0,
    ;
}

/// An integer compares with a floating-point number that is not too large as the
/// exact values do: the integer part decides, and what is behind the point where
/// the parts are the same.
proof fn lemma_mixed(n: i64, x: u64)
    requires
        float::magnitude(x) < EXACT_LIMIT,
    ensures
        compare::comparison(ValueView::Int(n), ValueView::Float(x)) == Some(
            if n < float::to_int(x) {
                Order::Less
            } else if n > float::to_int(x) {
                Order::Greater
            } else if float::is_whole(x) {
                Order::Equal
            } else if float::is_negative(x) {
                Order::Greater
            } else {
                Order::Less
            },
        ),
{
    lemma_near_zero(x);
    let y = float::of_int(n as int) as u64;
    if -0x20_0000_0000_0000 < n < 0x20_0000_0000_0000 {
        float::small_integers_convert_exactly(n as int);
        lemma_exact(n as int);
        exact::patterns_order_by_value(y, x);
        exact::patterns_order_by_value(x, y);
        let rest = exact::lemma_whole_and_rest(x) as int;
        let u = exact::unit() as int;
        lemma_pow2_pos(1074);
        exact::lemma_against(
            n as int,
            float::to_int(x),
            float::whole_part(x) as int,
            rest,
            u,
            float::is_negative(x),
        );
    } else {
        float::lemma_large_integers(n as int);
    }
}

/// A small integer's exact value as a floating-point number is its own.
proof fn lemma_exact(n: int)
    requires
        -0x20_0000_0000_0000 < n < 0x20_0000_0000_0000,
    ensures
        exact::exact(float::of_int(n) as u64) == n * exact::unit(),
        !float::is_nan(float::of_int(n) as u64),
{
    let y = float::of_int(n) as u64;
    float::small_integers_convert_exactly(n);
    let rest = exact::lemma_whole_and_rest(y);
    let u = exact::unit() as int;
    let w = float::whole_part(y) as int;
    assert((-w) * u == -(w * u)) by (nonlinear_arith);
    if n == 0 {
        assert(y == 0);
        assert(w * u == 0) by (nonlinear_arith)
            requires
                w == 0,
        ;
    }
}

proof fn lemma_int_lower(n: i64, e: RangeEnd)
    requires
        compare::is_number(e.value),
        !seek::is_degenerate(Some(e)),
        !seek::is_hazard(Some(e)),
    ensures
        seek::above(ValueView::Int(n), Some(e)) == int_lies_in(
            n,
            IntRange { lower: int_start(Some(e)), upper: None },
        ),
        seek::beneath(ValueView::Int(n), Some(e)) == int_lies_in(
            n,
            IntRange { lower: None, upper: int_end(Some(e)) },
        ),
{
    if let ValueView::Float(x) = e.value {
        lemma_near_zero(x);
        lemma_mixed(n, x);
    }
}

proof fn lemma_float_ends(x: u64, e: RangeEnd)
    requires
        compare::is_number(e.value),
        !seek::is_degenerate(Some(e)),
        !seek::is_hazard(Some(e)),
        !float::is_nan(x),
    ensures
        seek::above(ValueView::Float(x), Some(e)) == float_lies_in(
            x,
            FloatRange { lower: float_start(Some(e)), upper: None },
        ),
        seek::beneath(ValueView::Float(x), Some(e)) == float_lies_in(
            x,
            FloatRange { lower: None, upper: float_end(Some(e)) },
        ),
{
    let y = compare::number_bits(e.value);
    assert(float::magnitude(y) < EXACT_LIMIT);
    assert(!float::is_nan(y));
}

/// A number lies between numeric bounds exactly where it lies in its family's
/// range, and the families are not given exactly where the range cannot be
/// served.
pub proof fn families_hold_what_is_between(
    v: ValueView,
    lower: Option<RangeEnd>,
    upper: Option<RangeEnd>,
)
    requires
        seek::is_numeric(lower),
        seek::is_numeric(upper),
        compare::is_number(v),
        !exact::is_not_a_number(v),
    ensures
        families_of(lower, upper) is None <==> seek::range_plan(lower, upper) == RangePlan::Decline,
        families_of(lower, upper) matches Some(f) ==> lies_in(v, f) == (seek::above(v, lower)
            && seek::beneath(v, upper)),
{
    if seek::range_plan(lower, upper) == RangePlan::Select {
        match v {
            ValueView::Int(n) => {
                if lower is Some {
                    lemma_int_lower(n, lower->0);
                }
                if upper is Some {
                    lemma_int_lower(n, upper->0);
                }
            },
            ValueView::Float(x) => {
                if lower is Some {
                    lemma_float_ends(x, lower->0);
                }
                if upper is Some {
                    lemma_float_ends(x, upper->0);
                }
            },
            _ => {},
        }
    }
}

// --- Execution --------------------------------------------------------------------------------------

/// The integer that is `past` a floating-point bound, upwards or downwards.
fn int_bound(x: u64, inclusive: bool, upwards: bool) -> (r: i64)
    requires
        float::magnitude(x) < EXACT_LIMIT,
    ensures
        upwards ==> r == int_start(
            Some(RangeEnd { value: ValueView::Float(x), inclusive }),
        )->0.value,
        !upwards ==> r == int_end(
            Some(RangeEnd { value: ValueView::Float(x), inclusive }),
        )->0.value,
{
    proof {
        lemma_near_zero(x);
    }
    let t: i64 = float::truncate(x);
    let past = if float::integral(x) {
        !inclusive
    } else {
        (x < SIGN) == upwards
    };
    if !past {
        t
    } else if upwards {
        t + 1
    } else {
        t - 1
    }
}

fn start_of_ints(end: &Option<(&Value, bool)>) -> (r: Option<IntEnd>)
    requires
        seek::is_numeric(seek::range_end_view(*end)),
        !seek::is_hazard(seek::range_end_view(*end)),
    ensures
        r == int_start(seek::range_end_view(*end)),
{
    match end {
        None => None,
        Some((value, inclusive)) => match value {
            Value::Int(n) => Some(IntEnd { value: *n, inclusive: *inclusive }),
            Value::Float(x) => Some(
                IntEnd { value: int_bound(*x, *inclusive, true), inclusive: true },
            ),
            _ => None,
        },
    }
}

fn end_of_ints(end: &Option<(&Value, bool)>) -> (r: Option<IntEnd>)
    requires
        seek::is_numeric(seek::range_end_view(*end)),
        !seek::is_hazard(seek::range_end_view(*end)),
    ensures
        r == int_end(seek::range_end_view(*end)),
{
    match end {
        None => None,
        Some((value, inclusive)) => match value {
            Value::Int(n) => Some(IntEnd { value: *n, inclusive: *inclusive }),
            Value::Float(x) => Some(
                IntEnd { value: int_bound(*x, *inclusive, false), inclusive: true },
            ),
            _ => None,
        },
    }
}

fn bits_of(v: &Value) -> (r: u64)
    ensures
        r == compare::number_bits(v@),
{
    match v {
        Value::Int(n) => float::from_int(*n),
        Value::Float(x) => *x,
        _ => 0,
    }
}

fn start_of_floats(end: &Option<(&Value, bool)>) -> (r: Option<FloatEnd>)
    ensures
        r == float_start(seek::range_end_view(*end)),
{
    match end {
        None => None,
        Some((value, inclusive)) => {
            let x: u64 = bits_of(value);
            let bits: u64 = if float::absolute(x) != 0 {
                x
            } else if *inclusive {
                SIGN
            } else {
                0
            };
            Some(FloatEnd { bits, inclusive: *inclusive })
        },
    }
}

fn end_of_floats(end: &Option<(&Value, bool)>) -> (r: Option<FloatEnd>)
    ensures
        r == float_end(seek::range_end_view(*end)),
{
    match end {
        None => None,
        Some((value, inclusive)) => {
            let x: u64 = bits_of(value);
            let bits: u64 = if float::absolute(x) != 0 {
                x
            } else if *inclusive {
                0
            } else {
                SIGN
            };
            Some(FloatEnd { bits, inclusive: *inclusive })
        },
    }
}

/// The parts of a numeric range; `None` where it cannot be served.
pub fn numeric_families(lower: Option<(&Value, bool)>, upper: Option<(&Value, bool)>) -> (r: Option<
    Families,
>)
    requires
        seek::is_numeric(seek::range_end_view(lower)),
        seek::is_numeric(seek::range_end_view(upper)),
    ensures
        r == families_of(seek::range_end_view(lower), seek::range_end_view(upper)),
{
    match seek::plan_range(&lower, &upper) {
        RangePlan::Decline => None,
        RangePlan::Nothing => Some(Families { ints: None, floats: None }),
        RangePlan::Select => Some(
            Families {
                ints: Some(IntRange { lower: start_of_ints(&lower), upper: end_of_ints(&upper) }),
                floats: Some(
                    FloatRange { lower: start_of_floats(&lower), upper: end_of_floats(&upper) },
                ),
            },
        ),
    }
}

} // verus!
