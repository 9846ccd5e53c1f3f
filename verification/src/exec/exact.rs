//! Numbers by their exact values: integers and floating-point numbers in one
//! total order, whatever their size.

use vstd::prelude::*;
use vstd::arithmetic::power2::*;

use crate::exec::compare;
use crate::exec::float::{self, EXPONENT_STEP, SIGN};
use crate::exec::value::{self, Order, Value, ValueView};

verus! {

/// How many units there are in one: the smallest positive floating-point number
/// is one unit.
pub open spec fn unit() -> nat {
    pow2(1074)
}

/// The magnitude of a floating-point number in units. Infinity has the value
/// that is next behind the largest finite one.
pub open spec fn units(x: u64) -> nat {
    float::significand(x) * pow2((float::scale(x) + 1074) as nat)
}

/// The value of a floating-point number in units.
pub open spec fn exact(x: u64) -> int {
    if float::is_negative(x) {
        -units(x)
    } else {
        units(x) as int
    }
}

/// The value of a number in units.
pub open spec fn exact_value(v: ValueView) -> int {
    match v {
        ValueView::Int(n) => n * unit(),
        ValueView::Float(x) => exact(x),
        _ => 0,
    }
}

/// Whether a value is NaN.
pub open spec fn is_not_a_number(v: ValueView) -> bool {
    v matches ValueView::Float(x) && float::is_nan(x)
}

/// The order of two numbers by their values, with NaN after all others.
pub open spec fn numbers_order(a: ValueView, b: ValueView) -> Order {
    if is_not_a_number(a) {
        if is_not_a_number(b) {
            Order::Equal
        } else {
            Order::Greater
        }
    } else if is_not_a_number(b) {
        Order::Less
    } else {
        value::int_order(exact_value(a), exact_value(b))
    }
}

/// A larger magnitude has a larger value.
pub(crate) proof fn lemma_units_grow(x: u64, y: u64)
    requires
        float::magnitude(x) < float::magnitude(y),
    ensures
        units(x) < units(y),
{
    let step = EXPONENT_STEP as int;
    let (mx, my) = (float::magnitude(x) as int, float::magnitude(y) as int);
    let (ex, ey) = (mx / step, my / step);
    let (fx, fy) = (mx % step, my % step);
    assert(mx == ex * step + fx && my == ey * step + fy) by (nonlinear_arith)
        requires
            step > 0,
            ex == mx / step,
            fx == mx % step,
            ey == my / step,
            fy == my % step,
    ;
    assert(0 <= fx < step && 0 <= fy < step);
    assert(ex <= ey) by (nonlinear_arith)
        requires
            mx < my,
            mx == ex * step + fx,
            my == ey * step + fy,
            0 <= fx < step,
            0 <= fy < step,
    ;
    let (sx, sy) = (float::significand(x) as int, float::significand(y) as int);
    let px = pow2((float::scale(x) + 1074) as nat) as int;
    let py = pow2((float::scale(y) + 1074) as nat) as int;
    lemma_pow2_pos((float::scale(x) + 1074) as nat);
    lemma_pow2_pos((float::scale(y) + 1074) as nat);
    if ex == ey {
        assert(px == py);
        assert(sx < sy);
        assert(sx * px < sy * py) by (nonlinear_arith)
            requires
                sx < sy,
                px == py,
                px > 0,
        ;
    } else {
        assert(ey >= 1);
        assert(sy >= step);
        if ex == 0 {
            lemma2_to64();
            assert(px == 1);
            assert(sx < step);
            assert(sx * px < sy * py) by (nonlinear_arith)
                requires
                    0 <= sx < step,
                    px == 1,
                    sy >= step,
                    py >= 1,
                    step > 0,
            ;
        } else {
            assert(sx < 2 * step);
            lemma_pow2_unfold(ex as nat);
            assert(pow2(ex as nat) == 2 * px);
            if ex < ey - 1 {
                lemma_pow2_strictly_increases(ex as nat, (ey - 1) as nat);
            }
            assert(py >= 2 * px);
            assert(sx * px < sy * py) by (nonlinear_arith)
                requires
                    0 <= sx < 2 * step,
                    sy >= step,
                    py >= 2 * px,
                    px > 0,
                    step > 0,
            ;
        }
    }
}

proof fn lemma_units_same(x: u64, y: u64)
    requires
        float::magnitude(x) == float::magnitude(y),
    ensures
        units(x) == units(y),
{
}

proof fn lemma_zero_units(x: u64)
    ensures
        units(x) == 0 <==> float::magnitude(x) == 0,
{
    if float::magnitude(x) > 0 {
        lemma_units_grow(0, x);
    } else {
        assert(float::significand(x) == 0);
        assert(0 * pow2((float::scale(x) + 1074) as nat) == 0) by (nonlinear_arith);
    }
}

/// The pattern orders floating-point numbers by their values.
pub proof fn patterns_order_by_value(x: u64, y: u64)
    ensures
        float::order_key(x) < float::order_key(y) <==> exact(x) < exact(y),
        float::order_key(x) == float::order_key(y) <==> exact(x) == exact(y),
{
    lemma_zero_units(x);
    lemma_zero_units(y);
    if float::magnitude(x) < float::magnitude(y) {
        lemma_units_grow(x, y);
    } else if float::magnitude(y) < float::magnitude(x) {
        lemma_units_grow(y, x);
    } else {
        lemma_units_same(x, y);
    }
}

/// The value is the integer part and less than one more, nothing more exactly
/// where the number is an integer.
pub(crate) proof fn lemma_whole_and_rest(x: u64) -> (rest: nat)
    ensures
        units(x) == float::whole_part(x) * unit() + rest,
        rest < unit(),
        rest == 0 <==> float::is_whole(x),
{
    let s = float::significand(x);
    let e = float::scale(x);
    lemma_pow2_pos(1074);
    if e >= 0 {
        lemma_pow2_adds(e as nat, 1074);
        assert(s * (pow2(e as nat) * pow2(1074)) == (s * pow2(e as nat)) * pow2(1074))
            by (nonlinear_arith);
        0
    } else {
        let p = pow2((-e) as nat);
        let q = pow2((e + 1074) as nat);
        lemma_pow2_pos((-e) as nat);
        lemma_pow2_pos((e + 1074) as nat);
        lemma_pow2_adds((-e) as nat, (e + 1074) as nat);
        assert(p * q == unit());
        let w = s / p;
        let r = s % p;
        assert(s == w * p + r && r < p) by (nonlinear_arith)
            requires
                p > 0,
                w == s / p,
                r == s % p,
        ;
        assert(s * q == w * (p * q) + r * q) by (nonlinear_arith)
            requires
                s == w * p + r,
        ;
        assert(r * q < p * q) by (nonlinear_arith)
            requires
                r < p,
                q > 0,
        ;
        assert(r * q == 0 <==> r == 0) by (nonlinear_arith)
            requires
                q > 0,
        ;
        (r * q) as nat
    }
}

/// The pattern of -2^63, the least integer.
const LEAST: u64 = 0xc3e0_0000_0000_0000;

proof fn lemma_least()
    ensures
        units(LEAST) == 0x8000_0000_0000_0000 * unit(),
        float::magnitude(LEAST) == 0x43e0_0000_0000_0000,
{
    assert(float::magnitude(LEAST) == 0x43e0_0000_0000_0000);
    assert(0x43e0_0000_0000_0000int / 0x10_0000_0000_0000 == 1086);
    assert(0x43e0_0000_0000_0000int % 0x10_0000_0000_0000 == 0);
    assert(float::scale(LEAST) == 11);
    assert(float::significand(LEAST) == 0x10_0000_0000_0000);
    lemma_pow2_adds(11, 1074);
    lemma2_to64();
    assert(0x10_0000_0000_0000 * (2048 * pow2(1074)) == 0x8000_0000_0000_0000 * pow2(1074))
        by (nonlinear_arith);
}

/// The order of an integer and a floating-point number that is not NaN, by their
/// values.
pub(crate) fn order_mixed(n: i64, x: u64) -> (r: Order)
    requires
        !float::is_nan(x),
    ensures
        r == value::int_order(n * unit(), exact(x)),
{
    let ghost u = unit() as int;
    let ghost m = units(x) as int;
    proof {
        lemma_pow2_pos(1074);
        lemma_least();
    }
    let part: Option<u64> = if float::infinite(x) {
        None
    } else {
        float::whole(x)
    };
    match part {
        None => {
            proof {
                if float::is_infinite(x) {
                    lemma_units_grow(LEAST, x);
                } else {
                    let rest = lemma_whole_and_rest(x);
                    let w = float::whole_part(x) as int;
                    assert(m >= 0x8000_0000_0000_0000 * u) by (nonlinear_arith)
                        requires
                            m == w * u + rest,
                            w >= 0x8000_0000_0000_0000,
                            u > 0,
                            rest >= 0,
                    ;
                }
                if n == i64::MIN && x >= SIGN && x != LEAST {
                    if float::magnitude(x) > float::magnitude(LEAST) {
                        lemma_units_grow(LEAST, x);
                    } else {
                        lemma_units_grow(x, LEAST);
                    }
                }
                assert(n * u < 0x8000_0000_0000_0000 * u) by (nonlinear_arith)
                    requires
                        n < 0x8000_0000_0000_0000,
                        u > 0,
                ;
                assert(n * u >= -0x8000_0000_0000_0000 * u) by (nonlinear_arith)
                    requires
                        n >= -0x8000_0000_0000_0000,
                        u > 0,
                ;
                assert(n != i64::MIN ==> n * u > -0x8000_0000_0000_0000 * u) by (nonlinear_arith)
                    requires
                        n >= -0x8000_0000_0000_0000,
                        u > 0,
                ;
            }
            if x < SIGN {
                Order::Less
            } else if n == i64::MIN && x == LEAST {
                Order::Equal
            } else {
                Order::Greater
            }
        },
        Some(w) => {
            let whole = float::integral(x);
            let t: i64 = if x >= SIGN {
                -(w as i64)
            } else {
                w as i64
            };
            proof {
                let rest = lemma_whole_and_rest(x) as int;
                lemma_against(n as int, t as int, w as int, rest, u, x >= SIGN);
            }
            if n < t {
                Order::Less
            } else if n > t {
                Order::Greater
            } else if whole {
                Order::Equal
            } else if x >= SIGN {
                Order::Greater
            } else {
                Order::Less
            }
        },
    }
}

pub(crate) proof fn lemma_against(n: int, t: int, w: int, rest: int, u: int, negative: bool)
    requires
        u > 0,
        0 <= rest < u,
        w >= 0,
        t == if negative {
            -w
        } else {
            w
        },
    ensures
        ({
            let value = if negative {
                -(w * u + rest)
            } else {
                w * u + rest
            };
            &&& n < t ==> n * u < value
            &&& n > t ==> n * u > value
            &&& n == t && rest == 0 ==> n * u == value
            &&& n == t && rest > 0 && negative ==> n * u > value
            &&& n == t && rest > 0 && !negative ==> n * u < value
        }),
{
    if n < t {
        assert(n * u <= (t - 1) * u) by (nonlinear_arith)
            requires
                n <= t - 1,
                u > 0,
        ;
    }
    if n > t {
        assert(n * u >= (t + 1) * u) by (nonlinear_arith)
            requires
                n >= t + 1,
                u > 0,
        ;
    }
    assert((t - 1) * u == t * u - u && (t + 1) * u == t * u + u) by (nonlinear_arith);
    assert((-w) * u == -(w * u)) by (nonlinear_arith);
}

pub(crate) proof fn lemma_ints(m: int, n: int)
    ensures
        value::int_order(m, n) == value::int_order(m * unit(), n * unit()),
{
    let u = unit() as int;
    lemma_pow2_pos(1074);
    assert(m < n ==> m * u < n * u) by (nonlinear_arith)
        requires
            u > 0,
    ;
    assert(m > n ==> m * u > n * u) by (nonlinear_arith)
        requires
            u > 0,
    ;
}

/// The order of two numbers by their values, with NaN after all others.
pub(crate) fn order_numbers(a: &Value, b: &Value) -> (r: Order)
    requires
        compare::is_number(a@),
        compare::is_number(b@),
    ensures
        r == numbers_order(a@, b@),
{
    match (a, b) {
        (Value::Int(m), Value::Int(n)) => {
            proof {
                lemma_ints(*m as int, *n as int);
            }
            if *m < *n {
                Order::Less
            } else if *m > *n {
                Order::Greater
            } else {
                Order::Equal
            }
        },
        (Value::Int(m), Value::Float(y)) => if float::nan(*y) {
            Order::Less
        } else {
            order_mixed(*m, *y)
        },
        (Value::Float(x), Value::Int(n)) => if float::nan(*x) {
            Order::Greater
        } else {
            order_mixed(*n, *x).flip()
        },
        (Value::Float(x), Value::Float(y)) => if float::nan(*x) {
            if float::nan(*y) {
                Order::Equal
            } else {
                Order::Greater
            }
        } else if float::nan(*y) {
            Order::Less
        } else {
            proof {
                patterns_order_by_value(*x, *y);
                patterns_order_by_value(*y, *x);
            }
            if float::below(*x, *y) {
                Order::Less
            } else if float::below(*y, *x) {
                Order::Greater
            } else {
                Order::Equal
            }
        },
        _ => Order::Equal,
    }
}

} // verus!
