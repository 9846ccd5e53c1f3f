//! The floating-point number nearest to a decimal one, in integers.

use vstd::arithmetic::power2::*;
use vstd::prelude::*;

use crate::big::{self, Big};
use crate::exec::exact;
use crate::exec::float::{self, EXPONENT_STEP, INFINITY};
use crate::exec::value::Order;

verus! {

/// Whether `b` is the pattern of the floating-point number that is nearest to
/// `n / q` units. Of two that are as near it is the one with the even pattern,
/// and what is no nearer to the largest finite number than to the next power of
/// two is infinite.
pub open spec fn is_nearest(b: u64, n: nat, q: nat) -> bool {
    &&& b <= INFINITY
    &&& b > 0 ==> ({
        let half_way = (exact::units((b - 1) as u64) + exact::units(b)) * q;
        2 * n > half_way || (2 * n == half_way && b % 2 == 0)
    })
    &&& b < INFINITY ==> ({
        let half_way = (exact::units(b) + exact::units((b + 1) as u64)) * q;
        2 * n < half_way || (2 * n == half_way && b % 2 == 0)
    })
}

/// The pattern of the floating-point number that is nearest to `n / q` units.
pub open spec fn nearest(n: nat, q: nat) -> u64 {
    choose|b: u64| is_nearest(b, n, q)
}

/// What `d` times ten to the power of `e` comes to in units, as a fraction.
pub open spec fn upper_part(d: nat, e: int) -> nat {
    if e >= 0 {
        d * big::ten_to(e as nat) * exact::unit()
    } else {
        d * exact::unit()
    }
}

pub open spec fn lower_part(e: int) -> nat {
    if e >= 0 {
        1
    } else {
        big::ten_to((-e) as nat)
    }
}

/// The pattern of the floating-point number that is nearest to `d` times ten to
/// the power of `e`.
pub open spec fn nearest_to(d: nat, e: int) -> u64 {
    nearest(upper_part(d, e), lower_part(e))
}

// --- There is one -----------------------------------------------------------------------------------

proof fn lemma_units_step(b: u64)
    requires
        b < INFINITY,
    ensures
        exact::units((b + 1) as u64) == exact::units(b) + pow2((float::scale(b) + 1074) as nat),
{
    let step = EXPONENT_STEP as int;
    let c = (b + 1) as u64;
    let (m, e, f) = (b as int, b as int / step, b as int % step);
    assert(m == e * step + f && 0 <= f < step) by (nonlinear_arith)
        requires
            step > 0,
            e == m / step,
            f == m % step,
    ;
    let p = pow2((float::scale(b) + 1074) as nat);
    let s = float::significand(b);
    lemma_pow2_pos((float::scale(b) + 1074) as nat);
    if f + 1 < step {
        assert((m + 1) / step == e && (m + 1) % step == f + 1) by (nonlinear_arith)
            requires
                m == e * step + f,
                0 <= f,
                f + 1 < step,
        ;
        assert(float::significand(c) == s + 1);
        assert((s + 1) * p == s * p + p) by (nonlinear_arith);
    } else {
        assert((m + 1) / step == e + 1 && (m + 1) % step == 0) by (nonlinear_arith)
            requires
                m == e * step + f,
                f + 1 == step,
                step > 0,
        ;
        assert(float::significand(c) == step);
        if e == 0 {
            assert(float::scale(c) == -1074);
            assert(s + 1 == step);
            assert((s + 1) * p == s * p + p) by (nonlinear_arith);
        } else {
            assert(float::scale(c) == float::scale(b) + 1);
            lemma_pow2_unfold((float::scale(c) + 1074) as nat);
            assert(s + 1 == 2 * step);
            assert(step * (2 * p) == s * p + p) by (nonlinear_arith)
                requires
                    s + 1 == 2 * step,
            ;
        }
    }
}

proof fn lemma_units_increase(a: u64, b: u64)
    requires
        a <= b <= INFINITY,
    ensures
        exact::units(a) <= exact::units(b),
        a < b ==> exact::units(a) < exact::units(b),
    decreases b - a,
{
    if a < b {
        lemma_units_increase(a, (b - 1) as u64);
        lemma_units_step((b - 1) as u64);
        lemma_pow2_pos((float::scale((b - 1) as u64) + 1074) as nat);
    }
}

/// No two floating-point numbers are nearest to the same number.
pub proof fn at_most_one_is_nearest(a: u64, b: u64, n: nat, q: nat)
    requires
        q > 0,
        is_nearest(a, n, q),
        is_nearest(b, n, q),
    ensures
        a == b,
{
    if a < b {
        lemma_apart(a, b, n, q);
    } else if b < a {
        lemma_apart(b, a, n, q);
    }
}

proof fn lemma_apart(a: u64, b: u64, n: nat, q: nat)
    requires
        q > 0,
        a < b <= INFINITY,
        is_nearest(a, n, q),
    ensures
        !is_nearest(b, n, q),
{
    let a1 = (a + 1) as u64;
    let b1 = (b - 1) as u64;
    lemma_units_increase(a, b1);
    lemma_units_increase(a1, b);
    let x = exact::units(a) + exact::units(a1);
    let y = exact::units(b1) + exact::units(b);
    if a1 == b {
        assert(x == y);
    } else {
        lemma_units_increase(a, b1);
        assert(x < y);
        assert(x * q < y * q) by (nonlinear_arith)
            requires
                x < y,
                q > 0,
        ;
    }
}

/// What is nearest by the definition is what `nearest` gives.
pub(crate) proof fn lemma_nearest(b: u64, n: nat, q: nat)
    requires
        q > 0,
        is_nearest(b, n, q),
    ensures
        nearest(n, q) == b,
{
    at_most_one_is_nearest(b, nearest(n, q), n, q);
}

// --- Far numbers ------------------------------------------------------------------------------------

proof fn lemma_eights(n: nat)
    ensures
        pow2(3 * n) <= big::ten_to(n),
    decreases n,
{
    if n == 0 {
        lemma2_to64();
    } else {
        lemma_eights((n - 1) as nat);
        lemma_pow2_adds(3, (3 * n - 3) as nat);
        lemma2_to64();
        let (p, t) = (pow2((3 * n - 3) as nat), big::ten_to((n - 1) as nat));
        assert(8 * p <= 10 * t) by (nonlinear_arith)
            requires
                p <= t,
        ;
    }
}

proof fn lemma_units_of_infinity()
    ensures
        exact::units(INFINITY) == pow2(1024) * exact::unit(),
{
    let step = EXPONENT_STEP as int;
    assert(INFINITY as int / step == 2047 && INFINITY as int % step == 0);
    assert(float::scale(INFINITY) == 972);
    assert(float::significand(INFINITY) == EXPONENT_STEP as nat);
    lemma2_to64();
    lemma2_to64_rest();
    assert(pow2(52) == EXPONENT_STEP as nat);
    lemma_pow2_adds(52, 2046);
    lemma_pow2_adds(1024, 1074);
}

/// Numbers from ten to the 400th power on are infinite.
pub(crate) proof fn lemma_far(d: nat, e: int, len: nat)
    requires
        len >= 1,
        d >= big::ten_to((len - 1) as nat),
        e + len > 400,
    ensures
        is_nearest(INFINITY, upper_part(d, e), lower_part(e)),
{
    lemma_units_of_infinity();
    lemma_eights(400);
    lemma_pow2_pos(1074);
    assert(pow2(1024) <= pow2(1200)) by {
        lemma_pow2_strictly_increases(1024, 1200);
    }
    let u = exact::unit();
    let t = big::ten_to((len - 1) as nat);
    big::lemma_ten_to_adds(400, 0);
    let n = upper_part(d, e);
    let q = lower_part(e);
    let w = exact::units(INFINITY);
    assert(n >= w * q) by {
        if e >= 0 {
            let p = big::ten_to(e as nat);
            big::lemma_ten_to_adds((len - 1) as nat, e as nat);
            big::lemma_ten_to_grows(400, (len - 1 + e) as nat);
            assert(d * p >= t * p) by (nonlinear_arith)
                requires
                    d >= t,
            ;
            assert(d * p * u >= pow2(1024) * u) by (nonlinear_arith)
                requires
                    d * p >= pow2(1024),
            ;
            assert(w * 1 == w) by (nonlinear_arith);
        } else {
            big::lemma_ten_to_adds((-e) as nat, (len - 1 + e) as nat);
            big::lemma_ten_to_grows(400, (len - 1 + e) as nat);
            let r = big::ten_to((len - 1 + e) as nat);
            assert(t == q * r);
            assert(d * u >= (pow2(1024) * u) * q) by (nonlinear_arith)
                requires
                    d >= q * r,
                    r >= pow2(1024),
            ;
        }
    }
    lemma_q_positive(e);
    let before = exact::units((INFINITY - 1) as u64);
    lemma_units_increase((INFINITY - 1) as u64, INFINITY);
    assert(2 * n > (before + w) * q) by (nonlinear_arith)
        requires
            n >= w * q,
            before < w,
            q > 0,
    ;
}

pub(crate) proof fn lemma_q_positive(e: int)
    ensures
        lower_part(e) > 0,
{
    if e < 0 {
        big::lemma_ten_to_adds((-e) as nat, 0);
    }
}

/// Numbers below ten to the -400th power are nearest to zero.
pub(crate) proof fn lemma_tiny(d: nat, e: int, len: nat)
    requires
        d < big::ten_to(len),
        e + len < -400,
    ensures
        is_nearest(0, upper_part(d, e), lower_part(e)),
{
    lemma_eights(401);
    lemma_pow2_pos(1074);
    lemma_pow2_unfold(1075);
    lemma_pow2_strictly_increases(1075, 1203);
    big::lemma_ten_to_grows(401, (-e - len) as nat);
    big::lemma_ten_to_adds(len, (-e - len) as nat);
    let u = exact::unit();
    let r = big::ten_to((-e - len) as nat);
    let t = big::ten_to(len);
    assert(2 * (d * u) < t * r) by (nonlinear_arith)
        requires
            d < t,
            2 * u <= r,
            r > 0,
    ;
    lemma_units_step(0);
    lemma2_to64();
    assert(exact::units(0) == 0) by {
        assert(float::significand(0) == 0);
        assert(0 * pow2((float::scale(0) + 1074) as nat) == 0) by (nonlinear_arith);
    }
    assert(float::scale(0) == -1074);
    let q = lower_part(e);
    assert((0 + 1) * q == q) by (nonlinear_arith);
}

// --- Execution --------------------------------------------------------------------------------------

/// `count` times what the last place of a floating-point number is worth, times
/// `q`.
fn last_places(b: u64, count: u64, q: &Big) -> (r: Big)
    requires
        b <= INFINITY,
    ensures
        r@ == count * pow2((float::scale(b) + 1074) as nat) * q@,
{
    let field: u64 = b / EXPONENT_STEP;
    let up: usize = if field == 0 {
        0
    } else {
        (field - 1) as usize
    };
    let r = q.times_plus(count, 0).times_two_to(up);
    proof {
        assert(up == float::scale(b) + 1074);
        let p = pow2(up as nat);
        let q = q@;
        assert((q * count + 0) * p == count * p * q) by (nonlinear_arith);
    }
    r
}

fn significand(b: u64) -> (r: u64)
    requires
        b <= INFINITY,
    ensures
        r == float::significand(b),
        r < 0x20_0000_0000_0000,
{
    let field: u64 = b / EXPONENT_STEP;
    let rest: u64 = b % EXPONENT_STEP;
    if field == 0 {
        rest
    } else {
        rest + EXPONENT_STEP
    }
}

/// The pattern of the floating-point number that is nearest to `n / q` units.
pub(crate) fn round(n: &Big, q: &Big) -> (r: u64)
    requires
        q@ > 0,
    ensures
        is_nearest(r, n@, q@),
        r == nearest(n@, q@),
{
    let mut at: u64 = 0;
    let mut end: u64 = INFINITY + 1;
    proof {
        assert(float::significand(0) == 0);
        assert(exact::units(0) == 0) by {
            assert(0 * pow2((float::scale(0) + 1074) as nat) == 0) by (nonlinear_arith);
        }
        assert(0 * q@ == 0) by (nonlinear_arith);
    }
    while end - at > 1
        invariant
            q@ > 0,
            at < end <= INFINITY + 1,
            exact::units(at) * q@ <= n@,
            end <= INFINITY ==> exact::units(end) * q@ > n@,
        decreases end - at,
    {
        let middle: u64 = at + (end - at) / 2;
        let m = last_places(middle, significand(middle), q);
        match m.order(n) {
            Order::Greater => {
                end = middle;
            },
            _ => {
                at = middle;
            },
        }
    }
    let r: u64 = if at == INFINITY {
        at
    } else {
        proof {
            lemma_units_step(at);
            let p = pow2((float::scale(at) + 1074) as nat);
            let s = float::significand(at);
            assert((2 * s + 1) * p == (s * p) + (s * p + p)) by (nonlinear_arith);
        }
        let half_way = last_places(at, 2 * significand(at) + 1, q);
        match half_way.order(&n.times_plus(2, 0)) {
            Order::Greater => at,
            Order::Less => at + 1,
            Order::Equal => if at % 2 == 0 {
                at
            } else {
                at + 1
            },
        }
    };
    proof {
        lemma_rounded(at, r, n@, q@);
        lemma_nearest(r, n@, q@);
    }
    r
}

proof fn lemma_rounded(at: u64, r: u64, n: nat, q: nat)
    requires
        q > 0,
        at <= INFINITY,
        exact::units(at) * q <= n,
        at < INFINITY ==> exact::units((at + 1) as u64) * q > n,
        at == INFINITY ==> r == at,
        at < INFINITY ==> ({
            let half_way = (exact::units(at) + exact::units((at + 1) as u64)) * q;
            &&& 2 * n < half_way ==> r == at
            &&& 2 * n > half_way ==> r == at + 1
            &&& 2 * n == half_way ==> r == (if at % 2 == 0 {
                at as int
            } else {
                at + 1
            })
        }),
    ensures
        is_nearest(r, n, q),
{
    let w = exact::units(at);
    if r == at {
        if at > 0 {
            let v = exact::units((at - 1) as u64);
            lemma_units_increase((at - 1) as u64, at);
            assert(2 * n > (v + w) * q) by (nonlinear_arith)
                requires
                    w * q <= n,
                    v < w,
                    q > 0,
            ;
        }
    } else {
        let x = exact::units((at + 1) as u64);
        if r < INFINITY {
            let y = exact::units((at + 2) as u64);
            lemma_units_increase((at + 1) as u64, (at + 2) as u64);
            assert(2 * n < (x + y) * q) by (nonlinear_arith)
                requires
                    n < x * q,
                    x < y,
                    q > 0,
            ;
        }
    }
}

/// `d` times ten to the power of `e`, in units: what stands above.
pub(crate) fn upper(d: &Big, e: i128) -> (r: Big)
    ensures
        r@ == upper_part(d@, e as int),
{
    if e >= 0 {
        d.times_ten_to(e as u128).times_two_to(1074)
    } else {
        d.times_two_to(1074)
    }
}

/// What stands below.
pub(crate) fn lower(e: i128) -> (r: Big)
    requires
        e > i128::MIN,
    ensures
        r@ == lower_part(e as int),
        r@ > 0,
{
    proof {
        lemma_q_positive(e as int);
    }
    if e >= 0 {
        Big::of(1)
    } else {
        let one = Big::of(1);
        let r = one.times_ten_to((-e) as u128);
        assert(1 * big::ten_to((-e) as nat) == big::ten_to((-e) as nat)) by (nonlinear_arith);
        r
    }
}

/// The pattern of the floating-point number that is nearest to `d` times ten to
/// the power of `e`.
pub(crate) fn round_decimal(d: &Big, e: i128) -> (r: u64)
    requires
        e > i128::MIN,
    ensures
        r == nearest_to(d@, e as int),
{
    round(&upper(d, e), &lower(e))
}

// --- The other way round ----------------------------------------------------------------------------

/// Whether a floating-point number is no less than ten to the power of `k`.
pub open spec fn at_least(b: u64, k: int) -> bool {
    upper_part(1, k) <= exact::units(b) * lower_part(k)
}

/// The largest exponent from `k` down, but no further than -400, such that ten to
/// its power is no more than a floating-point number.
pub open spec fn lead(b: u64, k: int) -> int
    decreases k + 400,
{
    if k <= -400 || at_least(b, k) {
        k
    } else {
        lead(b, k - 1)
    }
}

/// How many times ten to the power of `e` goes into a floating-point number.
pub open spec fn times_in(b: u64, e: int) -> nat {
    ((exact::units(b) * lower_part(e)) as int / upper_part(1, e) as int) as nat
}

/// Whether `d + 1` times ten to the power of `e` is no further from a
/// floating-point number than `d` times that.
pub open spec fn next_is_no_further(b: u64, d: nat, e: int) -> bool {
    2 * (exact::units(b) * lower_part(e)) >= (2 * d + 1) * upper_part(1, e)
}

/// The multiple of ten to the power of `e` that stands for a floating-point
/// number: of the two around it the one that reads back as it, and the nearer
/// one where both do or neither.
pub open spec fn chosen(b: u64, e: int) -> nat {
    let d = times_in(b, e);
    let down = nearest_to(d, e) == b;
    let up = nearest_to(d + 1, e) == b;
    if down == up {
        if next_is_no_further(b, d, e) {
            d + 1
        } else {
            d
        }
    } else if up {
        d + 1
    } else {
        d
    }
}

/// How many digits, from `n` on, a floating-point number needs: as few as read
/// back as the number, and no more than 17.
pub open spec fn digits_needed(b: u64, n: nat) -> nat
    decreases 17 - n,
{
    let e = lead(b, 400) - n + 1;
    if n >= 17 || nearest_to(chosen(b, e), e) == b {
        n
    } else {
        digits_needed(b, n + 1)
    }
}

proof fn lemma_lead(b: u64, k: int)
    requires
        -400 <= k <= 400,
        !at_least(b, k + 1),
    ensures
        -400 <= lead(b, k) <= k,
        !at_least(b, lead(b, k) + 1),
    decreases k + 400,
{
    if !(k <= -400 || at_least(b, k)) {
        lemma_lead(b, k - 1);
    }
}

proof fn lemma_not_that_large(b: u64)
    requires
        b < INFINITY,
    ensures
        !at_least(b, 401),
{
    lemma_units_of_infinity();
    lemma_units_increase(b, INFINITY);
    lemma_eights(401);
    lemma_pow2_strictly_increases(1024, 1203);
    lemma_pow2_pos(1074);
    let u = exact::unit();
    let t = big::ten_to(401);
    assert(1 * t * u >= pow2(1024) * u) by (nonlinear_arith)
        requires
            t >= pow2(1024),
    ;
    let w = exact::units(b);
    assert(w * 1 == w) by (nonlinear_arith);
}

/// What is less than ten to the power of `k + 1` has no more than `n` digits in
/// front of the place of `e`.
proof fn lemma_times_in_bound(b: u64, k: int, e: int, n: nat)
    requires
        !at_least(b, k + 1),
        e == k + 1 - n,
    ensures
        exact::units(b) * lower_part(e) < big::ten_to(n) * upper_part(1, e),
        upper_part(1, e) > 0,
{
    let u = exact::unit();
    let w = exact::units(b);
    let t = big::ten_to(n);
    lemma_pow2_pos(1074);
    big::lemma_ten_to_adds(n, 0);
    if e >= 0 {
        let p = big::ten_to(e as nat);
        big::lemma_ten_to_adds(n, e as nat);
        big::lemma_ten_to_adds(e as nat, 0);
        assert(t * (1 * p * u) == 1 * (t * p) * u) by (nonlinear_arith);
        assert(1 * p * u > 0) by (nonlinear_arith)
            requires
                p > 0,
                u > 0,
        ;
    } else if k + 1 >= 0 {
        let p = big::ten_to((-e) as nat);
        let f = big::ten_to((k + 1) as nat);
        big::lemma_ten_to_adds((k + 1) as nat, (-e) as nat);
        big::lemma_ten_to_adds((-e) as nat, 0);
        assert(t == f * p);
        assert(w * p < (f * p) * (1 * u)) by (nonlinear_arith)
            requires
                w * 1 < 1 * f * u,
                p > 0,
        ;
    } else {
        let p = big::ten_to((-e) as nat);
        let f = big::ten_to((-k - 1) as nat);
        big::lemma_ten_to_adds(n, (-k - 1) as nat);
        assert(p == t * f);
        assert(w * (t * f) < t * (1 * u)) by (nonlinear_arith)
            requires
                w * f < 1 * u,
                t > 0,
        ;
    }
}

fn units_over(b: u64, e: i128) -> (r: Big)
    requires
        b <= INFINITY,
        e > i128::MIN,
    ensures
        r@ == exact::units(b) * lower_part(e as int),
{
    last_places(b, significand(b), &lower(e))
}

fn first_exponent(b: u64) -> (r: i128)
    requires
        b < INFINITY,
    ensures
        r == lead(b, 400),
        -400 <= r <= 400,
        !at_least(b, r + 1),
{
    proof {
        lemma_not_that_large(b);
        lemma_lead(b, 400);
    }
    let one = Big::of(1);
    let mut k: i128 = 400;
    while k > -400
        invariant
            one@ == 1,
            b < INFINITY,
            -400 <= k <= 400,
            lead(b, 400) == lead(b, k as int),
            !at_least(b, lead(b, 400) + 1),
        decreases k + 400,
    {
        match upper(&one, k).order(&units_over(b, k)) {
            Order::Greater => {},
            _ => {
                return k;
            },
        }
        k -= 1;
    }
    k
}

/// How many times `part` goes into `whole`.
fn divide(whole: &Big, part: &Big, limit: u64) -> (r: u64)
    requires
        part@ > 0,
        whole@ < limit * part@,
    ensures
        r == whole@ as int / part@ as int,
        r < limit,
{
    let mut at: u64 = 0;
    let mut end: u64 = limit;
    assert(0 * part@ == 0) by (nonlinear_arith);
    assert(limit > 0) by (nonlinear_arith)
        requires
            whole@ < limit * part@,
            limit >= 0,
    ;
    while end - at > 1
        invariant
            at < end <= limit,
            at * part@ <= whole@,
            whole@ < end * part@,
        decreases end - at,
    {
        let middle: u64 = at + (end - at) / 2;
        let m = part.times_plus(middle, 0);
        assert(part@ * middle + 0 == middle * part@) by (nonlinear_arith);
        match m.order(whole) {
            Order::Greater => {
                end = middle;
            },
            _ => {
                at = middle;
            },
        }
    }
    proof {
        let (w, p, a) = (whole@ as int, part@ as int, at as int);
        assert(w == a * p + (w - a * p));
        assert((a + 1) * p == a * p + p) by (nonlinear_arith);
        vstd::arithmetic::div_mod::lemma_fundamental_div_mod_converse(w, p, a, w - a * p);
    }
    at
}

/// The multiple of ten to the power of `e` that stands for a floating-point
/// number, of `n` digits at most.
fn choose_digits(b: u64, k: i128, e: i128, n: u64) -> (r: u64)
    requires
        b < INFINITY,
        -1000 < e < 1000,
        !at_least(b, k + 1),
        1 <= n <= 17,
        e == k + 1 - n,
    ensures
        r == chosen(b, e as int),
{
    proof {
        lemma_times_in_bound(b, k as int, e as int, n as nat);
        big::lemma_ten_to_grows(n as nat, 17);
        reveal_with_fuel(big::ten_to, 18);
        let (t, p) = (big::ten_to(n as nat), upper_part(1, e as int));
        assert(t * p <= 100_000_000_000_000_000 * p) by (nonlinear_arith)
            requires
                t <= 100_000_000_000_000_000,
        ;
    }
    let whole = units_over(b, e);
    let part = upper(&Big::of(1), e);
    let d: u64 = divide(&whole, &part, 100_000_000_000_000_000);
    let down = round_decimal(&Big::of(d), e) == b;
    let up = round_decimal(&Big::of(d + 1), e) == b;
    if down == up {
        let middle = part.times_plus(2 * d + 1, 0);
        let twice = whole.times_plus(2, 0);
        proof {
            let p = part@;
            assert(p * ((2 * d + 1) as u64) + 0 == (2 * d + 1) * p) by (nonlinear_arith)
                requires
                    2 * d + 1 <= 0xffff_ffff_ffff_ffff,
            ;
        }
        match middle.order(&twice) {
            Order::Greater => d,
            _ => d + 1,
        }
    } else if up {
        d + 1
    } else {
        d
    }
}

/// The digits of a finite floating-point number, as a number, and the place of
/// the last of them: as few digits as read back as the number.
pub(crate) fn shortest(b: u64) -> (r: (u64, i128))
    requires
        b < INFINITY,
    ensures
        ({
            let n = digits_needed(b, 1);
            let e = lead(b, 400) - n + 1;
            r.1 == e && r.0 == chosen(b, e)
        }),
        -1000 < r.1 < 1000,
{
    let k: i128 = first_exponent(b);
    let mut n: u64 = 1;
    loop
        invariant
            b < INFINITY,
            k == lead(b, 400),
            -400 <= k <= 400,
            !at_least(b, k + 1),
            1 <= n <= 17,
            digits_needed(b, 1) == digits_needed(b, n as nat),
        decreases 17 - n,
    {
        let e: i128 = k - n as i128 + 1;
        let d: u64 = choose_digits(b, k, e, n);
        if n >= 17 || round_decimal(&Big::of(d), e) == b {
            return (d, e);
        }
        n += 1;
    }
}

} // verus!
