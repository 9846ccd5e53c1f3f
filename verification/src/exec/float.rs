//! IEEE-754 binary64 numbers as bit patterns.
//!
//! Comparison, sign operations and the conversions to and from integers are
//! integer arithmetic on the pattern. What rounds (sums, products, roots,
//! decimal text) is taken from a table of results that the caller supplies.

use vstd::prelude::*;
use vstd::arithmetic::power2::*;

use crate::exec::fault::{ExecError, ExecErrorView, FloatRequest, FloatRequestView};
use crate::span::Span;
use crate::text;

verus! {

/// 2^63: the sign bit.
pub const SIGN: u64 = 0x8000_0000_0000_0000;

/// 2^52: one step of the exponent.
pub const EXPONENT_STEP: u64 = 0x10_0000_0000_0000;

/// The magnitude of infinity; what is more is not a number.
pub const INFINITY: u64 = 0x7ff0_0000_0000_0000;

pub open spec fn is_negative(x: u64) -> bool {
    x >= SIGN
}

/// The pattern without its sign.
pub open spec fn magnitude(x: u64) -> u64 {
    if x >= SIGN {
        (x - SIGN) as u64
    } else {
        x
    }
}

pub open spec fn is_nan(x: u64) -> bool {
    magnitude(x) > INFINITY
}

pub open spec fn is_infinite(x: u64) -> bool {
    magnitude(x) == INFINITY
}

/// An integer that orders numbers as they are ordered: of two numbers, neither
/// of them NaN, the smaller has the smaller key, and equal ones have the same.
pub open spec fn order_key(x: u64) -> int {
    if x >= SIGN {
        -(x - SIGN)
    } else {
        x as int
    }
}

/// `-x`.
pub open spec fn negated(x: u64) -> u64 {
    if x >= SIGN {
        (x - SIGN) as u64
    } else {
        (x + SIGN) as u64
    }
}

/// The number of binary digits of `m`.
pub open spec fn bit_length(m: nat) -> nat
    decreases m,
{
    if m == 0 {
        0
    } else {
        1 + bit_length(m / 2)
    }
}

/// `m` divided by 2^`shift`, to the nearest integer, ties to the even one.
pub open spec fn rounded_shift(m: nat, shift: nat) -> nat {
    let q = m / pow2(shift);
    let r = m % pow2(shift);
    if 2 * r > pow2(shift) || (2 * r == pow2(shift) && q % 2 == 1) {
        q + 1
    } else {
        q
    }
}

/// The pattern of the number nearest to the integer `m`, ties to even: 53
/// significant digits behind an exponent. A carry out of the digits raises the
/// exponent by itself.
pub open spec fn magnitude_of(m: nat) -> int {
    let len = bit_length(m);
    if m == 0 {
        0
    } else if len <= 53 {
        (1021 + len) * EXPONENT_STEP + m * pow2((53 - len) as nat)
    } else {
        (1021 + len) * EXPONENT_STEP + rounded_shift(m, (len - 53) as nat)
    }
}

/// The pattern of the number nearest to `n`.
pub open spec fn of_int(n: int) -> int {
    if n < 0 {
        SIGN + magnitude_of((-n) as nat)
    } else {
        magnitude_of(n as nat)
    }
}

/// The exponent field.
pub open spec fn exponent_field(x: u64) -> int {
    magnitude(x) as int / EXPONENT_STEP as int
}

/// The integer whose product with 2^(`scale`) is the magnitude of a finite
/// number.
pub open spec fn significand(x: u64) -> nat {
    if exponent_field(x) == 0 {
        (magnitude(x) as int % EXPONENT_STEP as int) as nat
    } else {
        (magnitude(x) as int % EXPONENT_STEP as int + EXPONENT_STEP) as nat
    }
}

pub open spec fn scale(x: u64) -> int {
    if exponent_field(x) == 0 {
        -1074
    } else {
        exponent_field(x) - 1075
    }
}

/// The integer part of a finite number's magnitude.
pub open spec fn whole_part(x: u64) -> nat {
    if scale(x) >= 0 {
        significand(x) * pow2(scale(x) as nat)
    } else {
        significand(x) / pow2((-scale(x)) as nat)
    }
}

/// Whether a finite number is an integer.
pub open spec fn is_whole(x: u64) -> bool {
    scale(x) >= 0 || significand(x) % pow2((-scale(x)) as nat) == 0
}

/// The integer part of a number, brought into the range of `i64`; 0 for what
/// is not a number.
pub open spec fn to_int(x: u64) -> int {
    if is_nan(x) {
        0
    } else if is_negative(x) {
        if is_infinite(x) || whole_part(x) >= SIGN {
            i64::MIN as int
        } else {
            -whole_part(x)
        }
    } else if is_infinite(x) || whole_part(x) >= SIGN {
        i64::MAX as int
    } else {
        whole_part(x) as int
    }
}

// --- Execution -----------------------------------------------------------------------------

pub(crate) fn nan(x: u64) -> (r: bool)
    ensures
        r == is_nan(x),
{
    let m: u64 = if x >= SIGN {
        x - SIGN
    } else {
        x
    };
    m > INFINITY
}

pub(crate) fn infinite(x: u64) -> (r: bool)
    ensures
        r == is_infinite(x),
{
    let m: u64 = if x >= SIGN {
        x - SIGN
    } else {
        x
    };
    m == INFINITY
}

pub(crate) fn negate(x: u64) -> (r: u64)
    ensures
        r == negated(x),
{
    if x >= SIGN {
        x - SIGN
    } else {
        x + SIGN
    }
}

pub(crate) fn absolute(x: u64) -> (r: u64)
    ensures
        r == magnitude(x),
{
    if x >= SIGN {
        x - SIGN
    } else {
        x
    }
}

/// Whether `a` is less than `b`, neither of them NaN.
pub(crate) fn below(a: u64, b: u64) -> (r: bool)
    ensures
        r == (order_key(a) < order_key(b)),
{
    if a >= SIGN {
        if b >= SIGN {
            a - SIGN > b - SIGN
        } else {
            a > SIGN || b > 0
        }
    } else if b >= SIGN {
        false
    } else {
        a < b
    }
}

proof fn lemma_bit_length(m: nat)
    requires
        m > 0,
    ensures
        bit_length(m) >= 1,
        pow2((bit_length(m) - 1) as nat) <= m < pow2(bit_length(m)),
    decreases m,
{
    if m == 1 {
        lemma2_to64();
        assert(bit_length(0) == 0);
        assert(bit_length(1) == 1 + bit_length(0));
    } else {
        lemma_bit_length(m / 2);
        let k = bit_length(m / 2);
        lemma_pow2_unfold(k);
        lemma_pow2_unfold(k + 1);
    }
}

proof fn lemma_bit_length_bound(m: nat, k: nat)
    requires
        m < pow2(k),
    ensures
        bit_length(m) <= k,
{
    if m > 0 {
        lemma_bit_length(m);
        let len = bit_length(m);
        if len > k {
            if (len - 1) as nat > k {
                lemma_pow2_strictly_increases(k, (len - 1) as nat);
            }
        }
    }
}

fn length_of(m: u64) -> (r: u64)
    ensures
        r == bit_length(m as nat),
        r <= 64,
    decreases m,
{
    proof {
        lemma2_to64_rest();
        lemma_bit_length_bound(m as nat, 64);
    }
    if m == 0 {
        0
    } else {
        1 + length_of(m / 2)
    }
}

/// 2^`k`.
fn power_of_two(k: u64) -> (r: u64)
    requires
        k < 64,
    ensures
        r == pow2(k as nat),
        r > 0,
    decreases k,
{
    if k == 0 {
        proof {
            lemma2_to64();
        }
        1
    } else {
        let half = power_of_two(k - 1);
        proof {
            lemma_pow2_unfold(k as nat);
            lemma2_to64_rest();
            if k < 63 {
                lemma_pow2_strictly_increases(k as nat, 63);
            }
        }
        half + half
    }
}

/// The pattern of the number nearest to `n`.
pub(crate) fn from_int(n: i64) -> (r: u64)
    ensures
        r == of_int(n as int),
{
    let m: u64 = if n >= 0 {
        n as u64
    } else if n == i64::MIN {
        SIGN
    } else {
        (-n) as u64
    };
    let mag: u64 = from_magnitude(m);
    if n < 0 {
        mag + SIGN
    } else {
        mag
    }
}

fn from_magnitude(m: u64) -> (r: u64)
    requires
        m <= SIGN,
    ensures
        r == magnitude_of(m as nat),
        r < INFINITY,
{
    if m == 0 {
        return 0;
    }
    let len: u64 = length_of(m);
    proof {
        lemma2_to64_rest();
        lemma_bit_length(m as nat);
        lemma_bit_length_bound(m as nat, 64);
    }
    if len <= 53 {
        let p: u64 = power_of_two(53 - len);
        proof {
            let a = pow2(len as nat);
            lemma_pow2_adds(len as nat, (53 - len) as nat);
            lemma2_to64_rest();
            assert(m * p < 0x20_0000_0000_0000) by (nonlinear_arith)
                requires
                    m < a,
                    a * p == 0x20_0000_0000_0000,
                    p > 0,
            ;
        }
        (1021 + len) * EXPONENT_STEP + m * p
    } else {
        let p: u64 = power_of_two(len - 53);
        let q: u64 = m / p;
        let rest: u64 = m % p;
        proof {
            lemma_pow2_adds(53, (len - 53) as nat);
            lemma2_to64_rest();
            assert(q < 0x20_0000_0000_0000) by (nonlinear_arith)
                requires
                    m < 0x20_0000_0000_0000 * p,
                    q == m as int / p as int,
                    p > 0,
            ;
            assert(rest < p) by (nonlinear_arith)
                requires
                    rest == m as int % p as int,
                    p > 0,
            ;
            assert(p <= 2048) by {
                lemma_pow2_strictly_increases((len - 53) as nat, 12);
            }
        }
        let up: bool = 2 * rest > p || (2 * rest == p && q % 2 == 1);
        let digits: u64 = if up {
            q + 1
        } else {
            q
        };
        (1021 + len) * EXPONENT_STEP + digits
    }
}

/// The significand and the scale of a number.
fn parts(x: u64) -> (r: (u64, i64))
    ensures
        r.0 == significand(x),
        r.1 == scale(x),
        r.0 < 0x20_0000_0000_0000,
        -1074 <= r.1 <= 972,
{
    let m: u64 = absolute(x);
    let exponent: u64 = m / EXPONENT_STEP;
    let fraction: u64 = m % EXPONENT_STEP;
    if exponent == 0 {
        (fraction, -1074)
    } else {
        (fraction + EXPONENT_STEP, exponent as i64 - 1075)
    }
}

/// `m` divided by 2^`k`, and whether nothing is left over.
fn shifted_down(m: u64, k: u64) -> (r: (u64, bool))
    requires
        m < 0x20_0000_0000_0000,
    ensures
        r.0 == m as nat / pow2(k as nat),
        r.1 == (m as nat % pow2(k as nat) == 0),
{
    proof {
        lemma_pow2_pos(k as nat);
        lemma2_to64_rest();
    }
    if k >= 64 {
        proof {
            if k > 64 {
                lemma_pow2_strictly_increases(64, k as nat);
            }
            vstd::arithmetic::div_mod::lemma_small_mod(m as nat, pow2(k as nat));
            vstd::arithmetic::div_mod::lemma_basic_div(m as int, pow2(k as nat) as int);
        }
        (0, m == 0)
    } else {
        let p: u64 = power_of_two(k);
        (m / p, m % p == 0)
    }
}

/// The integer part of a finite number's magnitude where it is below 2^63.
pub(crate) fn whole(x: u64) -> (r: Option<u64>)
    requires
        !is_nan(x),
        !is_infinite(x),
    ensures
        r matches Some(n) ==> n == whole_part(x) && n < SIGN,
        r is None ==> whole_part(x) >= SIGN,
{
    let (m, e) = parts(x);
    proof {
        lemma2_to64();
        lemma2_to64_rest();
    }
    if e < 0 {
        let (n, exact) = shifted_down(m, (-e) as u64);
        proof {
            lemma_pow2_pos((-e) as nat);
            assert(m as nat / pow2((-e) as nat) <= m) by (nonlinear_arith)
                requires
                    pow2((-e) as nat) >= 1,
            ;
        }
        Some(n)
    } else if e > 10 {
        proof {
            lemma_pow2_strictly_increases(10, e as nat);
            let p = pow2(e as nat);
            lemma_pow2_unfold(11);
            if e > 11 {
                lemma_pow2_strictly_increases(11, e as nat);
            }
            assert(m * p >= 0x8000_0000_0000_0000) by (nonlinear_arith)
                requires
                    m >= 0x10_0000_0000_0000,
                    p >= 2048,
            ;
        }
        None
    } else {
        let p: u64 = power_of_two(e as u64);
        proof {
            if e < 10 {
                lemma_pow2_strictly_increases(e as nat, 10);
            }
            assert(m * p < 0x8000_0000_0000_0000) by (nonlinear_arith)
                requires
                    m < 0x20_0000_0000_0000,
                    p <= 1024,
            ;
        }
        Some(m * p)
    }
}

/// The integer part of a number, brought into the range of `i64`.
pub(crate) fn truncate(x: u64) -> (r: i64)
    ensures
        r == to_int(x),
{
    if nan(x) {
        return 0;
    }
    if infinite(x) {
        return if x >= SIGN {
            i64::MIN
        } else {
            i64::MAX
        };
    }
    match whole(x) {
        None => if x >= SIGN {
            i64::MIN
        } else {
            i64::MAX
        },
        Some(n) => if x >= SIGN {
            -(n as i64)
        } else {
            n as i64
        },
    }
}

/// Whether a finite number is an integer.
pub(crate) fn integral(x: u64) -> (r: bool)
    ensures
        r == is_whole(x),
{
    let (m, e) = parts(x);
    if e >= 0 {
        true
    } else {
        shifted_down(m, (-e) as u64).1
    }
}

// --- Results supplied from outside ----------------------------------------------------------

/// What a [`FloatRequest`] is answered with.
#[derive(Debug, Clone, PartialEq, Eq)]
pub enum FloatAnswer {
    /// The pattern of the resulting number.
    Bits(u64),
    /// The resulting text.
    Text(String),
    /// The text to parse is no number.
    Invalid,
}

/// The value that a [`FloatAnswer`] stands for.
pub enum FloatAnswerView {
    Bits(u64),
    Text(Seq<char>),
    Invalid,
}

impl FloatAnswer {
    pub open spec fn view(&self) -> FloatAnswerView {
        match self {
            FloatAnswer::Bits(x) => FloatAnswerView::Bits(*x),
            FloatAnswer::Text(s) => FloatAnswerView::Text(s@),
            FloatAnswer::Invalid => FloatAnswerView::Invalid,
        }
    }
}

/// Answers to the floating-point requests met so far.
pub struct FloatTable {
    entries: Vec<(FloatRequest, FloatAnswer)>,
}

/// The first answer to `request` from the entry `from` on.
pub open spec fn answer_from(
    entries: Seq<(FloatRequestView, FloatAnswerView)>,
    request: FloatRequestView,
    from: int,
) -> Option<FloatAnswerView>
    decreases entries.len() - from,
{
    if from < 0 || from >= entries.len() {
        None
    } else if entries[from].0 == request {
        Some(entries[from].1)
    } else {
        answer_from(entries, request, from + 1)
    }
}

/// What the table answers to `request`.
pub open spec fn answer(
    entries: Seq<(FloatRequestView, FloatAnswerView)>,
    request: FloatRequestView,
) -> Option<FloatAnswerView> {
    answer_from(entries, request, 0)
}

fn same_request(a: &FloatRequest, b: &FloatRequest) -> (r: bool)
    ensures
        r == (a@ == b@),
{
    match (a, b) {
        (
            FloatRequest::Binary { op, a: x, b: y },
            FloatRequest::Binary { op: op2, a: x2, b: y2 },
        ) => *op == *op2 && *x == *x2 && *y == *y2,
        (FloatRequest::Unary { op, a: x }, FloatRequest::Unary { op: op2, a: x2 }) => *op == *op2
            && *x == *x2,
        (FloatRequest::Display { a: x }, FloatRequest::Display { a: x2 }) => *x == *x2,
        (FloatRequest::Parse { text }, FloatRequest::Parse { text: text2 }) => text::str_eq(
            text.as_str(),
            text2.as_str(),
        ),
        _ => false,
    }
}

impl FloatTable {
    pub closed spec fn view(&self) -> Seq<(FloatRequestView, FloatAnswerView)> {
        Seq::new(self.entries@.len(), |i: int| (self.entries@[i].0@, self.entries@[i].1@))
    }

    /// A table without answers.
    pub fn new() -> (r: FloatTable)
        ensures
            r@ == Seq::<(FloatRequestView, FloatAnswerView)>::empty(),
    {
        let r = FloatTable { entries: Vec::new() };
        assert(r@ =~= Seq::<(FloatRequestView, FloatAnswerView)>::empty());
        r
    }

    /// Adds the answer to a request. An earlier answer to the same request
    /// stays in force.
    pub fn supply(&mut self, request: FloatRequest, answer: FloatAnswer)
        ensures
            final(self)@ == old(self)@.push((request@, answer@)),
    {
        self.entries.push((request, answer));
        assert(self@ =~= old(self)@.push((request@, answer@)));
    }

    /// The answer to `request`, if it was supplied.
    pub fn lookup(&self, request: &FloatRequest) -> (r: Option<&FloatAnswer>)
        ensures
            answer(self@, request@) == match r {
                Some(a) => Some(a@),
                None => None,
            },
    {
        let mut i: usize = 0;
        while i < self.entries.len()
            invariant
                i <= self.entries.len(),
                answer(self@, request@) == answer_from(self@, request@, i as int),
            decreases self.entries.len() - i,
        {
            if same_request(&self.entries[i].0, request) {
                return Some(&self.entries[i].1);
            }
            i += 1;
        }
        None
    }
}

/// A number that the table gives for `request`, or the error that asks for it.
pub open spec fn number_for(
    table: Seq<(FloatRequestView, FloatAnswerView)>,
    request: FloatRequestView,
    span: Span,
) -> Result<u64, ExecErrorView> {
    match answer(table, request) {
        Some(FloatAnswerView::Bits(x)) => Ok(x),
        _ => Err(ExecErrorView::FloatPending { request, span }),
    }
}

/// A text that the table gives for `request`, or the error that asks for it.
pub open spec fn text_for(
    table: Seq<(FloatRequestView, FloatAnswerView)>,
    request: FloatRequestView,
    span: Span,
) -> Result<Seq<char>, ExecErrorView> {
    match answer(table, request) {
        Some(FloatAnswerView::Text(s)) => Ok(s),
        _ => Err(ExecErrorView::FloatPending { request, span }),
    }
}

/// What the table gives for reading `text`: a number, nothing where the text
/// is none, or the error that asks for it.
pub open spec fn parsed_for(
    table: Seq<(FloatRequestView, FloatAnswerView)>,
    text: Seq<char>,
    span: Span,
) -> Result<Option<u64>, ExecErrorView> {
    match answer(table, FloatRequestView::Parse { text }) {
        Some(FloatAnswerView::Bits(x)) => Ok(Some(x)),
        Some(FloatAnswerView::Invalid) => Ok(None),
        _ => Err(ExecErrorView::FloatPending { request: FloatRequestView::Parse { text }, span }),
    }
}

impl FloatTable {
    pub(crate) fn number(&self, request: FloatRequest, span: Span) -> (r: Result<u64, ExecError>)
        ensures
            match r {
                Ok(x) => number_for(self@, request@, span) == Ok::<u64, ExecErrorView>(x),
                Err(e) => number_for(self@, request@, span) == Err::<u64, ExecErrorView>(e@),
            },
    {
        match self.lookup(&request) {
            Some(FloatAnswer::Bits(x)) => Ok(*x),
            _ => Err(ExecError::FloatPending { request, span }),
        }
    }

    pub(crate) fn text(&self, request: FloatRequest, span: Span) -> (r: Result<String, ExecError>)
        ensures
            match r {
                Ok(x) => text_for(self@, request@, span) == Ok::<_, ExecErrorView>(x@),
                Err(e) => text_for(self@, request@, span) == Err::<Seq<char>, _>(e@),
            },
    {
        match self.lookup(&request) {
            Some(FloatAnswer::Text(s)) => Ok(s.clone()),
            _ => Err(ExecError::FloatPending { request, span }),
        }
    }

    pub(crate) fn parsed(&self, text: &str, span: Span) -> (r: Result<Option<u64>, ExecError>)
        ensures
            match r {
                Ok(x) => parsed_for(self@, text@, span) == Ok::<_, ExecErrorView>(x),
                Err(e) => parsed_for(self@, text@, span) == Err::<Option<u64>, _>(e@),
            },
    {
        let request = FloatRequest::Parse { text: text.to_owned() };
        match self.lookup(&request) {
            Some(FloatAnswer::Bits(x)) => Ok(Some(*x)),
            Some(FloatAnswer::Invalid) => Ok(None),
            _ => Err(ExecError::FloatPending { request, span }),
        }
    }
}

/// Float rendering matching openCypher expectations (`1.0`, not `1`): whole
/// numbers below 10^15 with one zero behind the point.
pub open spec fn shown(
    table: Seq<(FloatRequestView, FloatAnswerView)>,
    x: u64,
    span: Span,
) -> Result<Seq<char>, ExecErrorView> {
    if is_nan(x) {
        Ok("NaN"@)
    } else if is_infinite(x) {
        if is_negative(x) {
            Ok("-Infinity"@)
        } else {
            Ok("Infinity"@)
        }
    } else if is_whole(x) && whole_part(x) < 1_000_000_000_000_000 {
        if is_negative(x) {
            Ok("-"@ + text::decimal(whole_part(x)) + ".0"@)
        } else {
            Ok(text::decimal(whole_part(x)) + ".0"@)
        }
    } else {
        text_for(table, FloatRequestView::Display { a: x }, span)
    }
}

/// Float rendering matching openCypher expectations.
pub fn format_float(table: &FloatTable, x: u64, span: Span) -> (r: Result<String, ExecError>)
    ensures
        match r {
            Ok(s) => shown(table@, x, span) == Ok::<_, ExecErrorView>(s@),
            Err(e) => shown(table@, x, span) == Err::<Seq<char>, _>(e@),
        },
{
    if nan(x) {
        return Ok("NaN".to_owned());
    }
    if infinite(x) {
        return if x >= SIGN {
            Ok("-Infinity".to_owned())
        } else {
            Ok("Infinity".to_owned())
        };
    }
    if integral(x) {
        if let Some(n) = whole(x) {
            if n < 1_000_000_000_000_000 {
                let digits = text::decimal_text(n);
                return if x >= SIGN {
                    Ok(text::join3("-", digits.as_str(), ".0"))
                } else {
                    Ok(text::join2(digits.as_str(), ".0"))
                };
            }
        }
    }
    table.text(FloatRequest::Display { a: x }, span)
}

// --- Laws -------------------------------------------------------------------------------------

/// Negating a number twice gives it back, and turns the order around.
pub proof fn negation_mirrors_the_order(a: u64, b: u64)
    ensures
        negated(negated(a)) == a,
        order_key(a) < order_key(b) <==> order_key(negated(b)) < order_key(negated(a)),
{
}

/// An integer of at most 53 binary digits is converted exactly: the integer
/// part of the converted number is the integer, and nothing is lost.
pub proof fn small_integers_convert_exactly(n: int)
    requires
        -0x20_0000_0000_0000 < n < 0x20_0000_0000_0000,
    ensures
        0 <= of_int(n) <= u64::MAX,
        to_int(of_int(n) as u64) == n,
        is_whole(of_int(n) as u64),
        !is_infinite(of_int(n) as u64),
{
    let m: nat = if n < 0 {
        (-n) as nat
    } else {
        n as nat
    };
    lemma2_to64();
    lemma2_to64_rest();
    if m == 0 {
        assert(of_int(n) == 0);
        assert(scale(0) == -1074 && significand(0) == 0);
        lemma_pow2_pos(1074);
        assert(0nat / pow2(1074) == 0 && 0nat % pow2(1074) == 0) by (nonlinear_arith)
            requires
                pow2(1074) > 0,
        ;
    } else {
        let len = bit_length(m);
        lemma_bit_length(m);
        lemma_bit_length_bound(m, 53);
        let p = pow2((53 - len) as nat);
        lemma_pow2_pos((53 - len) as nat);
        lemma_pow2_adds(len, (53 - len) as nat);
        lemma_pow2_adds((len - 1) as nat, (53 - len) as nat);
        let a = pow2(len);
        let b = pow2((len - 1) as nat);
        assert(m * p < 0x20_0000_0000_0000) by (nonlinear_arith)
            requires
                m < a,
                a * p == 0x20_0000_0000_0000,
                p > 0,
        ;
        assert(m * p >= 0x10_0000_0000_0000) by (nonlinear_arith)
            requires
                m >= b,
                b * p == 0x10_0000_0000_0000,
                p > 0,
        ;
        let x = of_int(n) as u64;
        let mag = magnitude_of(m);
        assert(mag == (1021 + len) * EXPONENT_STEP + m * p);
        assert(magnitude(x) == mag);
        assert(exponent_field(x) == 1022 + len);
        assert(significand(x) == m * p);
        assert(scale(x) == len - 53);
        if len == 53 {
            assert(p == 1);
            assert(pow2(0) == 1);
            assert(m * p * 1 == m) by (nonlinear_arith)
                requires
                    p == 1,
            ;
        } else {
            assert((m * p) / p == m && (m * p) % p == 0) by (nonlinear_arith)
                requires
                    p > 0,
            ;
        }
        assert(whole_part(x) == m);
    }
}

proof fn lemma_magnitude_bounds(m: nat)
    requires
        0 < m <= 0x20_0000_0000_0000,
    ensures
        bit_length(m) >= 1,
        bit_length(m) <= 54,
        (1022 + bit_length(m)) * EXPONENT_STEP <= magnitude_of(m) < (1023 + bit_length(m))
            * EXPONENT_STEP,
        bit_length(m) <= 53 ==> magnitude_of(m) == (1021 + bit_length(m)) * EXPONENT_STEP + m
            * pow2((53 - bit_length(m)) as nat),
        bit_length(m) == 54 ==> m == 0x20_0000_0000_0000,
{
    lemma2_to64();
    lemma2_to64_rest();
    lemma_bit_length(m);
    lemma_bit_length_bound(m, 54);
    let len = bit_length(m);
    if len <= 53 {
        let p = pow2((53 - len) as nat);
        lemma_pow2_pos((53 - len) as nat);
        lemma_pow2_adds(len, (53 - len) as nat);
        lemma_pow2_adds((len - 1) as nat, (53 - len) as nat);
        let a = pow2(len);
        let b = pow2((len - 1) as nat);
        assert(m * p < 0x20_0000_0000_0000) by (nonlinear_arith)
            requires
                m < a,
                a * p == 0x20_0000_0000_0000,
                p > 0,
        ;
        assert(m * p >= 0x10_0000_0000_0000) by (nonlinear_arith)
            requires
                m >= b,
                b * p == 0x10_0000_0000_0000,
                p > 0,
        ;
    } else {
        assert(m == 0x20_0000_0000_0000);
        assert(rounded_shift(m, 1) == 0x10_0000_0000_0000);
    }
}

proof fn lemma_magnitude_increases(m: nat, n: nat)
    requires
        m < n <= 0x20_0000_0000_0000,
    ensures
        magnitude_of(m) < magnitude_of(n) < INFINITY,
{
    lemma_magnitude_bounds(n);
    if m > 0 {
        lemma_magnitude_bounds(m);
        let (k, l) = (bit_length(m), bit_length(n));
        if k == l {
            if k <= 53 {
                let p = pow2((53 - k) as nat);
                lemma_pow2_pos((53 - k) as nat);
                assert(m * p < n * p) by (nonlinear_arith)
                    requires
                        m < n,
                        p > 0,
                ;
            }
        } else if k > l {
            lemma2_to64();
            lemma_bit_length(m);
            lemma_bit_length(n);
            if k - 1 > l {
                lemma_pow2_strictly_increases(l, (k - 1) as nat);
            }
        }
    }
}

/// Integers of a magnitude of at most 2^53 keep their order when they are
/// converted.
pub proof fn exact_integers_keep_their_order(m: int, n: int)
    requires
        -0x20_0000_0000_0000 <= m <= 0x20_0000_0000_0000,
        -0x20_0000_0000_0000 <= n <= 0x20_0000_0000_0000,
    ensures
        m < n <==> order_key(of_int(m) as u64) < order_key(of_int(n) as u64),
        !is_nan(of_int(m) as u64),
{
    let (a, b) = (
        if m < 0 {
            (-m) as nat
        } else {
            m as nat
        },
        if n < 0 {
            (-n) as nat
        } else {
            n as nat
        },
    );
    if a > 0 {
        lemma_magnitude_increases(0, a);
    }
    if b > 0 {
        lemma_magnitude_increases(0, b);
    }
    if a < b {
        lemma_magnitude_increases(a, b);
    } else if b < a {
        lemma_magnitude_increases(b, a);
    }
}

/// An integer of a magnitude of at least 2^53 is converted to a whole number of
/// at least that magnitude.
pub proof fn lemma_large_integers(n: int)
    requires
        n <= -0x20_0000_0000_0000 || n >= 0x20_0000_0000_0000,
        i64::MIN <= n <= i64::MAX,
    ensures
        0 <= of_int(n) <= u64::MAX,
        0x4340_0000_0000_0000 <= magnitude(of_int(n) as u64) < INFINITY,
        is_negative(of_int(n) as u64) <==> n < 0,
        is_whole(of_int(n) as u64),
{
    let m: nat = if n < 0 {
        (-n) as nat
    } else {
        n as nat
    };
    lemma2_to64();
    lemma2_to64_rest();
    let len = bit_length(m);
    lemma_bit_length(m);
    lemma_bit_length_bound(m, 64);
    if len < 54 {
        if len < 53 {
            lemma_pow2_strictly_increases(len, 53);
        }
        assert(m < pow2(53));
    }
    let k = (len - 53) as nat;
    let p = pow2(k);
    lemma_pow2_pos(k);
    lemma_pow2_adds(52, k);
    lemma_pow2_adds(53, k);
    let q = m / p;
    assert(q >= 0x10_0000_0000_0000) by (nonlinear_arith)
        requires
            m >= 0x10_0000_0000_0000 * p,
            q == m / p,
            p > 0,
    ;
    assert(q < 0x20_0000_0000_0000) by (nonlinear_arith)
        requires
            m < 0x20_0000_0000_0000 * p,
            q == m / p,
            p > 0,
    ;
    let mag = magnitude_of(m);
    assert(rounded_shift(m, k) == q || rounded_shift(m, k) == q + 1);
    assert(mag == (1021 + len) * EXPONENT_STEP + rounded_shift(m, k));
    let x = of_int(n) as u64;
    assert(magnitude(x) == mag);
    assert(exponent_field(x) >= 1076);
}

} // verus!
