//! Floating-point literals by the number they stand for: the floating-point
//! number nearest to what they write down.

use vstd::prelude::*;
use vstd::string::*;

use crate::big::{self, Big};
use crate::exec::float::INFINITY;
use crate::nearest;
use crate::text;

verus! {

/// A decimal number: `digits`, of which neither the first nor the last is a
/// zero, times ten to the power of `exponent`.
pub struct Decimal {
    pub digits: Seq<char>,
    pub exponent: int,
}

/// The first place from `i` on where an exponent begins, or the end.
pub open spec fn exponent_mark(s: Seq<char>, i: int) -> int
    decreases s.len() - i,
{
    if i < 0 || i >= s.len() {
        s.len() as int
    } else if s[i] == 'e' || s[i] == 'E' {
        i
    } else {
        exponent_mark(s, i + 1)
    }
}

/// The first place from `i` on where a decimal point stands, or the end.
pub open spec fn point(s: Seq<char>, i: int) -> int
    decreases s.len() - i,
{
    if i < 0 || i >= s.len() {
        s.len() as int
    } else if s[i] == '.' {
        i
    } else {
        point(s, i + 1)
    }
}

/// What a decimal digit stands for.
pub open spec fn digit_value(c: char) -> nat {
    if text::is_digit(c) {
        ((c as u32) - ('0' as u32)) as nat
    } else {
        0
    }
}

/// What the first `n` characters, as decimal digits, come to.
pub open spec fn digits_value(s: Seq<char>, n: nat) -> nat
    decreases n,
{
    if n == 0 || n > s.len() {
        0
    } else {
        10 * digits_value(s, (n - 1) as nat) + digit_value(s[n - 1])
    }
}

/// The exponent that a text of digits, with or without a sign, stands for.
pub open spec fn power_value(x: Seq<char>) -> int {
    if x.len() > 0 && x[0] == '-' {
        -(digits_value(x.skip(1), (x.len() - 1) as nat) as int)
    } else if x.len() > 0 && x[0] == '+' {
        digits_value(x.skip(1), (x.len() - 1) as nat) as int
    } else {
        digits_value(x, x.len()) as int
    }
}

/// How many zeros `d` begins with, from `i` on.
pub open spec fn leading_zeros(d: Seq<char>, i: int) -> nat
    decreases d.len() - i,
{
    if i < 0 || i >= d.len() || digit_value(d[i]) != 0 {
        0
    } else {
        1 + leading_zeros(d, i + 1)
    }
}

/// How many zeros the first `n` of `d` end with.
pub open spec fn trailing_zeros(d: Seq<char>, n: nat) -> nat
    decreases n,
{
    if n == 0 || n > d.len() || digit_value(d[n - 1]) != 0 {
        0
    } else {
        1 + trailing_zeros(d, (n - 1) as nat)
    }
}

/// Digits and an exponent, without the zeros at either end.
pub open spec fn normalised(d: Seq<char>, exponent: int) -> Decimal {
    let behind = trailing_zeros(d, d.len());
    let before = leading_zeros(d, 0);
    if behind >= d.len() {
        Decimal { digits: seq![], exponent: 0 }
    } else {
        Decimal {
            digits: d.subrange(before as int, d.len() - behind),
            exponent: exponent + behind,
        }
    }
}

/// The number that a floating-point literal writes down.
pub open spec fn number_of(s: Seq<char>) -> Decimal {
    let e = exponent_mark(s, 0);
    let mantissa = s.take(e);
    let power = if e < s.len() {
        s.skip(e + 1)
    } else {
        seq![]
    };
    let p = point(mantissa, 0);
    if p < mantissa.len() {
        normalised(
            mantissa.take(p) + mantissa.skip(p + 1),
            power_value(power) - (mantissa.len() - p - 1),
        )
    } else {
        normalised(mantissa, power_value(power))
    }
}

/// The pattern of the floating-point number that a literal stands for.
pub open spec fn bits_of(s: Seq<char>) -> u64 {
    let d = number_of(s);
    nearest::nearest_to(digits_value(d.digits, d.digits.len()), d.exponent)
}

/// `n` zeros.
pub open spec fn zeros(n: nat) -> Seq<char> {
    Seq::new(n, |i: int| '0')
}

/// A number written out, without an exponent.
pub open spec fn written_out(d: Decimal) -> Seq<char> {
    let n = d.digits.len();
    if n == 0 {
        seq!['0']
    } else if d.exponent >= 0 {
        d.digits + zeros(d.exponent as nat)
    } else if n + d.exponent > 0 {
        d.digits.take(n + d.exponent) + seq!['.'] + d.digits.skip(n + d.exponent)
    } else {
        seq!['0', '.'] + zeros((-d.exponent - n) as nat) + d.digits
    }
}

/// A finite floating-point number in as few digits as read back as it.
pub open spec fn shortest_of(b: u64) -> Decimal {
    let e = nearest::lead(b, 400) - nearest::digits_needed(b, 1) + 1;
    normalised(text::decimal(nearest::chosen(b, e)), e)
}

/// How the number that a floating-point literal stands for is shown: written out.
pub open spec fn shown(b: u64) -> Seq<char> {
    if b >= INFINITY {
        "inf"@
    } else {
        written_out(shortest_of(b))
    }
}

// --- Execution --------------------------------------------------------------------------------------

struct Parts {
    digits: Vec<char>,
    exponent: i128,
}

impl Parts {
    spec fn view(&self) -> Decimal {
        Decimal { digits: self.digits@, exponent: self.exponent as int }
    }
}

/// Larger than the length of any text.
const FAR: i128 = 10_000_000_000_000_000_000_000_000;

/// Where exponents stop being counted.
const LARGEST: i128 = 1_000_000_000_000_000_000_000_000_000_000;

/// Whether an exponent is the one wanted, or both are so far out that it makes
/// no difference.
spec fn as_good_as(counted: int, wanted: int) -> bool {
    ||| counted == wanted
    ||| counted > FAR && wanted > FAR
    ||| counted < -FAR && wanted < -FAR
}

proof fn lemma_digits_value(s: Seq<char>, n: nat)
    ensures
        digits_value(s, n) < big::ten_to(n),
    decreases n,
{
    if n > 0 {
        lemma_digits_value(s, (n - 1) as nat);
        big::lemma_ten_to_adds(n, 0);
    }
}

proof fn lemma_first_digit(s: Seq<char>, n: nat)
    requires
        1 <= n <= s.len(),
        digit_value(s[0]) != 0,
    ensures
        digits_value(s, n) >= big::ten_to((n - 1) as nat),
    decreases n,
{
    if n > 1 {
        lemma_first_digit(s, (n - 1) as nat);
    } else {
        reveal_with_fuel(digits_value, 2);
    }
}

fn digit(c: char) -> (r: u64)
    ensures
        r == digit_value(c),
        r < 10,
{
    if text::char_is_digit(c) {
        (c as u64) - ('0' as u64)
    } else {
        0
    }
}

/// What digits come to, counted no further than [`LARGEST`].
fn value_of(x: &Vec<char>) -> (r: i128)
    ensures
        0 <= r <= LARGEST,
        r == digits_value(x@, x@.len()) || (r == LARGEST && digits_value(x@, x@.len()) > LARGEST),
{
    let mut out: i128 = 0;
    let mut i: usize = 0;
    while i < x.len()
        invariant
            i <= x.len(),
            0 <= out <= LARGEST,
            out == digits_value(x@, i as nat) || (out == LARGEST && digits_value(x@, i as nat)
                > LARGEST),
        decreases x.len() - i,
    {
        let next: i128 = 10 * out + digit(x[i]) as i128;
        out = if next > LARGEST {
            LARGEST
        } else {
            next
        };
        i += 1;
    }
    out
}

fn big_value_of(x: &Vec<char>) -> (r: Big)
    ensures
        r@ == digits_value(x@, x@.len()),
{
    let mut out = Big::of(0);
    let mut i: usize = 0;
    while i < x.len()
        invariant
            i <= x.len(),
            out@ == digits_value(x@, i as nat),
        decreases x.len() - i,
    {
        out = out.times_plus(10, digit(x[i]));
        i += 1;
    }
    out
}

/// The characters of `chars` from `from` up to `to`.
fn stretch(chars: &Vec<char>, from: usize, to: usize) -> (r: Vec<char>)
    requires
        from <= to <= chars@.len(),
    ensures
        r@ == chars@.subrange(from as int, to as int),
{
    let mut out: Vec<char> = Vec::new();
    let mut i: usize = from;
    assert(out@ =~= chars@.subrange(from as int, from as int));
    while i < to
        invariant
            from <= i <= to <= chars@.len(),
            out@ == chars@.subrange(from as int, i as int),
        decreases to - i,
    {
        out.push(chars[i]);
        i += 1;
        assert(out@ =~= chars@.subrange(from as int, i as int));
    }
    out
}

fn power_of(x: &Vec<char>) -> (r: i128)
    ensures
        -LARGEST <= r <= LARGEST,
        r == power_value(x@) || (r == LARGEST && power_value(x@) > LARGEST) || (r == -LARGEST
            && power_value(x@) < -LARGEST),
{
    if x.len() > 0 && (x[0] == '-' || x[0] == '+') {
        let rest = stretch(x, 1, x.len());
        assert(rest@ =~= x@.skip(1));
        let v: i128 = value_of(&rest);
        if x[0] == '-' {
            -v
        } else {
            v
        }
    } else {
        value_of(x)
    }
}

/// Digits without the zeros at either end, for an exponent that is as good as
/// `wanted`.
fn trim(digits: Vec<char>, exponent: i128, Ghost(wanted): Ghost<int>) -> (r: Parts)
    requires
        -2 * LARGEST < exponent < 2 * LARGEST,
        exponent == wanted || (exponent > 2 * FAR && wanted > 2 * FAR) || (exponent < -2 * FAR
            && wanted < -2 * FAR),
    ensures
        r.digits@ == normalised(digits@, wanted).digits,
        as_good_as(r.exponent as int, normalised(digits@, wanted).exponent),
        r.digits@.len() > 0 ==> digit_value(r.digits@[0]) != 0,
        r.digits@.len() == 0 ==> normalised(digits@, wanted).exponent == 0,
        exponent == wanted ==> r@ == normalised(digits@, wanted),
        r.exponent == 0 || exponent <= r.exponent <= exponent + digits@.len(),
        -3 * LARGEST < r.exponent < 3 * LARGEST,
{
    let ghost d = digits@;
    let mut n: usize = digits.len();
    while n > 0 && digit(digits[n - 1]) == 0
        invariant
            n <= digits@.len(),
            d == digits@,
            trailing_zeros(d, d.len()) == (d.len() - n) + trailing_zeros(d, n as nat),
        decreases n,
    {
        n -= 1;
    }
    if n == 0 {
        let none: Vec<char> = Vec::new();
        assert(none@ =~= seq![]);
        return Parts { digits: none, exponent: 0 };
    }
    let mut i: usize = 0;
    while i < n && digit(digits[i]) == 0
        invariant
            i <= n <= digits@.len(),
            d == digits@,
            leading_zeros(d, 0) == i + leading_zeros(d, i as int),
            forall|k: int| 0 <= k < i ==> digit_value(#[trigger] d[k]) == 0,
        decreases n - i,
    {
        i += 1;
    }
    assert(digit_value(d[n - 1]) != 0);
    assert(i < n);
    let behind: usize = digits.len() - n;
    Parts { digits: stretch(&digits, i, n), exponent: exponent + behind as i128 }
}

fn read(s: &str) -> (r: Parts)
    ensures
        r.digits@ == number_of(s@).digits,
        as_good_as(r.exponent as int, number_of(s@).exponent),
        r.digits@.len() > 0 ==> digit_value(r.digits@[0]) != 0,
        r.digits@.len() == 0 ==> number_of(s@).exponent == 0,
        -3 * LARGEST < r.exponent < 3 * LARGEST,
{
    let chars = text::chars_of(s);
    let mut e: usize = 0;
    while e < chars.len() && chars[e] != 'e' && chars[e] != 'E'
        invariant
            e <= chars@.len(),
            chars@ == s@,
            exponent_mark(s@, 0) == exponent_mark(s@, e as int),
        decreases chars.len() - e,
    {
        e += 1;
    }
    let ghost mantissa = s@.take(e as int);
    let from: usize = if e < chars.len() {
        e + 1
    } else {
        e
    };
    let power = stretch(&chars, from, chars.len());
    proof {
        if e < chars@.len() {
            assert(power@ =~= s@.skip(e + 1));
        } else {
            assert(power@ =~= seq![]);
        }
    }
    let exponent: i128 = power_of(&power);
    let mut p: usize = 0;
    while p < e && chars[p] != '.'
        invariant
            p <= e <= chars@.len(),
            chars@ == s@,
            mantissa == s@.take(e as int),
            point(mantissa, 0) == point(mantissa, p as int),
        decreases e - p,
    {
        p += 1;
    }
    let mut digits = stretch(&chars, 0, p);
    let mut i: usize = p;
    let mut places: usize = 0;
    if p < e {
        i = p + 1;
        places = e - p - 1;
    }
    let ghost whole = digits@;
    let ghost first = i as int;
    assert(s@.subrange(first, first) =~= seq![]);
    assert(whole + s@.subrange(first, first) =~= digits@);
    while i < e
        invariant
            first <= i <= e <= chars@.len(),
            0 <= first,
            chars@ == s@,
            digits@ == whole + s@.subrange(first, i as int),
        decreases e - i,
    {
        digits.push(chars[i]);
        i += 1;
        assert(digits@ =~= whole + s@.subrange(first, i as int));
    }
    proof {
        if p < e {
            assert(digits@ =~= mantissa.take(p as int) + mantissa.skip(p + 1));
        } else {
            assert(digits@ =~= mantissa);
        }
    }
    trim(digits, exponent - places as i128, Ghost(power_value(power@) - places))
}

/// The pattern of the floating-point number that a literal stands for.
pub(crate) fn bits(s: &str) -> (r: u64)
    ensures
        r == bits_of(s@),
{
    let d = read(s);
    let ghost n = number_of(s@);
    let ghost v = digits_value(n.digits, n.digits.len());
    let len: usize = d.digits.len();
    proof {
        nearest::lemma_q_positive(n.exponent);
        lemma_digits_value(n.digits, n.digits.len());
        if len > 0 {
            lemma_first_digit(n.digits, n.digits.len());
        }
    }
    if len > 0 && d.exponent + len as i128 > 400 {
        proof {
            nearest::lemma_far(v, n.exponent, len as nat);
            nearest::lemma_nearest(
                INFINITY,
                nearest::upper_part(v, n.exponent),
                nearest::lower_part(n.exponent),
            );
        }
        return INFINITY;
    }
    if d.exponent + (len as i128) < -400 {
        proof {
            nearest::lemma_tiny(v, n.exponent, len as nat);
            nearest::lemma_nearest(
                0,
                nearest::upper_part(v, n.exponent),
                nearest::lower_part(n.exponent),
            );
        }
        return 0;
    }
    nearest::round_decimal(&big_value_of(&d.digits), d.exponent)
}

fn push_zeros(out: &mut Vec<char>, n: usize)
    ensures
        final(out)@ == old(out)@ + zeros(n as nat),
{
    let ghost before = out@;
    let mut i: usize = 0;
    assert(out@ =~= before + zeros(0));
    while i < n
        invariant
            i <= n,
            out@ == before + zeros(i as nat),
        decreases n - i,
    {
        out.push('0');
        i += 1;
        assert(out@ =~= before + zeros(i as nat));
    }
}

fn push_all(out: &mut Vec<char>, chars: &Vec<char>, from: usize, to: usize)
    requires
        from <= to <= chars@.len(),
    ensures
        final(out)@ == old(out)@ + chars@.subrange(from as int, to as int),
{
    let ghost before = out@;
    let mut i: usize = from;
    assert(out@ =~= before + chars@.subrange(from as int, from as int));
    while i < to
        invariant
            from <= i <= to <= chars@.len(),
            out@ == before + chars@.subrange(from as int, i as int),
        decreases to - i,
    {
        out.push(chars[i]);
        i += 1;
        assert(out@ =~= before + chars@.subrange(from as int, i as int));
    }
}

fn write_out(d: &Parts) -> (r: String)
    requires
        -1100 < d.exponent < 1100,
    ensures
        r@ == written_out(d@),
{
    let n: usize = d.digits.len();
    let mut out: Vec<char> = Vec::new();
    if n == 0 {
        out.push('0');
        assert(out@ =~= written_out(d@));
    } else if d.exponent >= 0 {
        push_all(&mut out, &d.digits, 0, n);
        push_zeros(&mut out, d.exponent as usize);
        assert(out@ =~= written_out(d@));
    } else {
        let down: usize = (-d.exponent) as usize;
        if n > down {
            push_all(&mut out, &d.digits, 0, n - down);
            out.push('.');
            push_all(&mut out, &d.digits, n - down, n);
            assert(out@ =~= written_out(d@));
        } else {
            out.push('0');
            out.push('.');
            push_zeros(&mut out, down - n);
            push_all(&mut out, &d.digits, 0, n);
            assert(out@ =~= written_out(d@));
        }
    }
    text::text_of_all(&out)
}

proof fn lemma_decimal_len(n: nat, k: nat)
    requires
        k >= 1,
        n < big::ten_to(k),
    ensures
        text::decimal(n).len() <= k,
    decreases k,
{
    if n >= 10 {
        if k == 1 {
            reveal_with_fuel(big::ten_to, 2);
        } else {
            lemma_decimal_len(n / 10, (k - 1) as nat);
        }
    }
}

/// How the number that a floating-point literal stands for is shown.
pub(crate) fn show(b: u64) -> (r: String)
    ensures
        r@ == shown(b),
{
    if b >= INFINITY {
        return "inf".to_owned();
    }
    let (d, e) = nearest::shortest(b);
    let written = text::decimal_text(d);
    let digits = text::chars_of(written.as_str());
    proof {
        reveal_with_fuel(big::ten_to, 21);
        lemma_decimal_len(d as nat, 20);
    }
    let parts = trim(digits, e, Ghost(e as int));
    write_out(&parts)
}

} // verus!
