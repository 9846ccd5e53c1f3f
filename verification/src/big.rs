//! Natural numbers of any size.

use vstd::arithmetic::power2::*;
use vstd::prelude::*;

use crate::exec::value::{self, Order};

verus! {

/// What one is worth in the `n`-th place of 64 bits.
pub open spec fn weight(n: nat) -> nat
    decreases n,
{
    if n == 0 {
        1
    } else {
        0x1_0000_0000_0000_0000 * weight((n - 1) as nat)
    }
}

/// The `i`-th place, or zero behind the last one.
pub open spec fn place(limbs: Seq<u64>, i: int) -> nat {
    if 0 <= i < limbs.len() {
        limbs[i] as nat
    } else {
        0
    }
}

/// What the lowest `n` places come to.
pub open spec fn low(limbs: Seq<u64>, n: nat) -> nat
    decreases n,
{
    if n == 0 {
        0
    } else {
        low(limbs, (n - 1) as nat) + place(limbs, n - 1) * weight((n - 1) as nat)
    }
}

/// Ten to the power of `n`.
pub open spec fn ten_to(n: nat) -> nat
    decreases n,
{
    if n == 0 {
        1
    } else {
        10 * ten_to((n - 1) as nat)
    }
}

pub(crate) proof fn lemma_ten_to_adds(m: nat, n: nat)
    ensures
        ten_to(m + n) == ten_to(m) * ten_to(n),
        ten_to(m) >= 1,
    decreases m,
{
    if m > 0 {
        lemma_ten_to_adds((m - 1) as nat, n);
        let a = ten_to((m - 1) as nat);
        let b = ten_to(n);
        assert(ten_to(m + n) == 10 * ten_to((m - 1 + n) as nat));
        assert(10 * (a * b) == (10 * a) * b) by (nonlinear_arith);
    } else {
        let b = ten_to(n);
        assert(1 * b == b) by (nonlinear_arith);
    }
}

pub(crate) proof fn lemma_ten_to_grows(m: nat, n: nat)
    requires
        m <= n,
    ensures
        ten_to(m) <= ten_to(n),
{
    lemma_ten_to_adds(m, (n - m) as nat);
    lemma_ten_to_adds((n - m) as nat, 0);
    let a = ten_to(m);
    let b = ten_to((n - m) as nat);
    assert(a <= a * b) by (nonlinear_arith)
        requires
            b >= 1,
    ;
}

proof fn lemma_low_bound(limbs: Seq<u64>, n: nat)
    ensures
        low(limbs, n) < weight(n),
    decreases n,
{
    if n > 0 {
        lemma_low_bound(limbs, (n - 1) as nat);
        let w = weight((n - 1) as nat);
        let p = place(limbs, n - 1);
        let l = low(limbs, (n - 1) as nat);
        assert(l + p * w < 0x1_0000_0000_0000_0000 * w) by (nonlinear_arith)
            requires
                l < w,
                p <= 0xffff_ffff_ffff_ffff,
        ;
    }
}

proof fn lemma_low_behind(limbs: Seq<u64>, n: nat)
    requires
        n >= limbs.len(),
    ensures
        low(limbs, n) == low(limbs, limbs.len()),
    decreases n,
{
    if n > limbs.len() {
        lemma_low_behind(limbs, (n - 1) as nat);
        assert(0 * weight((n - 1) as nat) == 0) by (nonlinear_arith);
    }
}

proof fn lemma_low_same(a: Seq<u64>, b: Seq<u64>, n: nat)
    requires
        forall|k: int| 0 <= k < n ==> place(a, k) == #[trigger] place(b, k),
    ensures
        low(a, n) == low(b, n),
    decreases n,
{
    if n > 0 {
        lemma_low_same(a, b, (n - 1) as nat);
        assert(place(a, n - 1) == place(b, n - 1));
    }
}

/// A natural number, its lowest place first.
pub(crate) struct Big {
    limbs: Vec<u64>,
}

impl Big {
    pub closed spec fn view(&self) -> nat {
        low(self.limbs@, self.limbs@.len())
    }

    pub(crate) fn of(n: u64) -> (r: Big)
        ensures
            r@ == n,
    {
        let mut limbs: Vec<u64> = Vec::new();
        limbs.push(n);
        proof {
            reveal_with_fuel(low, 2);
            reveal_with_fuel(weight, 2);
        }
        Big { limbs }
    }

    /// `self` times `m`, and `a` more.
    pub(crate) fn times_plus(&self, m: u64, a: u64) -> (r: Big)
        ensures
            r@ == self@ * m + a,
    {
        let ghost old = self.limbs@;
        let mut limbs: Vec<u64> = Vec::new();
        let mut carry: u64 = a;
        let mut i: usize = 0;
        assert(low(old, 0) * m == 0) by (nonlinear_arith)
            requires
                low(old, 0) == 0,
        ;
        assert(carry * weight(0) == carry) by (nonlinear_arith)
            requires
                weight(0) == 1,
        ;
        while i < self.limbs.len()
            invariant
                i <= self.limbs.len(),
                old == self.limbs@,
                limbs@.len() == i,
                low(limbs@, i as nat) + carry * weight(i as nat) == low(old, i as nat) * m + a,
            decreases self.limbs.len() - i,
        {
            let limb: u64 = self.limbs[i];
            assert(limb * m + carry <= 0xffff_ffff_ffff_ffff_ffff_ffff_ffff_ffff)
                by (nonlinear_arith)
                requires
                    limb <= 0xffff_ffff_ffff_ffff,
                    m <= 0xffff_ffff_ffff_ffff,
                    carry <= 0xffff_ffff_ffff_ffff,
            ;
            assert(0 <= limb * m) by (nonlinear_arith)
                requires
                    limb >= 0,
                    m >= 0,
            ;
            let t: u128 = limb as u128 * m as u128 + carry as u128;
            let here: u64 = (t % 0x1_0000_0000_0000_0000) as u64;
            let next: u64 = (t / 0x1_0000_0000_0000_0000) as u64;
            let ghost was = limbs@;
            limbs.push(here);
            proof {
                let w = weight(i as nat);
                lemma_low_same(was, limbs@, i as nat);
                assert(low(limbs@, (i + 1) as nat) == low(was, i as nat) + here * w);
                let (l, o) = (low(was, i as nat), low(old, i as nat));
                assert(t == limb * m + carry);
                assert(t == here + 0x1_0000_0000_0000_0000 * next);
                assert(
                    l + here * w + next * (0x1_0000_0000_0000_0000 * w) == (o + limb * w) * m + a
                )
                    by (nonlinear_arith)
                    requires
                        l + carry * w == o * m + a,
                        limb * m + carry == here + 0x1_0000_0000_0000_0000 * next,
                ;
            }
            carry = next;
            i += 1;
        }
        let ghost was = limbs@;
        let n: usize = limbs.len();
        limbs.push(carry);
        proof {
            lemma_low_same(was, limbs@, n as nat);
        }
        // A number does not grow without need.
        if carry == 0 {
            limbs.pop();
            proof {
                assert(limbs@ =~= was);
                assert(0 * weight(n as nat) == 0) by (nonlinear_arith);
            }
        }
        Big { limbs }
    }

    pub(crate) fn dup(&self) -> (r: Big)
        ensures
            r@ == self@,
    {
        assert(self@ * 1 + 0 == self@) by (nonlinear_arith);
        self.times_plus(1, 0)
    }

    /// `self` times ten to the power of `n`.
    pub(crate) fn times_ten_to(&self, n: u128) -> (r: Big)
        ensures
            r@ == self@ * ten_to(n as nat),
    {
        let mut out = self.dup();
        let mut left: u128 = n;
        let ghost all = self@ * ten_to(n as nat);
        while left >= 18
            invariant
                out@ * ten_to(left as nat) == all,
            decreases left,
        {
            let next = out.times_plus(1_000_000_000_000_000_000, 0);
            proof {
                lemma_ten_to_adds(18, (left - 18) as nat);
                reveal_with_fuel(ten_to, 19);
                let p = ten_to((left - 18) as nat);
                let o = out@;
                assert(o * (1_000_000_000_000_000_000 * p) == (o * 1_000_000_000_000_000_000) * p)
                    by (nonlinear_arith);
            }
            out = next;
            left -= 18;
        }
        while left > 0
            invariant
                out@ * ten_to(left as nat) == all,
            decreases left,
        {
            let next = out.times_plus(10, 0);
            proof {
                let p = ten_to((left - 1) as nat);
                let o = out@;
                assert(o * (10 * p) == (o * 10) * p) by (nonlinear_arith);
            }
            out = next;
            left -= 1;
        }
        assert(out@ * 1 == out@) by (nonlinear_arith);
        out
    }

    /// `self` times two to the power of `n`.
    pub(crate) fn times_two_to(&self, n: usize) -> (r: Big)
        ensures
            r@ == self@ * pow2(n as nat),
    {
        let mut out = self.dup();
        let mut left: usize = n;
        let ghost all = self@ * pow2(n as nat);
        proof {
            lemma2_to64();
        }
        while left >= 32
            invariant
                out@ * pow2(left as nat) == all,
                pow2(32) == 0x1_0000_0000,
            decreases left,
        {
            let next = out.times_plus(0x1_0000_0000, 0);
            proof {
                lemma_pow2_adds(32, (left - 32) as nat);
                let p = pow2((left - 32) as nat);
                let o = out@;
                assert(o * (0x1_0000_0000 * p) == (o * 0x1_0000_0000) * p) by (nonlinear_arith);
            }
            out = next;
            left -= 32;
        }
        while left > 0
            invariant
                out@ * pow2(left as nat) == all,
            decreases left,
        {
            let next = out.times_plus(2, 0);
            proof {
                lemma_pow2_unfold(left as nat);
                let p = pow2((left - 1) as nat);
                let o = out@;
                assert(o * (2 * p) == (o * 2) * p) by (nonlinear_arith);
            }
            out = next;
            left -= 1;
        }
        proof {
            lemma2_to64();
            assert(out@ * 1 == out@) by (nonlinear_arith);
        }
        out
    }

    fn limb(&self, i: usize) -> (r: u64)
        ensures
            r == place(self.limbs@, i as int),
    {
        if i < self.limbs.len() {
            self.limbs[i]
        } else {
            0
        }
    }

    /// How two numbers are ordered.
    pub(crate) fn order(&self, other: &Big) -> (r: Order)
        ensures
            r == value::int_order(self@ as int, other@ as int),
    {
        let ghost a = self.limbs@;
        let ghost b = other.limbs@;
        let mut i: usize = if self.limbs.len() > other.limbs.len() {
            self.limbs.len()
        } else {
            other.limbs.len()
        };
        proof {
            lemma_low_behind(a, i as nat);
            lemma_low_behind(b, i as nat);
        }
        while i > 0
            invariant
                a == self.limbs@,
                b == other.limbs@,
                self@ - other@ == low(a, i as nat) - low(b, i as nat),
            decreases i,
        {
            let x: u64 = self.limb(i - 1);
            let y: u64 = other.limb(i - 1);
            if x != y {
                proof {
                    let w = weight((i - 1) as nat) as int;
                    let (l, m) = (low(a, (i - 1) as nat) as int, low(b, (i - 1) as nat) as int);
                    lemma_low_bound(a, (i - 1) as nat);
                    lemma_low_bound(b, (i - 1) as nat);
                    assert(x < y ==> l + x * w < m + y * w) by (nonlinear_arith)
                        requires
                            0 <= l < w,
                            0 <= m < w,
                    ;
                    assert(y < x ==> m + y * w < l + x * w) by (nonlinear_arith)
                        requires
                            0 <= l < w,
                            0 <= m < w,
                    ;
                }
                return if x < y {
                    Order::Less
                } else {
                    Order::Greater
                };
            }
            i -= 1;
        }
        Order::Equal
    }
}

} // verus!
