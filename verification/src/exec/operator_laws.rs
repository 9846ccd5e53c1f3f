//! What the operators are for: each as a relation between its operands and its
//! result.

use vstd::prelude::*;

use crate::ast::{BinaryOp, UnaryOp};
use crate::bind::bound::BoundExprView;
use crate::exec::arith;
use crate::exec::compare;
use crate::exec::exact;
use crate::exec::fault::{ExecErrorView, FloatOp, FloatRequestView};
use crate::exec::float::{self, FloatAnswerView};
use crate::exec::governor::Budget;
use crate::exec::operators;
use crate::exec::semantics::{self, Env, Spent};
use crate::exec::value::{self, EntityIdView, NodeValueView, Order, RelValueView, ValueView};
use crate::span::Span;

verus! {

/// Whether two operands come to values, one after the other.
#[verifier::opaque]
pub open spec fn come_to(
    a: ValueView,
    b: ValueView,
    lhs: BoundExprView,
    rhs: BoundExprView,
    row: Map<u32, ValueView>,
    env: Env,
    spent: Spent,
) -> bool {
    let x = semantics::evaluated(lhs, row, env, spent);
    &&& x.result == Ok::<_, ExecErrorView>(a)
    &&& semantics::evaluated(rhs, row, env, x.spent).result == Ok::<_, ExecErrorView>(b)
}

/// What `lhs op rhs` evaluates to.
#[verifier::opaque]
pub open spec fn came_of(
    op: BinaryOp,
    lhs: BoundExprView,
    rhs: BoundExprView,
    span: Span,
    row: Map<u32, ValueView>,
    env: Env,
    spent: Spent,
) -> Result<ValueView, ExecErrorView> {
    semantics::evaluated(
        BoundExprView::Binary { op, lhs: Box::new(lhs), rhs: Box::new(rhs), span },
        row,
        env,
        spent,
    ).result
}

/// What `op e` evaluates to.
pub open spec fn came_of_one(
    op: UnaryOp,
    e: BoundExprView,
    span: Span,
    row: Map<u32, ValueView>,
    env: Env,
    spent: Spent,
) -> Result<ValueView, ExecErrorView> {
    semantics::evaluated(
        BoundExprView::Unary { op, operand: Box::new(e), span },
        row,
        env,
        spent,
    ).result
}

proof fn lemma_strict(
    op: BinaryOp,
    a: ValueView,
    b: ValueView,
    lhs: BoundExprView,
    rhs: BoundExprView,
    span: Span,
    row: Map<u32, ValueView>,
    env: Env,
    spent: Spent,
) -> (budget: Budget)
    requires
        come_to(a, b, lhs, rhs, row, env, spent),
        !operators::is_logical(op),
    ensures
        came_of(op, lhs, rhs, span, row, env, spent) == arith::binary_of(
            op,
            compare::decayed(a),
            compare::decayed(b),
            span,
            env.floats,
            budget,
        ).result,
{
    reveal(come_to);
    reveal(came_of);
    let x = semantics::evaluated(lhs, row, env, spent);
    semantics::evaluated(rhs, row, env, x.spent).spent.budget
}

proof fn lemma_logical(
    op: BinaryOp,
    a: ValueView,
    b: ValueView,
    lhs: BoundExprView,
    rhs: BoundExprView,
    span: Span,
    row: Map<u32, ValueView>,
    env: Env,
    spent: Spent,
)
    requires
        come_to(a, b, lhs, rhs, row, env, spent),
        operators::is_logical(op),
        a is Bool || a is Null,
        b is Bool || b is Null,
    ensures
        came_of(op, lhs, rhs, span, row, env, spent) == Ok::<_, ExecErrorView>(
            operators::of_ternary(
                operators::connective(
                    op,
                    operators::truth_of(a, span)->Ok_0,
                    operators::truth_of(b, span)->Ok_0,
                ),
            ),
        ),
{
    reveal(come_to);
    reveal(came_of);
}

proof fn lemma_is_a_number(n: i64)
    ensures
        !float::is_nan(float::of_int(n as int) as u64),
{
    if -0x20_0000_0000_0000 < n < 0x20_0000_0000_0000 {
        float::small_integers_convert_exactly(n as int);
        if n == 0 {
            assert(float::of_int(0) == 0);
        }
    } else {
        float::lemma_large_integers(n as int);
    }
}

/// Whether the table answers a request with a number.
pub open spec fn answers(env: Env, op: FloatOp, a: u64, b: u64, z: u64) -> bool {
    float::answer(env.floats, FloatRequestView::Binary { op, a, b }) == Some(
        FloatAnswerView::Bits(z),
    )
}

// --- Text -------------------------------------------------------------------------------------------

/// `s CONTAINS t` is true exactly where `t` stands somewhere in `s`, with something or
/// nothing on either side.
pub proof fn contains_finds_every_part(
    s: Seq<char>,
    t: Seq<char>,
    lhs: BoundExprView,
    rhs: BoundExprView,
    span: Span,
    row: Map<u32, ValueView>,
    env: Env,
    spent: Spent,
)
    requires
        come_to(ValueView::String(s), ValueView::String(t), lhs, rhs, row, env, spent),
    ensures
        came_of(BinaryOp::Contains, lhs, rhs, span, row, env, spent) is Ok,
        came_of(BinaryOp::Contains, lhs, rhs, span, row, env, spent) == Ok::<_, ExecErrorView>(ValueView::Bool(exists|p: Seq<char>, q: Seq<char>| s == #[trigger] (p + t + q))),
{
    let _ = lemma_strict(
        BinaryOp::Contains,
        ValueView::String(s),
        ValueView::String(t),
        lhs,
        rhs,
        span,
        row,
        env,
        spent,
    );
    if exists|p: Seq<char>, q: Seq<char>| s == #[trigger] (p + t + q) {
        let (p, q) = choose|p: Seq<char>, q: Seq<char>| s == #[trigger] (p + t + q);
        assert(s.subrange(p.len() as int, (p.len() + t.len()) as int) =~= t);
        assert(arith::stands_at(s, t, p.len() as int));
    }
    if exists|i: int| arith::stands_at(s, t, i) {
        let i = choose|i: int| arith::stands_at(s, t, i);
        assert(s =~= s.take(i) + t + s.skip(i + t.len())) by {
            assert(s.subrange(i, i + t.len()) == t);
            assert forall|k: int| 0 <= k < t.len() implies s[i + k] == t[k] by {
                assert(s.subrange(i, i + t.len())[k] == s[i + k]);
            }
        }
    }
}

/// `s STARTS WITH t` is true exactly where `s` is `t` and something or nothing behind.
pub proof fn starts_with_finds_what_comes_first(
    s: Seq<char>,
    t: Seq<char>,
    lhs: BoundExprView,
    rhs: BoundExprView,
    span: Span,
    row: Map<u32, ValueView>,
    env: Env,
    spent: Spent,
)
    requires
        come_to(ValueView::String(s), ValueView::String(t), lhs, rhs, row, env, spent),
    ensures
        came_of(BinaryOp::StartsWith, lhs, rhs, span, row, env, spent) == Ok::<_, ExecErrorView>(ValueView::Bool(exists|q: Seq<char>| s == #[trigger] (t + q))),
{
    let _ = lemma_strict(
        BinaryOp::StartsWith,
        ValueView::String(s),
        ValueView::String(t),
        lhs,
        rhs,
        span,
        row,
        env,
        spent,
    );
    if exists|q: Seq<char>| s == #[trigger] (t + q) {
        let q = choose|q: Seq<char>| s == #[trigger] (t + q);
        assert(s.take(t.len() as int) =~= t);
    }
    if t.len() <= s.len() && s.take(t.len() as int) == t {
        assert(s =~= t + s.skip(t.len() as int)) by {
            assert forall|k: int| 0 <= k < t.len() implies s[k] == t[k] by {
                assert(s.take(t.len() as int)[k] == s[k]);
            }
        }
    }
}

/// `s ENDS WITH t` is true exactly where `s` is something or nothing and `t` behind.
pub proof fn ends_with_finds_what_comes_last(
    s: Seq<char>,
    t: Seq<char>,
    lhs: BoundExprView,
    rhs: BoundExprView,
    span: Span,
    row: Map<u32, ValueView>,
    env: Env,
    spent: Spent,
)
    requires
        come_to(ValueView::String(s), ValueView::String(t), lhs, rhs, row, env, spent),
    ensures
        came_of(BinaryOp::EndsWith, lhs, rhs, span, row, env, spent) == Ok::<_, ExecErrorView>(ValueView::Bool(exists|p: Seq<char>| s == #[trigger] (p + t))),
{
    let _ = lemma_strict(
        BinaryOp::EndsWith,
        ValueView::String(s),
        ValueView::String(t),
        lhs,
        rhs,
        span,
        row,
        env,
        spent,
    );
    if exists|p: Seq<char>| s == #[trigger] (p + t) {
        let p = choose|p: Seq<char>| s == #[trigger] (p + t);
        assert(s.skip(s.len() - t.len()) =~= t);
    }
    if t.len() <= s.len() && s.skip(s.len() - t.len()) == t {
        assert(s =~= s.take(s.len() - t.len()) + t) by {
            assert forall|k: int| 0 <= k < t.len() implies s[s.len() - t.len() + k] == t[k] by {
                assert(s.skip(s.len() - t.len())[k] == s[s.len() - t.len() + k]);
            }
        }
    }
}

/// A text predicate of anything but two texts is unknown.
pub proof fn text_predicates_need_texts(
    a: ValueView,
    b: ValueView,
    lhs: BoundExprView,
    rhs: BoundExprView,
    span: Span,
    row: Map<u32, ValueView>,
    env: Env,
    spent: Spent,
)
    requires
        come_to(a, b, lhs, rhs, row, env, spent),
    ensures
        compare::text_of_value(a) is None || compare::text_of_value(b) is None ==> came_of(
            BinaryOp::Contains,
            lhs,
            rhs,
            span,
            row,
            env,
            spent,
        ) == Ok::<_, ExecErrorView>(ValueView::Null),
        compare::text_of_value(a) is None || compare::text_of_value(b) is None ==> came_of(
            BinaryOp::StartsWith,
            lhs,
            rhs,
            span,
            row,
            env,
            spent,
        ) == Ok::<_, ExecErrorView>(ValueView::Null),
        compare::text_of_value(a) is None || compare::text_of_value(b) is None ==> came_of(
            BinaryOp::EndsWith,
            lhs,
            rhs,
            span,
            row,
            env,
            spent,
        ) == Ok::<_, ExecErrorView>(ValueView::Null),
{
    let _ = lemma_strict(BinaryOp::Contains, a, b, lhs, rhs, span, row, env, spent);
    let _ = lemma_strict(BinaryOp::StartsWith, a, b, lhs, rhs, span, row, env, spent);
    let _ = lemma_strict(BinaryOp::EndsWith, a, b, lhs, rhs, span, row, env, spent);
}

/// Texts are joined: the result is the one and then the other, unless it is too long.
pub proof fn adding_texts_joins_them(
    s: Seq<char>,
    t: Seq<char>,
    lhs: BoundExprView,
    rhs: BoundExprView,
    span: Span,
    row: Map<u32, ValueView>,
    env: Env,
    spent: Spent,
)
    requires
        come_to(ValueView::String(s), ValueView::String(t), lhs, rhs, row, env, spent),
    ensures
        came_of(
            BinaryOp::Add,
            lhs,
            rhs,
            span,
            row,
            env,
            spent,
        ) matches Ok(v) ==> v == ValueView::String(s + t),
        came_of(
            BinaryOp::Add,
            lhs,
            rhs,
            span,
            row,
            env,
            spent,
        ) matches Err(e) ==> e is ResourceExceeded,
{
    let _ = lemma_strict(
        BinaryOp::Add,
        ValueView::String(s),
        ValueView::String(t),
        lhs,
        rhs,
        span,
        row,
        env,
        spent,
    );
}

/// Lists are joined: the result is the one and then the other, unless it is too long.
pub proof fn adding_lists_joins_them(
    xs: Seq<ValueView>,
    ys: Seq<ValueView>,
    lhs: BoundExprView,
    rhs: BoundExprView,
    span: Span,
    row: Map<u32, ValueView>,
    env: Env,
    spent: Spent,
)
    requires
        come_to(ValueView::List(xs), ValueView::List(ys), lhs, rhs, row, env, spent),
    ensures
        came_of(
            BinaryOp::Add,
            lhs,
            rhs,
            span,
            row,
            env,
            spent,
        ) matches Ok(v) ==> v == ValueView::List(xs + ys),
        came_of(
            BinaryOp::Add,
            lhs,
            rhs,
            span,
            row,
            env,
            spent,
        ) matches Err(e) ==> e is ResourceExceeded,
{
    let _ = lemma_strict(
        BinaryOp::Add,
        ValueView::List(xs),
        ValueView::List(ys),
        lhs,
        rhs,
        span,
        row,
        env,
        spent,
    );
}

/// An element is added to a list at the side where it stands.
pub proof fn adding_an_element_extends_a_list(
    xs: Seq<ValueView>,
    v: ValueView,
    first: bool,
    lhs: BoundExprView,
    rhs: BoundExprView,
    span: Span,
    row: Map<u32, ValueView>,
    env: Env,
    spent: Spent,
)
    requires
        come_to(if first {
            v
        } else {
            ValueView::List(xs)
        }, if first {
            ValueView::List(xs)
        } else {
            v
        }, lhs, rhs, row, env, spent),
    ensures
        !(v is Null || v is List || v is Stored) && !first ==> (
            came_of(
                BinaryOp::Add,
                lhs,
                rhs,
                span,
                row,
                env,
                spent,
            ) matches Ok(l) ==> l == ValueView::List(xs.push(v))
        ),
        !(v is Null || v is List || v is Stored) && first ==> (
            came_of(
                BinaryOp::Add,
                lhs,
                rhs,
                span,
                row,
                env,
                spent,
            ) matches Ok(l) ==> l == ValueView::List(seq![v] + xs)
        ),
{
    let _ = lemma_strict(BinaryOp::Add, if first {
            v
        } else {
            ValueView::List(xs)
        }, if first {
            ValueView::List(xs)
        } else {
            v
        }, lhs, rhs, span, row, env, spent);
}

// --- Integers ---------------------------------------------------------------------------------------

/// Integers add up, subtract and multiply as integers do; what does not fit is an
/// overflow.
pub proof fn integers_compute(
    x: i64,
    y: i64,
    lhs: BoundExprView,
    rhs: BoundExprView,
    span: Span,
    row: Map<u32, ValueView>,
    env: Env,
    spent: Spent,
)
    requires
        come_to(ValueView::Int(x), ValueView::Int(y), lhs, rhs, row, env, spent),
    ensures
        came_of(
            BinaryOp::Add,
            lhs,
            rhs,
            span,
            row,
            env,
            spent,
        ) == if i64::MIN <= x + y <= i64::MAX {
            Ok::<_, ExecErrorView>(ValueView::Int((x + y) as i64))
        } else {
            Err(ExecErrorView::Overflow { span })
        },
        came_of(
            BinaryOp::Sub,
            lhs,
            rhs,
            span,
            row,
            env,
            spent,
        ) == if i64::MIN <= x - y <= i64::MAX {
            Ok::<_, ExecErrorView>(ValueView::Int((x - y) as i64))
        } else {
            Err(ExecErrorView::Overflow { span })
        },
        came_of(
            BinaryOp::Mul,
            lhs,
            rhs,
            span,
            row,
            env,
            spent,
        ) == if i64::MIN <= x * y <= i64::MAX {
            Ok::<_, ExecErrorView>(ValueView::Int((x * y) as i64))
        } else {
            Err(ExecErrorView::Overflow { span })
        },
{
    let _ = lemma_strict(
        BinaryOp::Add,
        ValueView::Int(x),
        ValueView::Int(y),
        lhs,
        rhs,
        span,
        row,
        env,
        spent,
    );
    let _ = lemma_strict(
        BinaryOp::Sub,
        ValueView::Int(x),
        ValueView::Int(y),
        lhs,
        rhs,
        span,
        row,
        env,
        spent,
    );
    let _ = lemma_strict(
        BinaryOp::Mul,
        ValueView::Int(x),
        ValueView::Int(y),
        lhs,
        rhs,
        span,
        row,
        env,
        spent,
    );
}

/// How an integer quotient and remainder go with what was divided: together they
/// make it up, the remainder is smaller than the divisor, and it has the sign of
/// what was divided.
pub open spec fn divides(x: int, y: int, q: int, r: int) -> bool {
    &&& x == q * y + r
    &&& (if r < 0 {
        -r
    } else {
        r
    }) < (if y < 0 {
        -y
    } else {
        y
    })
    &&& r == 0 || (r < 0 <==> x < 0)
}

/// The quotient and the remainder of a division are the only ones that go with
/// it.
pub proof fn quotients_are_unique(x: int, y: int, q: int, r: int, p: int, s: int)
    requires
        y != 0,
        divides(x, y, q, r),
        divides(x, y, p, s),
    ensures
        q == p,
        r == s,
{
    assert((q - p) * y == s - r) by (nonlinear_arith)
        requires
            x == q * y + r,
            x == p * y + s,
    ;
    let d = q - p;
    if d != 0 {
        let w = s - r;
        if y > 0 {
            assert(w >= y || w <= -y) by (nonlinear_arith)
                requires
                    d * y == w,
                    d >= 1 || d <= -1,
                    y > 0,
            ;
        } else {
            assert(w >= -y || w <= y) by (nonlinear_arith)
                requires
                    d * y == w,
                    d >= 1 || d <= -1,
                    y < 0,
            ;
        }
    }
}

/// The quotient towards zero and its remainder go with the division.
proof fn lemma_truncating(x: int, y: int) -> (t: (int, int))
    requires
        y != 0,
    ensures
        divides(x, y, t.0, t.1),
        t.0 == (if x == 0 {
            0
        } else if x > 0 && y > 0 {
            x / y
        } else if x < 0 && y < 0 {
            (x * -1) / (y * -1)
        } else if x < 0 {
            ((x * -1) / y) * -1
        } else {
            (x / (y * -1)) * -1
        }),
        t.1 == (if x == 0 {
            0
        } else if x > 0 && y > 0 {
            x % y
        } else if x < 0 && y < 0 {
            ((x * -1) % (y * -1)) * -1
        } else if x < 0 {
            ((x * -1) % y) * -1
        } else {
            x % (y * -1)
        }),
        y == 1 ==> t.0 == x,
        y == -1 ==> t.0 == -x,
        !(-1 <= y <= 1) ==> -t.0 - t.0 <= (if x < 0 {
            -x
        } else {
            x
        }) && t.0 + t.0 <= (if x < 0 {
            -x
        } else {
            x
        }),
{
    let a = if x < 0 {
        -x
    } else {
        x
    };
    let b = if y < 0 {
        -y
    } else {
        y
    };
    vstd::arithmetic::div_mod::lemma_fundamental_div_mod(a, b);
    vstd::arithmetic::div_mod::lemma_mod_bound(a, b);
    let (q, r) = (a / b, a % b);
    assert(0 <= r < b);
    assert(b * q == q * b) by (nonlinear_arith);
    assert(x == 0 ==> q == 0) by (nonlinear_arith)
        requires
            a == q * b + r,
            x == 0 ==> a == 0,
            0 <= r < b,
    ;
    assert(
        (-q) * b == -(q * b) && (-q) * (-b) == q * b && q * (-b) == -(q * b)
    ) by (nonlinear_arith);
    assert(q >= 0) by (nonlinear_arith)
        requires
            a == q * b + r,
            a >= 0,
            0 <= r < b,
    ;
    if b == 1 {
        assert(q * 1 == q) by (nonlinear_arith);
    } else {
        assert(q + q <= a) by (nonlinear_arith)
            requires
                a == q * b + r,
                r >= 0,
                q >= 0,
                b >= 2,
        ;
    }
    if x >= 0 {
        if y > 0 {
            (q, r)
        } else {
            (-q, r)
        }
    } else if y > 0 {
        (-q, -r)
    } else {
        (q, -r)
    }
}

/// Integer division gives the quotient towards zero, `%` the remainder that goes with
/// it; dividing by zero is an error.
pub proof fn integers_divide(
    x: i64,
    y: i64,
    lhs: BoundExprView,
    rhs: BoundExprView,
    span: Span,
    row: Map<u32, ValueView>,
    env: Env,
    spent: Spent,
)
    requires
        come_to(ValueView::Int(x), ValueView::Int(y), lhs, rhs, row, env, spent),
    ensures
        y == 0 ==> came_of(BinaryOp::Div, lhs, rhs, span, row, env, spent) == Err::<ValueView, _>(ExecErrorView::DivisionByZero { span }) && came_of(BinaryOp::Mod, lhs, rhs, span, row, env, spent) == Err::<ValueView, _>(ExecErrorView::DivisionByZero { span }),
        y != 0 && !(x == i64::MIN && y == -1) ==> came_of(
            BinaryOp::Div,
            lhs,
            rhs,
            span,
            row,
            env,
            spent,
        ) is Ok && came_of(BinaryOp::Mod, lhs, rhs, span, row, env, spent) is Ok,
        y != 0 ==> (came_of(BinaryOp::Div, lhs, rhs, span, row, env, spent) matches Ok(ValueView::Int(q)) ==> exists|r: int| #[trigger] divides(x as int, y as int, q as int, r)),
        y != 0 ==> (came_of(BinaryOp::Mod, lhs, rhs, span, row, env, spent) matches Ok(ValueView::Int(r)) ==> exists|q: int| #[trigger] divides(x as int, y as int, q, r as int)),
        came_of(BinaryOp::Div, lhs, rhs, span, row, env, spent) matches Ok(v) ==> v is Int,
        came_of(BinaryOp::Mod, lhs, rhs, span, row, env, spent) matches Ok(v) ==> v is Int,
{
    let _ = lemma_strict(
        BinaryOp::Div,
        ValueView::Int(x),
        ValueView::Int(y),
        lhs,
        rhs,
        span,
        row,
        env,
        spent,
    );
    let _ = lemma_strict(
        BinaryOp::Mod,
        ValueView::Int(x),
        ValueView::Int(y),
        lhs,
        rhs,
        span,
        row,
        env,
        spent,
    );
    let (a, b) = (x as int, y as int);
    if b != 0 {
        let (q, r) = lemma_truncating(a, b);
        assert(divides(a, b, q, r));
        assert(x.checked_div(y) == if i64::MIN <= q <= i64::MAX {
            Some(q as i64)
        } else {
            None
        });
        assert(i64::MIN <= r <= i64::MAX) by {
            assert(r == 0 || (r < 0 <==> a < 0));
            assert(-0x8000_0000_0000_0000 < r < 0x8000_0000_0000_0000);
        }
        let quotient = came_of(BinaryOp::Div, lhs, rhs, span, row, env, spent);
        let remainder = came_of(BinaryOp::Mod, lhs, rhs, span, row, env, spent);
        if let Ok(ValueView::Int(k)) = quotient {
            assert(x.checked_div(y) == Some(k));
            assert(divides(x as int, y as int, k as int, r));
        }
        if let Ok(ValueView::Int(k)) = remainder {
            assert(x.checked_rem(y) == Some(k));
            assert(divides(x as int, y as int, q, k as int));
        }
    }
}

/// Integers compare by value.
pub proof fn integers_compare(
    x: i64,
    y: i64,
    lhs: BoundExprView,
    rhs: BoundExprView,
    span: Span,
    row: Map<u32, ValueView>,
    env: Env,
    spent: Spent,
)
    requires
        come_to(ValueView::Int(x), ValueView::Int(y), lhs, rhs, row, env, spent),
    ensures
        came_of(
            BinaryOp::Eq,
            lhs,
            rhs,
            span,
            row,
            env,
            spent,
        ) == Ok::<_, ExecErrorView>(ValueView::Bool(x == y)),
        came_of(
            BinaryOp::Ne,
            lhs,
            rhs,
            span,
            row,
            env,
            spent,
        ) == Ok::<_, ExecErrorView>(ValueView::Bool(x != y)),
        came_of(
            BinaryOp::Lt,
            lhs,
            rhs,
            span,
            row,
            env,
            spent,
        ) == Ok::<_, ExecErrorView>(ValueView::Bool(x < y)),
        came_of(
            BinaryOp::Le,
            lhs,
            rhs,
            span,
            row,
            env,
            spent,
        ) == Ok::<_, ExecErrorView>(ValueView::Bool(x <= y)),
        came_of(
            BinaryOp::Gt,
            lhs,
            rhs,
            span,
            row,
            env,
            spent,
        ) == Ok::<_, ExecErrorView>(ValueView::Bool(x > y)),
        came_of(
            BinaryOp::Ge,
            lhs,
            rhs,
            span,
            row,
            env,
            spent,
        ) == Ok::<_, ExecErrorView>(ValueView::Bool(x >= y)),
{
    let _ = lemma_strict(
        BinaryOp::Eq,
        ValueView::Int(x),
        ValueView::Int(y),
        lhs,
        rhs,
        span,
        row,
        env,
        spent,
    );
    let _ = lemma_strict(
        BinaryOp::Ne,
        ValueView::Int(x),
        ValueView::Int(y),
        lhs,
        rhs,
        span,
        row,
        env,
        spent,
    );
    let _ = lemma_strict(
        BinaryOp::Lt,
        ValueView::Int(x),
        ValueView::Int(y),
        lhs,
        rhs,
        span,
        row,
        env,
        spent,
    );
    let _ = lemma_strict(
        BinaryOp::Le,
        ValueView::Int(x),
        ValueView::Int(y),
        lhs,
        rhs,
        span,
        row,
        env,
        spent,
    );
    let _ = lemma_strict(
        BinaryOp::Gt,
        ValueView::Int(x),
        ValueView::Int(y),
        lhs,
        rhs,
        span,
        row,
        env,
        spent,
    );
    let _ = lemma_strict(
        BinaryOp::Ge,
        ValueView::Int(x),
        ValueView::Int(y),
        lhs,
        rhs,
        span,
        row,
        env,
        spent,
    );
    lemma_is_a_number(x);
    lemma_is_a_number(y);
}

// --- Floating-point numbers -------------------------------------------------------------------------

/// Each arithmetic operator on floating-point numbers gives what the same operation
/// on them gives, the left operand first.
pub proof fn floats_compute(
    x: u64,
    y: u64,
    z: u64,
    lhs: BoundExprView,
    rhs: BoundExprView,
    span: Span,
    row: Map<u32, ValueView>,
    env: Env,
    spent: Spent,
)
    requires
        come_to(ValueView::Float(x), ValueView::Float(y), lhs, rhs, row, env, spent),
    ensures
        answers(env, FloatOp::Add, x, y, z) ==> came_of(
            BinaryOp::Add,
            lhs,
            rhs,
            span,
            row,
            env,
            spent,
        ) == Ok::<_, ExecErrorView>(ValueView::Float(z)),
        answers(env, FloatOp::Sub, x, y, z) ==> came_of(
            BinaryOp::Sub,
            lhs,
            rhs,
            span,
            row,
            env,
            spent,
        ) == Ok::<_, ExecErrorView>(ValueView::Float(z)),
        answers(env, FloatOp::Mul, x, y, z) ==> came_of(
            BinaryOp::Mul,
            lhs,
            rhs,
            span,
            row,
            env,
            spent,
        ) == Ok::<_, ExecErrorView>(ValueView::Float(z)),
        answers(env, FloatOp::Div, x, y, z) ==> came_of(
            BinaryOp::Div,
            lhs,
            rhs,
            span,
            row,
            env,
            spent,
        ) == Ok::<_, ExecErrorView>(ValueView::Float(z)),
        answers(env, FloatOp::Rem, x, y, z) ==> came_of(
            BinaryOp::Mod,
            lhs,
            rhs,
            span,
            row,
            env,
            spent,
        ) == Ok::<_, ExecErrorView>(ValueView::Float(z)),
        answers(env, FloatOp::Pow, x, y, z) ==> came_of(
            BinaryOp::Pow,
            lhs,
            rhs,
            span,
            row,
            env,
            spent,
        ) == Ok::<_, ExecErrorView>(ValueView::Float(z)),
        came_of(BinaryOp::Add, lhs, rhs, span, row, env, spent) matches Err(e) ==> e == (ExecErrorView::FloatPending {
            request: FloatRequestView::Binary { op: FloatOp::Add, a: x, b: y },
            span,
        }),
        came_of(BinaryOp::Sub, lhs, rhs, span, row, env, spent) matches Err(e) ==> e == (ExecErrorView::FloatPending {
            request: FloatRequestView::Binary { op: FloatOp::Sub, a: x, b: y },
            span,
        }),
        came_of(BinaryOp::Mul, lhs, rhs, span, row, env, spent) matches Err(e) ==> e == (ExecErrorView::FloatPending {
            request: FloatRequestView::Binary { op: FloatOp::Mul, a: x, b: y },
            span,
        }),
        came_of(BinaryOp::Div, lhs, rhs, span, row, env, spent) matches Err(e) ==> e == (ExecErrorView::FloatPending {
            request: FloatRequestView::Binary { op: FloatOp::Div, a: x, b: y },
            span,
        }),
        came_of(BinaryOp::Mod, lhs, rhs, span, row, env, spent) matches Err(e) ==> e == (ExecErrorView::FloatPending {
            request: FloatRequestView::Binary { op: FloatOp::Rem, a: x, b: y },
            span,
        }),
        came_of(BinaryOp::Pow, lhs, rhs, span, row, env, spent) matches Err(e) ==> e == (ExecErrorView::FloatPending {
            request: FloatRequestView::Binary { op: FloatOp::Pow, a: x, b: y },
            span,
        }),
{
    let _ = lemma_strict(
        BinaryOp::Add,
        ValueView::Float(x),
        ValueView::Float(y),
        lhs,
        rhs,
        span,
        row,
        env,
        spent,
    );
    let _ = lemma_strict(
        BinaryOp::Sub,
        ValueView::Float(x),
        ValueView::Float(y),
        lhs,
        rhs,
        span,
        row,
        env,
        spent,
    );
    let _ = lemma_strict(
        BinaryOp::Mul,
        ValueView::Float(x),
        ValueView::Float(y),
        lhs,
        rhs,
        span,
        row,
        env,
        spent,
    );
    let _ = lemma_strict(
        BinaryOp::Div,
        ValueView::Float(x),
        ValueView::Float(y),
        lhs,
        rhs,
        span,
        row,
        env,
        spent,
    );
    let _ = lemma_strict(
        BinaryOp::Mod,
        ValueView::Float(x),
        ValueView::Float(y),
        lhs,
        rhs,
        span,
        row,
        env,
        spent,
    );
    let _ = lemma_strict(
        BinaryOp::Pow,
        ValueView::Float(x),
        ValueView::Float(y),
        lhs,
        rhs,
        span,
        row,
        env,
        spent,
    );
}

/// An integer beside a floating-point number is taken as the floating-point number of
/// its value; `^` takes both so.
pub proof fn integers_beside_floats_convert(
    x: i64,
    y: u64,
    z: u64,
    lhs: BoundExprView,
    rhs: BoundExprView,
    span: Span,
    row: Map<u32, ValueView>,
    env: Env,
    spent: Spent,
)
    requires
        come_to(ValueView::Int(x), ValueView::Float(y), lhs, rhs, row, env, spent),
    ensures
        answers(env, FloatOp::Add, float::of_int(x as int) as u64, y, z) ==> came_of(
            BinaryOp::Add,
            lhs,
            rhs,
            span,
            row,
            env,
            spent,
        ) == Ok::<_, ExecErrorView>(ValueView::Float(z)),
        answers(env, FloatOp::Sub, float::of_int(x as int) as u64, y, z) ==> came_of(
            BinaryOp::Sub,
            lhs,
            rhs,
            span,
            row,
            env,
            spent,
        ) == Ok::<_, ExecErrorView>(ValueView::Float(z)),
        answers(env, FloatOp::Mul, float::of_int(x as int) as u64, y, z) ==> came_of(
            BinaryOp::Mul,
            lhs,
            rhs,
            span,
            row,
            env,
            spent,
        ) == Ok::<_, ExecErrorView>(ValueView::Float(z)),
        answers(env, FloatOp::Div, float::of_int(x as int) as u64, y, z) ==> came_of(
            BinaryOp::Div,
            lhs,
            rhs,
            span,
            row,
            env,
            spent,
        ) == Ok::<_, ExecErrorView>(ValueView::Float(z)),
        answers(env, FloatOp::Rem, float::of_int(x as int) as u64, y, z) ==> came_of(
            BinaryOp::Mod,
            lhs,
            rhs,
            span,
            row,
            env,
            spent,
        ) == Ok::<_, ExecErrorView>(ValueView::Float(z)),
        answers(env, FloatOp::Pow, float::of_int(x as int) as u64, y, z) ==> came_of(
            BinaryOp::Pow,
            lhs,
            rhs,
            span,
            row,
            env,
            spent,
        ) == Ok::<_, ExecErrorView>(ValueView::Float(z)),
{
    let _ = lemma_strict(
        BinaryOp::Add,
        ValueView::Int(x),
        ValueView::Float(y),
        lhs,
        rhs,
        span,
        row,
        env,
        spent,
    );
    let _ = lemma_strict(
        BinaryOp::Sub,
        ValueView::Int(x),
        ValueView::Float(y),
        lhs,
        rhs,
        span,
        row,
        env,
        spent,
    );
    let _ = lemma_strict(
        BinaryOp::Mul,
        ValueView::Int(x),
        ValueView::Float(y),
        lhs,
        rhs,
        span,
        row,
        env,
        spent,
    );
    let _ = lemma_strict(
        BinaryOp::Div,
        ValueView::Int(x),
        ValueView::Float(y),
        lhs,
        rhs,
        span,
        row,
        env,
        spent,
    );
    let _ = lemma_strict(
        BinaryOp::Mod,
        ValueView::Int(x),
        ValueView::Float(y),
        lhs,
        rhs,
        span,
        row,
        env,
        spent,
    );
    let _ = lemma_strict(
        BinaryOp::Pow,
        ValueView::Int(x),
        ValueView::Float(y),
        lhs,
        rhs,
        span,
        row,
        env,
        spent,
    );
}

/// As [`integers_beside_floats_convert`], with the integer on the right.
pub proof fn floats_beside_integers_convert(
    x: u64,
    y: i64,
    z: u64,
    lhs: BoundExprView,
    rhs: BoundExprView,
    span: Span,
    row: Map<u32, ValueView>,
    env: Env,
    spent: Spent,
)
    requires
        come_to(ValueView::Float(x), ValueView::Int(y), lhs, rhs, row, env, spent),
    ensures
        answers(env, FloatOp::Add, x, float::of_int(y as int) as u64, z) ==> came_of(
            BinaryOp::Add,
            lhs,
            rhs,
            span,
            row,
            env,
            spent,
        ) == Ok::<_, ExecErrorView>(ValueView::Float(z)),
        answers(env, FloatOp::Sub, x, float::of_int(y as int) as u64, z) ==> came_of(
            BinaryOp::Sub,
            lhs,
            rhs,
            span,
            row,
            env,
            spent,
        ) == Ok::<_, ExecErrorView>(ValueView::Float(z)),
        answers(env, FloatOp::Mul, x, float::of_int(y as int) as u64, z) ==> came_of(
            BinaryOp::Mul,
            lhs,
            rhs,
            span,
            row,
            env,
            spent,
        ) == Ok::<_, ExecErrorView>(ValueView::Float(z)),
        answers(env, FloatOp::Div, x, float::of_int(y as int) as u64, z) ==> came_of(
            BinaryOp::Div,
            lhs,
            rhs,
            span,
            row,
            env,
            spent,
        ) == Ok::<_, ExecErrorView>(ValueView::Float(z)),
        answers(env, FloatOp::Rem, x, float::of_int(y as int) as u64, z) ==> came_of(
            BinaryOp::Mod,
            lhs,
            rhs,
            span,
            row,
            env,
            spent,
        ) == Ok::<_, ExecErrorView>(ValueView::Float(z)),
        answers(env, FloatOp::Pow, x, float::of_int(y as int) as u64, z) ==> came_of(
            BinaryOp::Pow,
            lhs,
            rhs,
            span,
            row,
            env,
            spent,
        ) == Ok::<_, ExecErrorView>(ValueView::Float(z)),
{
    let _ = lemma_strict(
        BinaryOp::Add,
        ValueView::Float(x),
        ValueView::Int(y),
        lhs,
        rhs,
        span,
        row,
        env,
        spent,
    );
    let _ = lemma_strict(
        BinaryOp::Sub,
        ValueView::Float(x),
        ValueView::Int(y),
        lhs,
        rhs,
        span,
        row,
        env,
        spent,
    );
    let _ = lemma_strict(
        BinaryOp::Mul,
        ValueView::Float(x),
        ValueView::Int(y),
        lhs,
        rhs,
        span,
        row,
        env,
        spent,
    );
    let _ = lemma_strict(
        BinaryOp::Div,
        ValueView::Float(x),
        ValueView::Int(y),
        lhs,
        rhs,
        span,
        row,
        env,
        spent,
    );
    let _ = lemma_strict(
        BinaryOp::Mod,
        ValueView::Float(x),
        ValueView::Int(y),
        lhs,
        rhs,
        span,
        row,
        env,
        spent,
    );
    let _ = lemma_strict(
        BinaryOp::Pow,
        ValueView::Float(x),
        ValueView::Int(y),
        lhs,
        rhs,
        span,
        row,
        env,
        spent,
    );
}

/// A power of integers is the floating-point power of their values.
pub proof fn integer_powers_are_floats(
    x: i64,
    y: i64,
    z: u64,
    lhs: BoundExprView,
    rhs: BoundExprView,
    span: Span,
    row: Map<u32, ValueView>,
    env: Env,
    spent: Spent,
)
    requires
        come_to(ValueView::Int(x), ValueView::Int(y), lhs, rhs, row, env, spent),
    ensures
        answers(env, FloatOp::Pow, float::of_int(x as int) as u64, float::of_int(y as int) as u64, z) ==> came_of(BinaryOp::Pow, lhs, rhs, span, row, env, spent) == Ok::<_, ExecErrorView>(ValueView::Float(z)),
        came_of(BinaryOp::Pow, lhs, rhs, span, row, env, spent) matches Ok(v) ==> v is Float,
{
    let _ = lemma_strict(
        BinaryOp::Pow,
        ValueView::Int(x),
        ValueView::Int(y),
        lhs,
        rhs,
        span,
        row,
        env,
        spent,
    );
}

/// Floating-point numbers compare by their exact values; NaN equals nothing and is
/// neither less nor greater.
pub proof fn floats_compare(
    x: u64,
    y: u64,
    lhs: BoundExprView,
    rhs: BoundExprView,
    span: Span,
    row: Map<u32, ValueView>,
    env: Env,
    spent: Spent,
)
    requires
        come_to(ValueView::Float(x), ValueView::Float(y), lhs, rhs, row, env, spent),
    ensures
        came_of(BinaryOp::Eq, lhs, rhs, span, row, env, spent) == Ok::<_, ExecErrorView>(
            ValueView::Bool(
                !float::is_nan(x) && !float::is_nan(y) && exact::exact(x) == exact::exact(y),
            )
        ),
        came_of(BinaryOp::Lt, lhs, rhs, span, row, env, spent) == Ok::<_, ExecErrorView>(
            ValueView::Bool(
                !float::is_nan(x) && !float::is_nan(y) && exact::exact(x) < exact::exact(y),
            )
        ),
        came_of(BinaryOp::Le, lhs, rhs, span, row, env, spent) == Ok::<_, ExecErrorView>(
            ValueView::Bool(
                !float::is_nan(x) && !float::is_nan(y) && exact::exact(x) <= exact::exact(y),
            )
        ),
        came_of(BinaryOp::Gt, lhs, rhs, span, row, env, spent) == Ok::<_, ExecErrorView>(
            ValueView::Bool(
                !float::is_nan(x) && !float::is_nan(y) && exact::exact(x) > exact::exact(y),
            )
        ),
        came_of(BinaryOp::Ge, lhs, rhs, span, row, env, spent) == Ok::<_, ExecErrorView>(
            ValueView::Bool(
                !float::is_nan(x) && !float::is_nan(y) && exact::exact(x) >= exact::exact(y),
            )
        ),
        came_of(BinaryOp::Ne, lhs, rhs, span, row, env, spent) == Ok::<_, ExecErrorView>(
            ValueView::Bool(
                float::is_nan(x) || float::is_nan(y) || exact::exact(x) != exact::exact(y),
            )
        ),
{
    let _ = lemma_strict(
        BinaryOp::Eq,
        ValueView::Float(x),
        ValueView::Float(y),
        lhs,
        rhs,
        span,
        row,
        env,
        spent,
    );
    let _ = lemma_strict(
        BinaryOp::Lt,
        ValueView::Float(x),
        ValueView::Float(y),
        lhs,
        rhs,
        span,
        row,
        env,
        spent,
    );
    let _ = lemma_strict(
        BinaryOp::Le,
        ValueView::Float(x),
        ValueView::Float(y),
        lhs,
        rhs,
        span,
        row,
        env,
        spent,
    );
    let _ = lemma_strict(
        BinaryOp::Gt,
        ValueView::Float(x),
        ValueView::Float(y),
        lhs,
        rhs,
        span,
        row,
        env,
        spent,
    );
    let _ = lemma_strict(
        BinaryOp::Ge,
        ValueView::Float(x),
        ValueView::Float(y),
        lhs,
        rhs,
        span,
        row,
        env,
        spent,
    );
    let _ = lemma_strict(
        BinaryOp::Ne,
        ValueView::Float(x),
        ValueView::Float(y),
        lhs,
        rhs,
        span,
        row,
        env,
        spent,
    );
    exact::patterns_order_by_value(x, y);
    exact::patterns_order_by_value(y, x);
}

// --- Comparing --------------------------------------------------------------------------------------

/// Whether `s` comes before `t`: they are the same up to some place where `s` ends
/// and `t` does not, or where `s` has the smaller character.
pub open spec fn text_before(s: Seq<char>, t: Seq<char>) -> bool {
    exists|k: int|
        0 <= k <= s.len() && k < t.len() && #[trigger] s.take(k) == t.take(k) && (k == s.len()
            || s[k] < t[k])
}

pub(crate) proof fn lemma_text_before(s: Seq<char>, t: Seq<char>, i: int)
    requires
        0 <= i <= s.len(),
        i <= t.len(),
        s.take(i) == t.take(i),
    ensures
        value::text_order_from(s, t, i) == Order::Less ==> text_before(s, t),
        value::text_order_from(s, t, i) == Order::Greater ==> text_before(t, s),
        value::text_order_from(s, t, i) == Order::Equal ==> s == t,
    decreases s.len() - i,
{
    if i < s.len() && i < t.len() {
        if s[i] == t[i] {
            assert(s.take(i + 1) =~= s.take(i).push(s[i]));
            assert(t.take(i + 1) =~= t.take(i).push(t[i]));
            lemma_text_before(s, t, i + 1);
        } else {
            assert(s.take(i) == t.take(i));
        }
    } else {
        assert(s.take(i) == t.take(i));
        if s.len() == t.len() {
            assert(s =~= s.take(i));
            assert(t =~= t.take(i));
        }
    }
}

pub(crate) proof fn lemma_not_both_before(s: Seq<char>, t: Seq<char>)
    ensures
        !(text_before(s, t) && text_before(t, s)),
        !text_before(s, s),
{
    if text_before(s, s) {
        let k = choose|k: int|
            0 <= k <= s.len() && k < s.len() && #[trigger] s.take(k) == s.take(k) && (k == s.len()
                || s[k] < s[k]);
    }
    if text_before(s, t) && text_before(t, s) {
        let j = choose|k: int|
            0 <= k <= s.len() && k < t.len() && #[trigger] s.take(k) == t.take(k) && (k == s.len()
                || s[k] < t[k]);
        let k = choose|k: int|
            0 <= k <= t.len() && k < s.len() && #[trigger] t.take(k) == s.take(k) && (k == t.len()
                || t[k] < s[k]);
        if j < k {
            assert(s.take(k)[j] == t.take(k)[j]);
        } else if k < j {
            assert(s.take(j)[k] == t.take(j)[k]);
        }
    }
}

/// Texts compare character by character, and a text comes before what goes on behind
/// it.
pub proof fn texts_compare(
    s: Seq<char>,
    t: Seq<char>,
    lhs: BoundExprView,
    rhs: BoundExprView,
    span: Span,
    row: Map<u32, ValueView>,
    env: Env,
    spent: Spent,
)
    requires
        come_to(ValueView::String(s), ValueView::String(t), lhs, rhs, row, env, spent),
    ensures
        came_of(
            BinaryOp::Eq,
            lhs,
            rhs,
            span,
            row,
            env,
            spent,
        ) == Ok::<_, ExecErrorView>(ValueView::Bool(s == t)),
        came_of(
            BinaryOp::Ne,
            lhs,
            rhs,
            span,
            row,
            env,
            spent,
        ) == Ok::<_, ExecErrorView>(ValueView::Bool(s != t)),
        came_of(
            BinaryOp::Lt,
            lhs,
            rhs,
            span,
            row,
            env,
            spent,
        ) == Ok::<_, ExecErrorView>(ValueView::Bool(text_before(s, t))),
        came_of(
            BinaryOp::Gt,
            lhs,
            rhs,
            span,
            row,
            env,
            spent,
        ) == Ok::<_, ExecErrorView>(ValueView::Bool(text_before(t, s))),
        came_of(
            BinaryOp::Le,
            lhs,
            rhs,
            span,
            row,
            env,
            spent,
        ) == Ok::<_, ExecErrorView>(ValueView::Bool(!text_before(t, s))),
        came_of(
            BinaryOp::Ge,
            lhs,
            rhs,
            span,
            row,
            env,
            spent,
        ) == Ok::<_, ExecErrorView>(ValueView::Bool(!text_before(s, t))),
{
    let _ = lemma_strict(
        BinaryOp::Eq,
        ValueView::String(s),
        ValueView::String(t),
        lhs,
        rhs,
        span,
        row,
        env,
        spent,
    );
    let _ = lemma_strict(
        BinaryOp::Ne,
        ValueView::String(s),
        ValueView::String(t),
        lhs,
        rhs,
        span,
        row,
        env,
        spent,
    );
    let _ = lemma_strict(
        BinaryOp::Lt,
        ValueView::String(s),
        ValueView::String(t),
        lhs,
        rhs,
        span,
        row,
        env,
        spent,
    );
    let _ = lemma_strict(
        BinaryOp::Gt,
        ValueView::String(s),
        ValueView::String(t),
        lhs,
        rhs,
        span,
        row,
        env,
        spent,
    );
    let _ = lemma_strict(
        BinaryOp::Le,
        ValueView::String(s),
        ValueView::String(t),
        lhs,
        rhs,
        span,
        row,
        env,
        spent,
    );
    let _ = lemma_strict(
        BinaryOp::Ge,
        ValueView::String(s),
        ValueView::String(t),
        lhs,
        rhs,
        span,
        row,
        env,
        spent,
    );
    assert(s.take(0) =~= t.take(0));
    lemma_text_before(s, t, 0);
    lemma_not_both_before(s, t);
    if s == t {
        lemma_not_both_before(s, s);
    }
}

/// Booleans compare with false before true.
pub proof fn booleans_compare(
    x: bool,
    y: bool,
    lhs: BoundExprView,
    rhs: BoundExprView,
    span: Span,
    row: Map<u32, ValueView>,
    env: Env,
    spent: Spent,
)
    requires
        come_to(ValueView::Bool(x), ValueView::Bool(y), lhs, rhs, row, env, spent),
    ensures
        came_of(
            BinaryOp::Eq,
            lhs,
            rhs,
            span,
            row,
            env,
            spent,
        ) == Ok::<_, ExecErrorView>(ValueView::Bool(x == y)),
        came_of(
            BinaryOp::Ne,
            lhs,
            rhs,
            span,
            row,
            env,
            spent,
        ) == Ok::<_, ExecErrorView>(ValueView::Bool(x != y)),
        came_of(
            BinaryOp::Lt,
            lhs,
            rhs,
            span,
            row,
            env,
            spent,
        ) == Ok::<_, ExecErrorView>(ValueView::Bool(!x && y)),
        came_of(
            BinaryOp::Le,
            lhs,
            rhs,
            span,
            row,
            env,
            spent,
        ) == Ok::<_, ExecErrorView>(ValueView::Bool(!x || y)),
        came_of(
            BinaryOp::Gt,
            lhs,
            rhs,
            span,
            row,
            env,
            spent,
        ) == Ok::<_, ExecErrorView>(ValueView::Bool(x && !y)),
        came_of(
            BinaryOp::Ge,
            lhs,
            rhs,
            span,
            row,
            env,
            spent,
        ) == Ok::<_, ExecErrorView>(ValueView::Bool(x || !y)),
{
    let _ = lemma_strict(
        BinaryOp::Eq,
        ValueView::Bool(x),
        ValueView::Bool(y),
        lhs,
        rhs,
        span,
        row,
        env,
        spent,
    );
    let _ = lemma_strict(
        BinaryOp::Ne,
        ValueView::Bool(x),
        ValueView::Bool(y),
        lhs,
        rhs,
        span,
        row,
        env,
        spent,
    );
    let _ = lemma_strict(
        BinaryOp::Lt,
        ValueView::Bool(x),
        ValueView::Bool(y),
        lhs,
        rhs,
        span,
        row,
        env,
        spent,
    );
    let _ = lemma_strict(
        BinaryOp::Le,
        ValueView::Bool(x),
        ValueView::Bool(y),
        lhs,
        rhs,
        span,
        row,
        env,
        spent,
    );
    let _ = lemma_strict(
        BinaryOp::Gt,
        ValueView::Bool(x),
        ValueView::Bool(y),
        lhs,
        rhs,
        span,
        row,
        env,
        spent,
    );
    let _ = lemma_strict(
        BinaryOp::Ge,
        ValueView::Bool(x),
        ValueView::Bool(y),
        lhs,
        rhs,
        span,
        row,
        env,
        spent,
    );
}

/// Nodes, and relationships, are equal by identity alone.
pub proof fn entities_are_equal_by_identity(
    x: NodeValueView,
    y: NodeValueView,
    r: RelValueView,
    s: RelValueView,
    nodes: bool,
    lhs: BoundExprView,
    rhs: BoundExprView,
    span: Span,
    row: Map<u32, ValueView>,
    env: Env,
    spent: Spent,
)
    requires
        come_to(if nodes {
            ValueView::Node(x)
        } else {
            ValueView::Relationship(r)
        }, if nodes {
            ValueView::Node(y)
        } else {
            ValueView::Relationship(s)
        }, lhs, rhs, row, env, spent),
    ensures
        came_of(BinaryOp::Eq, lhs, rhs, span, row, env, spent) == Ok::<_, ExecErrorView>(
            ValueView::Bool(if nodes { x.id == y.id } else { r.id == s.id })
        ),
        came_of(BinaryOp::Ne, lhs, rhs, span, row, env, spent) == Ok::<_, ExecErrorView>(
            ValueView::Bool(if nodes { x.id != y.id } else { r.id != s.id })
        ),
        came_of(
            BinaryOp::Lt,
            lhs,
            rhs,
            span,
            row,
            env,
            spent,
        ) == Ok::<_, ExecErrorView>(ValueView::Null),
{
    let _ = lemma_strict(BinaryOp::Eq, if nodes {
            ValueView::Node(x)
        } else {
            ValueView::Relationship(r)
        }, if nodes {
            ValueView::Node(y)
        } else {
            ValueView::Relationship(s)
        }, lhs, rhs, span, row, env, spent);
    let _ = lemma_strict(BinaryOp::Ne, if nodes {
            ValueView::Node(x)
        } else {
            ValueView::Relationship(r)
        }, if nodes {
            ValueView::Node(y)
        } else {
            ValueView::Relationship(s)
        }, lhs, rhs, span, row, env, spent);
    let _ = lemma_strict(BinaryOp::Lt, if nodes {
            ValueView::Node(x)
        } else {
            ValueView::Relationship(r)
        }, if nodes {
            ValueView::Node(y)
        } else {
            ValueView::Relationship(s)
        }, lhs, rhs, span, row, env, spent);
}

/// Null compares with nothing, and arithmetic with null is null.
pub proof fn null_makes_unknown(
    a: ValueView,
    b: ValueView,
    lhs: BoundExprView,
    rhs: BoundExprView,
    span: Span,
    row: Map<u32, ValueView>,
    env: Env,
    spent: Spent,
)
    requires
        come_to(a, b, lhs, rhs, row, env, spent),
    ensures
        a is Null || b is Null ==> came_of(
            BinaryOp::Eq,
            lhs,
            rhs,
            span,
            row,
            env,
            spent,
        ) == Ok::<_, ExecErrorView>(ValueView::Null),
        a is Null || b is Null ==> came_of(
            BinaryOp::Ne,
            lhs,
            rhs,
            span,
            row,
            env,
            spent,
        ) == Ok::<_, ExecErrorView>(ValueView::Null),
        a is Null || b is Null ==> came_of(
            BinaryOp::Lt,
            lhs,
            rhs,
            span,
            row,
            env,
            spent,
        ) == Ok::<_, ExecErrorView>(ValueView::Null),
        a is Null || b is Null ==> came_of(
            BinaryOp::Le,
            lhs,
            rhs,
            span,
            row,
            env,
            spent,
        ) == Ok::<_, ExecErrorView>(ValueView::Null),
        a is Null || b is Null ==> came_of(
            BinaryOp::Gt,
            lhs,
            rhs,
            span,
            row,
            env,
            spent,
        ) == Ok::<_, ExecErrorView>(ValueView::Null),
        a is Null || b is Null ==> came_of(
            BinaryOp::Ge,
            lhs,
            rhs,
            span,
            row,
            env,
            spent,
        ) == Ok::<_, ExecErrorView>(ValueView::Null),
        a is Null || b is Null ==> came_of(
            BinaryOp::Add,
            lhs,
            rhs,
            span,
            row,
            env,
            spent,
        ) == Ok::<_, ExecErrorView>(ValueView::Null),
        a is Null || b is Null ==> came_of(
            BinaryOp::Sub,
            lhs,
            rhs,
            span,
            row,
            env,
            spent,
        ) == Ok::<_, ExecErrorView>(ValueView::Null),
        a is Null || b is Null ==> came_of(
            BinaryOp::Mul,
            lhs,
            rhs,
            span,
            row,
            env,
            spent,
        ) == Ok::<_, ExecErrorView>(ValueView::Null),
        a is Null || b is Null ==> came_of(
            BinaryOp::Div,
            lhs,
            rhs,
            span,
            row,
            env,
            spent,
        ) == Ok::<_, ExecErrorView>(ValueView::Null),
        a is Null || b is Null ==> came_of(
            BinaryOp::Mod,
            lhs,
            rhs,
            span,
            row,
            env,
            spent,
        ) == Ok::<_, ExecErrorView>(ValueView::Null),
        a is Null || b is Null ==> came_of(
            BinaryOp::Pow,
            lhs,
            rhs,
            span,
            row,
            env,
            spent,
        ) == Ok::<_, ExecErrorView>(ValueView::Null),
{
    let _ = lemma_strict(BinaryOp::Eq, a, b, lhs, rhs, span, row, env, spent);
    let _ = lemma_strict(BinaryOp::Ne, a, b, lhs, rhs, span, row, env, spent);
    let _ = lemma_strict(BinaryOp::Lt, a, b, lhs, rhs, span, row, env, spent);
    let _ = lemma_strict(BinaryOp::Le, a, b, lhs, rhs, span, row, env, spent);
    let _ = lemma_strict(BinaryOp::Gt, a, b, lhs, rhs, span, row, env, spent);
    let _ = lemma_strict(BinaryOp::Ge, a, b, lhs, rhs, span, row, env, spent);
    let _ = lemma_strict(BinaryOp::Add, a, b, lhs, rhs, span, row, env, spent);
    let _ = lemma_strict(BinaryOp::Sub, a, b, lhs, rhs, span, row, env, spent);
    let _ = lemma_strict(BinaryOp::Mul, a, b, lhs, rhs, span, row, env, spent);
    let _ = lemma_strict(BinaryOp::Div, a, b, lhs, rhs, span, row, env, spent);
    let _ = lemma_strict(BinaryOp::Mod, a, b, lhs, rhs, span, row, env, spent);
    let _ = lemma_strict(BinaryOp::Pow, a, b, lhs, rhs, span, row, env, spent);
}

/// The kinds of values that compare with each other, apart from null.
pub open spec fn kind(v: ValueView) -> int {
    match v {
        ValueView::Null => 0,
        ValueView::Bool(_) => 1,
        ValueView::Int(_) => 2,
        ValueView::Float(_) => 2,
        ValueView::String(_) => 3,
        ValueView::Stored(_) => 3,
        ValueView::List(_) => 4,
        ValueView::Mapping(_) => 5,
        ValueView::Node(_) => 6,
        ValueView::Relationship(_) => 7,
        ValueView::Path(_) => 8,
    }
}

/// Values of different kinds are not equal, and neither comes before the other.
pub proof fn different_kinds_do_not_compare(
    a: ValueView,
    b: ValueView,
    lhs: BoundExprView,
    rhs: BoundExprView,
    span: Span,
    row: Map<u32, ValueView>,
    env: Env,
    spent: Spent,
)
    requires
        come_to(a, b, lhs, rhs, row, env, spent),
    ensures
        !(a is Null) && !(b is Null) && kind(a) != kind(b) ==> came_of(BinaryOp::Eq, lhs, rhs, span, row, env, spent) == Ok::<_, ExecErrorView>(ValueView::Bool(false)) && came_of(BinaryOp::Ne, lhs, rhs, span, row, env, spent) == Ok::<_, ExecErrorView>(ValueView::Bool(true)),
        !(a is Null) && !(b is Null) && kind(a) != kind(b) ==> came_of(
            BinaryOp::Lt,
            lhs,
            rhs,
            span,
            row,
            env,
            spent,
        ) == Ok::<_, ExecErrorView>(ValueView::Null),
        !(a is Null) && !(b is Null) && kind(a) != kind(b) ==> came_of(
            BinaryOp::Le,
            lhs,
            rhs,
            span,
            row,
            env,
            spent,
        ) == Ok::<_, ExecErrorView>(ValueView::Null),
        !(a is Null) && !(b is Null) && kind(a) != kind(b) ==> came_of(
            BinaryOp::Gt,
            lhs,
            rhs,
            span,
            row,
            env,
            spent,
        ) == Ok::<_, ExecErrorView>(ValueView::Null),
        !(a is Null) && !(b is Null) && kind(a) != kind(b) ==> came_of(
            BinaryOp::Ge,
            lhs,
            rhs,
            span,
            row,
            env,
            spent,
        ) == Ok::<_, ExecErrorView>(ValueView::Null),
{
    let _ = lemma_strict(BinaryOp::Eq, a, b, lhs, rhs, span, row, env, spent);
    let _ = lemma_strict(BinaryOp::Ne, a, b, lhs, rhs, span, row, env, spent);
    let _ = lemma_strict(BinaryOp::Lt, a, b, lhs, rhs, span, row, env, spent);
    let _ = lemma_strict(BinaryOp::Le, a, b, lhs, rhs, span, row, env, spent);
    let _ = lemma_strict(BinaryOp::Gt, a, b, lhs, rhs, span, row, env, spent);
    let _ = lemma_strict(BinaryOp::Ge, a, b, lhs, rhs, span, row, env, spent);
}

/// `<>` says the opposite of `=`, and is unknown where that is.
pub proof fn inequality_negates_equality(
    a: ValueView,
    b: ValueView,
    lhs: BoundExprView,
    rhs: BoundExprView,
    span: Span,
    row: Map<u32, ValueView>,
    env: Env,
    spent: Spent,
)
    requires
        come_to(a, b, lhs, rhs, row, env, spent),
    ensures
        came_of(BinaryOp::Eq, lhs, rhs, span, row, env, spent) matches Ok(ValueView::Bool(x)) ==> came_of(BinaryOp::Ne, lhs, rhs, span, row, env, spent) == Ok::<_, ExecErrorView>(ValueView::Bool(!x)),
        came_of(BinaryOp::Eq, lhs, rhs, span, row, env, spent) == Ok::<_, ExecErrorView>(ValueView::Null) ==> came_of(BinaryOp::Ne, lhs, rhs, span, row, env, spent) == Ok::<_, ExecErrorView>(ValueView::Null),
        came_of(
            BinaryOp::Eq,
            lhs,
            rhs,
            span,
            row,
            env,
            spent,
        ) matches Ok(v) ==> v is Bool || v is Null,
        came_of(BinaryOp::Eq, lhs, rhs, span, row, env, spent) is Ok,
{
    let _ = lemma_strict(BinaryOp::Eq, a, b, lhs, rhs, span, row, env, spent);
    let _ = lemma_strict(BinaryOp::Ne, a, b, lhs, rhs, span, row, env, spent);
}

/// Lists are equal where they are of one length and all their elements are equal;
/// they are not where the lengths differ or a pair of elements is not; otherwise it
/// is unknown.
pub proof fn lists_are_equal_by_elements(xs: Seq<ValueView>, ys: Seq<ValueView>)
    ensures
        ({
            let e = compare::equality(ValueView::List(xs), ValueView::List(ys));
            &&& e == Some(true) <==> xs.len() == ys.len() && forall|i: int|
                0 <= i < xs.len() ==> #[trigger] compare::equality(xs[i], ys[i]) == Some(true)
            &&& e == Some(false) <==> xs.len() != ys.len() || exists|i: int|
                0 <= i < xs.len() && #[trigger] compare::equality(xs[i], ys[i]) == Some(false)
        }),
{
    if xs.len() == ys.len() {
        lemma_all_equal(xs, ys, xs.len());
    }
}

proof fn lemma_all_equal(xs: Seq<ValueView>, ys: Seq<ValueView>, n: nat)
    requires
        n <= xs.len(),
        xs.len() == ys.len(),
    ensures
        compare::all_equal(xs, ys, n) == Some(true) <==> forall|i: int|
            0 <= i < n ==> #[trigger] compare::equality(xs[i], ys[i]) == Some(true),
        compare::all_equal(xs, ys, n) == Some(false) <==> exists|i: int|
            0 <= i < n && #[trigger] compare::equality(xs[i], ys[i]) == Some(false),
    decreases n,
{
    if n > 0 {
        lemma_all_equal(xs, ys, (n - 1) as nat);
        let e = compare::equality(xs[n - 1], ys[n - 1]);
        assert(e == compare::equality(xs[n - 1], ys[n - 1]));
    }
}

/// `x IN xs` is true where an element equals `x`, unknown where none does but one may,
/// and false otherwise.
pub proof fn in_looks_for_an_equal_element(
    x: ValueView,
    xs: Seq<ValueView>,
    lhs: BoundExprView,
    rhs: BoundExprView,
    span: Span,
    row: Map<u32, ValueView>,
    env: Env,
    spent: Spent,
)
    requires
        come_to(x, ValueView::List(xs), lhs, rhs, row, env, spent),
    ensures
        came_of(BinaryOp::In, lhs, rhs, span, row, env, spent) == Ok::<_, ExecErrorView>(ValueView::Bool(true)) <==> exists|i: int| 0 <= i < xs.len() && #[trigger] compare::equality(compare::decayed(x), xs[i]) == Some(true),
        came_of(BinaryOp::In, lhs, rhs, span, row, env, spent) == Ok::<_, ExecErrorView>(ValueView::Bool(false)) <==> forall|i: int| 0 <= i < xs.len() ==> #[trigger] compare::equality(compare::decayed(x), xs[i]) == Some(false),
        came_of(
            BinaryOp::In,
            lhs,
            rhs,
            span,
            row,
            env,
            spent,
        ) matches Ok(v) ==> v is Bool || v is Null,
        came_of(BinaryOp::In, lhs, rhs, span, row, env, spent) is Ok,
{
    let _ = lemma_strict(BinaryOp::In, x, ValueView::List(xs), lhs, rhs, span, row, env, spent);
}

// --- Truth ------------------------------------------------------------------------------------------

/// A truth value as a value.
pub open spec fn truth(t: Option<bool>) -> ValueView {
    match t {
        Some(b) => ValueView::Bool(b),
        None => ValueView::Null,
    }
}

/// `AND` is true where both are, and false where one is; `OR` is true where one is, and
/// false where both are; `XOR` is known where both are, and true where they differ.
pub proof fn connectives_are_three_valued(
    x: Option<bool>,
    y: Option<bool>,
    lhs: BoundExprView,
    rhs: BoundExprView,
    span: Span,
    row: Map<u32, ValueView>,
    env: Env,
    spent: Spent,
)
    requires
        come_to(truth(x), truth(y), lhs, rhs, row, env, spent),
    ensures
        came_of(BinaryOp::And, lhs, rhs, span, row, env, spent) == Ok::<_, ExecErrorView>(ValueView::Bool(true)) <==> x == Some(true) && y == Some(true),
        came_of(BinaryOp::And, lhs, rhs, span, row, env, spent) == Ok::<_, ExecErrorView>(ValueView::Bool(false)) <==> x == Some(false) || y == Some(false),
        came_of(BinaryOp::Or, lhs, rhs, span, row, env, spent) == Ok::<_, ExecErrorView>(ValueView::Bool(true)) <==> x == Some(true) || y == Some(true),
        came_of(BinaryOp::Or, lhs, rhs, span, row, env, spent) == Ok::<_, ExecErrorView>(ValueView::Bool(false)) <==> x == Some(false) && y == Some(false),
        came_of(BinaryOp::Xor, lhs, rhs, span, row, env, spent) == Ok::<_, ExecErrorView>(ValueView::Bool(true)) <==> x is Some && y is Some && x != y,
        came_of(
            BinaryOp::Xor,
            lhs,
            rhs,
            span,
            row,
            env,
            spent,
        ) == Ok::<_, ExecErrorView>(ValueView::Bool(false)) <==> x is Some && x == y,
        came_of(
            BinaryOp::And,
            lhs,
            rhs,
            span,
            row,
            env,
            spent,
        ) matches Ok(v) ==> v is Bool || v is Null,
        came_of(
            BinaryOp::Or,
            lhs,
            rhs,
            span,
            row,
            env,
            spent,
        ) matches Ok(v) ==> v is Bool || v is Null,
        came_of(
            BinaryOp::Xor,
            lhs,
            rhs,
            span,
            row,
            env,
            spent,
        ) matches Ok(v) ==> v is Bool || v is Null,
        came_of(BinaryOp::And, lhs, rhs, span, row, env, spent) is Ok,
        came_of(BinaryOp::Or, lhs, rhs, span, row, env, spent) is Ok,
        came_of(BinaryOp::Xor, lhs, rhs, span, row, env, spent) is Ok,
{
    lemma_logical(BinaryOp::And, truth(x), truth(y), lhs, rhs, span, row, env, spent);
    lemma_logical(BinaryOp::Or, truth(x), truth(y), lhs, rhs, span, row, env, spent);
    lemma_logical(BinaryOp::Xor, truth(x), truth(y), lhs, rhs, span, row, env, spent);
}

/// `NOT` turns true and false round and leaves what is unknown; a minus turns the
/// sign, and a plus keeps it.
pub proof fn unary_operators_turn_round(
    v: ValueView,
    e: BoundExprView,
    span: Span,
    row: Map<u32, ValueView>,
    env: Env,
    spent: Spent,
)
    requires
        semantics::evaluated(e, row, env, spent).result == Ok::<_, ExecErrorView>(v),
    ensures
        v matches ValueView::Bool(b) ==> came_of_one(
            UnaryOp::Not,
            e,
            span,
            row,
            env,
            spent,
        ) == Ok::<
            _,
            ExecErrorView,
        >(ValueView::Bool(!b)),
        v is Null ==> came_of_one(
            UnaryOp::Not,
            e,
            span,
            row,
            env,
            spent,
        ) == Ok::<_, ExecErrorView>(v)
            && came_of_one(UnaryOp::Minus, e, span, row, env, spent) == Ok::<_, ExecErrorView>(v)
            && came_of_one(UnaryOp::Plus, e, span, row, env, spent) == Ok::<_, ExecErrorView>(v),
        v matches ValueView::Int(n) ==> ({
            let r = came_of_one(UnaryOp::Minus, e, span, row, env, spent);
            &&& r is Ok <==> n != i64::MIN
            &&& r matches Ok(m) ==> m is Int && m->Int_0 + n == 0
            &&& r matches Err(e) ==> e is Overflow
            &&& came_of_one(UnaryOp::Plus, e, span, row, env, spent) == Ok::<_, ExecErrorView>(v)
        }),
        v matches ValueView::Float(x) ==> ({
            let r = came_of_one(UnaryOp::Minus, e, span, row, env, spent);
            &&& r is Ok && r->Ok_0 is Float
            &&& exact::exact(r->Ok_0->Float_0) == -exact::exact(x)
            &&& float::is_nan(r->Ok_0->Float_0) == float::is_nan(x)
            &&& came_of_one(UnaryOp::Plus, e, span, row, env, spent) == Ok::<_, ExecErrorView>(v)
        }),
{
    if let ValueView::Float(x) = v {
        let m = float::negated(x);
        assert(float::magnitude(m) == float::magnitude(x));
        assert(exact::units(m) == exact::units(x));
        if float::magnitude(x) == 0 {
            exact::patterns_order_by_value(x, 0);
            exact::patterns_order_by_value(m, x);
        }
    }
}

/// `IS NULL` is true of null alone, and `IS NOT NULL` of everything else.
pub proof fn is_null_tells_null(
    v: ValueView,
    negated: bool,
    e: BoundExprView,
    span: Span,
    row: Map<u32, ValueView>,
    env: Env,
    spent: Spent,
)
    requires
        semantics::evaluated(e, row, env, spent).result == Ok::<_, ExecErrorView>(v),
    ensures
        semantics::evaluated(
            BoundExprView::IsNull { operand: Box::new(e), negated, span },
            row,
            env,
            spent,
        ).result == Ok::<_, ExecErrorView>(ValueView::Bool(if negated { !(v is Null) } else { v is Null })),
{
}

} // verus!
