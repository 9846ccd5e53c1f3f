//! Arithmetic, comparison, membership and text predicates.

use vstd::prelude::*;
use vstd::string::*;

use crate::ast::BinaryOp;
use crate::exec::compare;
use crate::exec::fault::{
    ExecError, ExecErrorView, FloatOp, FloatRequest, FloatRequestView, ResourceLimit,
};
use crate::exec::float::{self, FloatAnswerView, FloatTable};
use crate::exec::governor::{self, Budget, Charged, Governor};
use crate::exec::inspect::{self, MAX_VALUE_DEPTH};
use crate::exec::operators::{self, Operated};
use crate::exec::value::{self, Order, Ternary, Value, ValueView};
use crate::span::Span;
use crate::text;

verus! {

/// Whether an operation under a governor came to what the model says. Where the
/// clock is read on the way, it may instead have been stopped by the backstop.
pub open spec fn operated(
    r: Result<Value, ExecError>,
    before: Budget,
    after: Budget,
    model: Operated,
) -> bool {
    &&& after.timed == before.timed
    &&& after.polled >= before.polled
    &&& governor::timed_out(before, model.budget, r) || (
        operators::agrees(r, model.result) && after == model.budget
    )
}

/// The value, if the charge is accepted.
pub open spec fn if_charged(c: Charged, v: ValueView) -> Operated {
    Operated {
        result: match c.result {
            Ok(_) => Ok(v),
            Err(e) => Err(e),
        },
        budget: c.budget,
    }
}

pub open spec fn free_of_charge(
    result: Result<ValueView, ExecErrorView>,
    budget: Budget,
) -> Operated {
    Operated { result, budget }
}

/// `n` as a 64-bit count.
pub open spec fn count64(n: nat) -> u64 {
    if n > u64::MAX {
        u64::MAX
    } else {
        n as u64
    }
}

/// Whether a value may be nested under one more container level.
pub open spec fn nestable(v: ValueView) -> bool {
    inspect::nesting(v) < MAX_VALUE_DEPTH
}

pub open spec fn too_deep(span: Span) -> ExecErrorView {
    ExecErrorView::ResourceExceeded { limit: ResourceLimit::ValueDepth, span }
}

/// Refuse to nest `value` under one more container level once its own
/// container nesting has reached [`MAX_VALUE_DEPTH`].
pub(crate) fn ensure_nestable(value: &Value, span: Span) -> (r: Result<(), ExecError>)
    ensures
        r is Ok <==> nestable(value@),
        r matches Err(e) ==> e@ == too_deep(span),
{
    if value.nesting_exceeds(MAX_VALUE_DEPTH - 1) {
        return Err(ExecError::ResourceExceeded { limit: ResourceLimit::ValueDepth, span });
    }
    Ok(())
}

pub open spec fn number_result(r: Result<u64, ExecErrorView>) -> Result<ValueView, ExecErrorView> {
    match r {
        Ok(x) => Ok(ValueView::Float(x)),
        Err(e) => Err(e),
    }
}

pub open spec fn checked_result(n: Option<i64>, span: Span) -> Result<ValueView, ExecErrorView> {
    match n {
        Some(n) => Ok(ValueView::Int(n)),
        None => Err(ExecErrorView::Overflow { span }),
    }
}

/// A text joined out of two, charged by its bytes.
pub open spec fn joined_text(a: Seq<char>, b: Seq<char>, budget: Budget) -> Operated {
    if_charged(
        budget.collection(count64(text::byte_len(a) + text::byte_len(b))),
        ValueView::String(a + b),
    )
}

/// `a + b`. What it builds is charged before it is built.
pub open spec fn sum_of(
    a: ValueView,
    b: ValueView,
    span: Span,
    table: Seq<(FloatRequestView, FloatAnswerView)>,
    budget: Budget,
) -> Operated {
    match (a, b) {
        (ValueView::Null, _) => free_of_charge(Ok(ValueView::Null), budget),
        (_, ValueView::Null) => free_of_charge(Ok(ValueView::Null), budget),
        (ValueView::Int(x), ValueView::Int(y)) => free_of_charge(
            checked_result(x.checked_add(y), span),
            budget,
        ),
        (ValueView::String(x), ValueView::String(y)) => joined_text(x, y, budget),
        (ValueView::String(x), ValueView::Int(y)) => joined_text(
            x,
            text::signed_decimal(y as int),
            budget,
        ),
        (ValueView::Int(x), ValueView::String(y)) => joined_text(
            text::signed_decimal(x as int),
            y,
            budget,
        ),
        (ValueView::String(x), ValueView::Float(y)) => match float::shown(table, y, span) {
            Ok(t) => joined_text(x, t, budget),
            Err(e) => free_of_charge(Err(e), budget),
        },
        (ValueView::Float(x), ValueView::String(y)) => match float::shown(table, x, span) {
            Ok(t) => joined_text(t, y, budget),
            Err(e) => free_of_charge(Err(e), budget),
        },
        (ValueView::List(xs), ValueView::List(ys)) => if_charged(
            budget.collection(count64(xs.len() + ys.len())),
            ValueView::List(xs + ys),
        ),
        (ValueView::List(xs), y) => {
            let c = budget.collection(count64(xs.len() + 1));
            if c.result is Ok && !nestable(y) {
                free_of_charge(Err(too_deep(span)), c.budget)
            } else {
                if_charged(c, ValueView::List(xs.push(y)))
            }
        },
        (x, ValueView::List(ys)) => {
            let c = budget.collection(count64(ys.len() + 1));
            if c.result is Ok && !nestable(x) {
                free_of_charge(Err(too_deep(span)), c.budget)
            } else {
                if_charged(c, ValueView::List(seq![x] + ys))
            }
        },
        (x, y) => if compare::is_number(x) && compare::is_number(y) {
            free_of_charge(
                number_result(
                    float::number_for(
                        table,
                        FloatRequestView::Binary {
                            op: FloatOp::Add,
                            a: compare::number_bits(x),
                            b: compare::number_bits(y),
                        },
                        span,
                    ),
                ),
                budget,
            )
        } else {
            free_of_charge(
                Err(
                    operators::type_error(
                        "cannot add "@ + inspect::type_label_of(x) + " and "@ + inspect::type_label_of(y),
                        span,
                    ),
                ),
                budget,
            )
        },
    }
}

fn add_lengths(a: u64, b: u64) -> (r: u64)
    ensures
        r == count64((a + b) as nat),
{
    a.saturating_add(b)
}

fn join_text(a: &str, b: &str, governor: &mut Governor) -> (r: Result<Value, ExecError>)
    ensures
        operated(
            r,
            old(governor)@,
            final(governor)@,
            joined_text(a@, b@, old(governor)@),
        ),
{
    broadcast use crate::exec::poll_laws::group_polls;

    let len: u64 = add_lengths(text::str_bytes(a) as u64, text::str_bytes(b) as u64);
    match governor.collection(len) {
        Ok(_) => Ok(Value::String(text::join2(a, b))),
        Err(e) => Err(e),
    }
}

fn is_numeric(v: &Value) -> (r: bool)
    ensures
        r == compare::is_number(v@),
{
    matches!(v, Value::Int(_) | Value::Float(_))
}

fn pattern_of(v: &Value) -> (r: u64)
    requires
        compare::is_number(v@),
    ensures
        r == compare::number_bits(v@),
{
    match v {
        Value::Int(n) => float::from_int(*n),
        Value::Float(x) => *x,
        _ => 0,
    }
}

fn float_result(
    table: &FloatTable,
    op: FloatOp,
    a: u64,
    b: u64,
    span: Span,
) -> (r: Result<Value, ExecError>)
    ensures
        operators::agrees(
            r,
            number_result(float::number_for(table@, FloatRequestView::Binary { op, a, b }, span)),
        ),
{
    match table.number(FloatRequest::Binary { op, a, b }, span) {
        Ok(x) => Ok(Value::Float(x)),
        Err(e) => Err(e),
    }
}

/// `a + b`.
#[verifier::rlimit(40)]
fn add_values(
    a: Value,
    b: Value,
    span: Span,
    table: &FloatTable,
    governor: &mut Governor,
) -> (r: Result<Value, ExecError>)
    ensures
        operated(
            r,
            old(governor)@,
            final(governor)@,
            sum_of(a@, b@, span, table@, old(governor)@),
        ),
{
    broadcast use crate::exec::poll_laws::group_polls;

    match (a, b) {
        (Value::Null, _) => Ok(Value::Null),
        (_, Value::Null) => Ok(Value::Null),
        (Value::Int(x), Value::Int(y)) => match x.checked_add(y) {
            Some(n) => Ok(Value::Int(n)),
            None => Err(ExecError::Overflow { span }),
        },
        (Value::String(x), Value::String(y)) => join_text(x.as_str(), y.as_str(), governor),
        (Value::String(x), Value::Int(y)) => join_text(
            x.as_str(),
            text::int_text(y).as_str(),
            governor,
        ),
        (Value::Int(x), Value::String(y)) => join_text(
            text::int_text(x).as_str(),
            y.as_str(),
            governor,
        ),
        (Value::String(x), Value::Float(y)) => match float::format_float(table, y, span) {
            Ok(t) => join_text(x.as_str(), t.as_str(), governor),
            Err(e) => Err(e),
        },
        (Value::Float(x), Value::String(y)) => match float::format_float(table, x, span) {
            Ok(t) => join_text(t.as_str(), y.as_str(), governor),
            Err(e) => Err(e),
        },
        (Value::List(x), Value::List(y)) => {
            let mut xs = x;
            let mut ys = y;
            let ghost all = value::values_view(xs@) + value::values_view(ys@);
            match governor.collection(add_lengths(xs.len() as u64, ys.len() as u64)) {
                Ok(_) => {
                    xs.append(&mut ys);
                    assert(value::values_view(xs@) =~= all);
                    Ok(Value::List(xs))
                },
                Err(e) => Err(e),
            }
        },
        (Value::List(x), y) => {
            let mut xs = x;
            let ghost all = value::values_view(xs@).push(y@);
            match governor.collection(add_lengths(xs.len() as u64, 1)) {
                Ok(_) => match ensure_nestable(&y, span) {
                    Ok(_) => {
                        xs.push(y);
                        assert(value::values_view(xs@) =~= all);
                        Ok(Value::List(xs))
                    },
                    Err(e) => Err(e),
                },
                Err(e) => Err(e),
            }
        },
        (x, Value::List(y)) => {
            let mut ys = y;
            let ghost all = seq![x@] + value::values_view(ys@);
            match governor.collection(add_lengths(ys.len() as u64, 1)) {
                Ok(_) => match ensure_nestable(&x, span) {
                    Ok(_) => {
                        ys.insert(0, x);
                        assert(value::values_view(ys@) =~= all);
                        Ok(Value::List(ys))
                    },
                    Err(e) => Err(e),
                },
                Err(e) => Err(e),
            }
        },
        (x, y) => if is_numeric(&x) && is_numeric(&y) {
            float_result(table, FloatOp::Add, pattern_of(&x), pattern_of(&y), span)
        } else {
            let head = text::join3("cannot add ", x.type_label(), " and ");
            Err(operators::type_err(text::join2(head.as_str(), y.type_label()), span))
        },
    }
}

/// The float operation of an arithmetic operator.
pub open spec fn float_op(op: BinaryOp) -> FloatOp {
    match op {
        BinaryOp::Sub => FloatOp::Sub,
        BinaryOp::Mul => FloatOp::Mul,
        BinaryOp::Div => FloatOp::Div,
        BinaryOp::Mod => FloatOp::Rem,
        BinaryOp::Pow => FloatOp::Pow,
        _ => FloatOp::Add,
    }
}

/// `x op y` over integers: division by zero and overflow are errors, not
/// silent wraps.
pub open spec fn integer_result(op: BinaryOp, x: i64, y: i64, span: Span) -> Result<
    ValueView,
    ExecErrorView,
> {
    match op {
        BinaryOp::Sub => checked_result(x.checked_sub(y), span),
        BinaryOp::Mul => checked_result(x.checked_mul(y), span),
        BinaryOp::Div => if y == 0 {
            Err(ExecErrorView::DivisionByZero { span })
        } else {
            checked_result(x.checked_div(y), span)
        },
        _ => if y == 0 {
            Err(ExecErrorView::DivisionByZero { span })
        } else {
            checked_result(x.checked_rem(y), span)
        },
    }
}

pub open spec fn is_arithmetic(op: BinaryOp) -> bool {
    op == BinaryOp::Sub || op == BinaryOp::Mul || op == BinaryOp::Div || op == BinaryOp::Mod
}

/// `a op b` for `-`, `*`, `/` and `%`.
pub open spec fn arithmetic_of(
    op: BinaryOp,
    a: ValueView,
    b: ValueView,
    span: Span,
    table: Seq<(FloatRequestView, FloatAnswerView)>,
) -> Result<ValueView, ExecErrorView> {
    match (a, b) {
        (ValueView::Null, _) => Ok(ValueView::Null),
        (_, ValueView::Null) => Ok(ValueView::Null),
        (ValueView::Int(x), ValueView::Int(y)) => integer_result(op, x, y, span),
        (x, y) => if compare::is_number(x) && compare::is_number(y) {
            number_result(
                float::number_for(
                    table,
                    FloatRequestView::Binary {
                        op: float_op(op),
                        a: compare::number_bits(x),
                        b: compare::number_bits(y),
                    },
                    span,
                ),
            )
        } else {
            Err(
                operators::type_error(
                    "arithmetic needs numbers, got "@ + inspect::type_label_of(x) + " and "@
                        + inspect::type_label_of(y),
                    span,
                ),
            )
        },
    }
}

fn checked(n: Option<i64>, span: Span) -> (r: Result<Value, ExecError>)
    ensures
        operators::agrees(r, checked_result(n, span)),
{
    match n {
        Some(n) => Ok(Value::Int(n)),
        None => Err(ExecError::Overflow { span }),
    }
}

fn float_op_of(op: BinaryOp) -> (r: FloatOp)
    ensures
        r == float_op(op),
{
    match op {
        BinaryOp::Sub => FloatOp::Sub,
        BinaryOp::Mul => FloatOp::Mul,
        BinaryOp::Div => FloatOp::Div,
        BinaryOp::Mod => FloatOp::Rem,
        BinaryOp::Pow => FloatOp::Pow,
        _ => FloatOp::Add,
    }
}

/// `a op b` for `-`, `*`, `/` and `%`.
fn arith(op: BinaryOp, a: Value, b: Value, span: Span, table: &FloatTable) -> (r: Result<
    Value,
    ExecError,
>)
    requires
        is_arithmetic(op),
    ensures
        operators::agrees(r, arithmetic_of(op, a@, b@, span, table@)),
{
    match (a, b) {
        (Value::Null, _) => Ok(Value::Null),
        (_, Value::Null) => Ok(Value::Null),
        (Value::Int(x), Value::Int(y)) => match op {
            BinaryOp::Sub => checked(x.checked_sub(y), span),
            BinaryOp::Mul => checked(x.checked_mul(y), span),
            BinaryOp::Div => divide(x, y, span),
            _ => modulo(x, y, span),
        },
        (x, y) => if is_numeric(&x) && is_numeric(&y) {
            float_result(table, float_op_of(op), pattern_of(&x), pattern_of(&y), span)
        } else {
            let head = text::join3("arithmetic needs numbers, got ", x.type_label(), " and ");
            Err(operators::type_err(text::join2(head.as_str(), y.type_label()), span))
        },
    }
}

/// `i64::MIN / -1` overflows: an error, not a silent wrap.
fn divide(x: i64, y: i64, span: Span) -> (r: Result<Value, ExecError>)
    ensures
        operators::agrees(r, integer_result(BinaryOp::Div, x, y, span)),
{
    if y == 0 {
        return Err(ExecError::DivisionByZero { span });
    }
    checked(x.checked_div(y), span)
}

fn modulo(x: i64, y: i64, span: Span) -> (r: Result<Value, ExecError>)
    ensures
        operators::agrees(r, integer_result(BinaryOp::Mod, x, y, span)),
{
    if y == 0 {
        return Err(ExecError::DivisionByZero { span });
    }
    checked(x.checked_rem(y), span)
}

/// `a ^ b`, which always yields a float.
pub open spec fn power_of(
    a: ValueView,
    b: ValueView,
    span: Span,
    table: Seq<(FloatRequestView, FloatAnswerView)>,
) -> Result<ValueView, ExecErrorView> {
    match (a, b) {
        (ValueView::Null, _) => Ok(ValueView::Null),
        (_, ValueView::Null) => Ok(ValueView::Null),
        (x, y) => if compare::is_number(x) && compare::is_number(y) {
            number_result(
                float::number_for(
                    table,
                    FloatRequestView::Binary {
                        op: FloatOp::Pow,
                        a: compare::number_bits(x),
                        b: compare::number_bits(y),
                    },
                    span,
                ),
            )
        } else {
            Err(
                operators::type_error(
                    "cannot raise "@ + inspect::type_label_of(x) + " to "@ + inspect::type_label_of(y),
                    span,
                ),
            )
        },
    }
}

fn power(a: Value, b: Value, span: Span, table: &FloatTable) -> (r: Result<Value, ExecError>)
    ensures
        operators::agrees(r, power_of(a@, b@, span, table@)),
{
    match (a, b) {
        (Value::Null, _) => Ok(Value::Null),
        (_, Value::Null) => Ok(Value::Null),
        (x, y) => if is_numeric(&x) && is_numeric(&y) {
            float_result(table, FloatOp::Pow, pattern_of(&x), pattern_of(&y), span)
        } else {
            let head = text::join3("cannot raise ", x.type_label(), " to ");
            Err(operators::type_err(text::join2(head.as_str(), y.type_label()), span))
        },
    }
}

/// `x IN list`: true where an element equals it, unknown where none does but
/// an equality is unknown, false otherwise.
pub open spec fn membership(needle: ValueView, items: Seq<ValueView>) -> Ternary {
    if exists|i: int| 0 <= i < items.len() && #[trigger] compare::equality(needle, items[i]) == Some(true) {
        Some(true)
    } else if exists|i: int|
        0 <= i < items.len() && #[trigger] compare::equality(needle, items[i]) is None {
        None
    } else {
        Some(false)
    }
}

pub open spec fn membership_of(needle: ValueView, haystack: ValueView, span: Span) -> Result<
    ValueView,
    ExecErrorView,
> {
    match haystack {
        ValueView::Null => Ok(ValueView::Null),
        ValueView::List(items) => Ok(operators::of_ternary(membership(needle, items))),
        other => Err(
            operators::type_error("IN needs a list, got "@ + inspect::type_label_of(other), span),
        ),
    }
}

fn list_membership(needle: Value, haystack: Value, span: Span) -> (r: Result<Value, ExecError>)
    ensures
        operators::agrees(r, membership_of(needle@, haystack@, span)),
{
    match haystack {
        Value::Null => Ok(Value::Null),
        Value::List(items) => {
            let ghost all = value::values_view(items@);
            let mut saw_null: bool = false;
            let mut i: usize = 0;
            while i < items.len()
                invariant
                    i <= items.len(),
                    all == value::values_view(items@),
                    haystack@ == ValueView::List(all),
                    forall|k: int|
                        0 <= k < i ==> #[trigger] compare::equality(needle@, all[k]) != Some(true),
                    saw_null <==> exists|k: int|
                        0 <= k < i && #[trigger] compare::equality(needle@, all[k]) is None,
                decreases items.len() - i,
            {
                assert(all[i as int] == items@[i as int]@);
                match needle.eq3(&items[i]) {
                    Some(true) => {
                        assert(compare::equality(needle@, all[i as int]) == Some(true));
                        return Ok(Value::Bool(true));
                    },
                    None => {
                        saw_null = true;
                        assert(compare::equality(needle@, all[i as int]) is None);
                    },
                    Some(false) => {},
                }
                i += 1;
            }
            Ok(
                if saw_null {
                    Value::Null
                } else {
                    Value::Bool(false)
                },
            )
        },
        other => Err(
            operators::type_err(text::join2("IN needs a list, got ", other.type_label()), span),
        ),
    }
}

// --- Text predicates -----------------------------------------------------------------------------

pub open spec fn begins_with(s: Seq<char>, t: Seq<char>) -> bool {
    t.len() <= s.len() && s.take(t.len() as int) == t
}

pub open spec fn finishes_with(s: Seq<char>, t: Seq<char>) -> bool {
    t.len() <= s.len() && s.skip(s.len() - t.len()) == t
}

/// Whether `t` stands in `s` at `i`.
pub open spec fn stands_at(s: Seq<char>, t: Seq<char>, i: int) -> bool {
    0 <= i && i + t.len() <= s.len() && s.subrange(i, i + t.len()) == t
}

pub open spec fn holds_text(s: Seq<char>, t: Seq<char>) -> bool {
    exists|i: int| stands_at(s, t, i)
}

/// Whether `t` stands in `s` at `i`.
pub(crate) fn stands(s: &Vec<char>, t: &Vec<char>, i: usize) -> (r: bool)
    requires
        i <= s@.len(),
    ensures
        r == stands_at(s@, t@, i as int),
{
    if t.len() > s.len() - i {
        return false;
    }
    let mut k: usize = 0;
    while k < t.len()
        invariant
            k <= t.len(),
            i + t.len() <= s.len(),
            forall|j: int| 0 <= j < k ==> s@[i + j] == t@[j],
        decreases t.len() - k,
    {
        if s[i + k] != t[k] {
            assert(s@.subrange(i as int, i + t@.len())[k as int] != t@[k as int]);
            return false;
        }
        k += 1;
    }
    assert(s@.subrange(i as int, i + t@.len()) =~= t@);
    true
}

fn text_begins(a: &str, b: &str) -> (r: bool)
    ensures
        r == begins_with(a@, b@),
{
    let s = text::chars_of(a);
    let t = text::chars_of(b);
    let r = stands(&s, &t, 0);
    proof {
        if b@.len() <= a@.len() {
            assert(a@.take(b@.len() as int) =~= a@.subrange(0, b@.len() as int));
        }
    }
    r
}

fn text_finishes(a: &str, b: &str) -> (r: bool)
    ensures
        r == finishes_with(a@, b@),
{
    let s = text::chars_of(a);
    let t = text::chars_of(b);
    if t.len() > s.len() {
        return false;
    }
    let r = stands(&s, &t, s.len() - t.len());
    proof {
        assert(a@.skip(a@.len() - b@.len()) =~= a@.subrange(
            a@.len() - b@.len(),
            a@.len() as int,
        ));
    }
    r
}

fn text_holds(a: &str, b: &str) -> (r: bool)
    ensures
        r == holds_text(a@, b@),
{
    let s = text::chars_of(a);
    let t = text::chars_of(b);
    let mut i: usize = 0;
    while i < s.len()
        invariant
            i <= s.len(),
            s@ == a@,
            t@ == b@,
            forall|k: int| 0 <= k < i ==> !stands_at(a@, b@, k),
        decreases s.len() - i,
    {
        if stands(&s, &t, i) {
            return true;
        }
        i += 1;
    }
    let r = stands(&s, &t, i);
    proof {
        if !r && holds_text(a@, b@) {
            let k = choose|k: int| stands_at(a@, b@, k);
            assert(k == i);
        }
    }
    r
}

/// A text predicate: null where an operand is no string.
pub open spec fn text_predicate(op: BinaryOp, a: ValueView, b: ValueView) -> ValueView {
    match (a, b) {
        (ValueView::String(s), ValueView::String(t)) => ValueView::Bool(
            match op {
                BinaryOp::StartsWith => begins_with(s, t),
                BinaryOp::EndsWith => finishes_with(s, t),
                _ => holds_text(s, t),
            },
        ),
        _ => ValueView::Null,
    }
}

fn string_pred(op: BinaryOp, a: Value, b: Value) -> (r: Value)
    ensures
        r@ == text_predicate(op, a@, b@),
{
    match (a, b) {
        (Value::String(s), Value::String(t)) => Value::Bool(
            match op {
                BinaryOp::StartsWith => text_begins(s.as_str(), t.as_str()),
                BinaryOp::EndsWith => text_finishes(s.as_str(), t.as_str()),
                _ => text_holds(s.as_str(), t.as_str()),
            },
        ),
        _ => Value::Null,
    }
}

// --- All strict operators ---------------------------------------------------------------------------

/// Both operands numeric and at least one NaN.
pub open spec fn meets_nan(a: ValueView, b: ValueView) -> bool {
    compare::is_number(a) && compare::is_number(b) && (
        float::is_nan(compare::number_bits(a)) || float::is_nan(compare::number_bits(b))
    )
}

fn nan_comparison(a: &Value, b: &Value) -> (r: bool)
    ensures
        r == meets_nan(a@, b@),
{
    is_numeric(a) && is_numeric(b) && (float::nan(pattern_of(a)) || float::nan(pattern_of(b)))
}

/// `<`, `<=`, `>` and `>=`: NaN compared with any number is false, not null;
/// cross-type and null comparisons are null.
pub open spec fn ordering_result(op: BinaryOp, a: ValueView, b: ValueView) -> ValueView {
    if meets_nan(a, b) {
        ValueView::Bool(false)
    } else {
        match compare::comparison(a, b) {
            None => ValueView::Null,
            Some(o) => ValueView::Bool(
                match op {
                    BinaryOp::Lt => o == Order::Less,
                    BinaryOp::Le => o != Order::Greater,
                    BinaryOp::Gt => o == Order::Greater,
                    _ => o != Order::Less,
                },
            ),
        }
    }
}

fn ordering(op: BinaryOp, a: &Value, b: &Value) -> (r: Value)
    ensures
        r@ == ordering_result(op, a@, b@),
{
    if nan_comparison(a, b) {
        return Value::Bool(false);
    }
    match a.order3(b) {
        None => Value::Null,
        Some(o) => Value::Bool(
            match op {
                BinaryOp::Lt => o == Order::Less,
                BinaryOp::Le => o != Order::Greater,
                BinaryOp::Gt => o == Order::Greater,
                _ => o != Order::Less,
            },
        ),
    }
}

/// `a op b`, both operands evaluated.
pub open spec fn binary_of(
    op: BinaryOp,
    a: ValueView,
    b: ValueView,
    span: Span,
    table: Seq<(FloatRequestView, FloatAnswerView)>,
    budget: Budget,
) -> Operated {
    match op {
        BinaryOp::Eq => free_of_charge(Ok(operators::of_ternary(compare::equality(a, b))), budget),
        BinaryOp::Ne => free_of_charge(
            Ok(operators::of_ternary(operators::not3(compare::equality(a, b)))),
            budget,
        ),
        BinaryOp::Lt => free_of_charge(Ok(ordering_result(op, a, b)), budget),
        BinaryOp::Le => free_of_charge(Ok(ordering_result(op, a, b)), budget),
        BinaryOp::Gt => free_of_charge(Ok(ordering_result(op, a, b)), budget),
        BinaryOp::Ge => free_of_charge(Ok(ordering_result(op, a, b)), budget),
        BinaryOp::Add => sum_of(a, b, span, table, budget),
        BinaryOp::Sub => free_of_charge(arithmetic_of(op, a, b, span, table), budget),
        BinaryOp::Mul => free_of_charge(arithmetic_of(op, a, b, span, table), budget),
        BinaryOp::Div => free_of_charge(arithmetic_of(op, a, b, span, table), budget),
        BinaryOp::Mod => free_of_charge(arithmetic_of(op, a, b, span, table), budget),
        BinaryOp::Pow => free_of_charge(power_of(a, b, span, table), budget),
        BinaryOp::In => free_of_charge(membership_of(a, b, span), budget),
        BinaryOp::StartsWith => free_of_charge(Ok(text_predicate(op, a, b)), budget),
        BinaryOp::EndsWith => free_of_charge(Ok(text_predicate(op, a, b)), budget),
        BinaryOp::Contains => free_of_charge(Ok(text_predicate(op, a, b)), budget),
        BinaryOp::RegexMatch => free_of_charge(
            Err(ExecErrorView::Unsupported { feature: "regular expressions"@, span }),
            budget,
        ),
        _ => free_of_charge(Ok(ValueView::Null), budget),
    }
}

/// `a op b`, both operands evaluated; the logical connectives are not among
/// these operators.
pub(crate) fn binary(
    op: BinaryOp,
    a: Value,
    b: Value,
    span: Span,
    table: &FloatTable,
    governor: &mut Governor,
) -> (r: Result<Value, ExecError>)
    requires
        !operators::is_logical(op),
    ensures
        operated(
            r,
            old(governor)@,
            final(governor)@,
            binary_of(op, a@, b@, span, table@, old(governor)@),
        ),
{
    broadcast use crate::exec::poll_laws::group_polls;

    match op {
        BinaryOp::Eq => Ok(operators::ternary_to_value(a.eq3(&b))),
        BinaryOp::Ne => Ok(operators::ternary_to_value(operators::negate3(a.eq3(&b)))),
        BinaryOp::Lt => Ok(ordering(op, &a, &b)),
        BinaryOp::Le => Ok(ordering(op, &a, &b)),
        BinaryOp::Gt => Ok(ordering(op, &a, &b)),
        BinaryOp::Ge => Ok(ordering(op, &a, &b)),
        BinaryOp::Add => add_values(a, b, span, table, governor),
        BinaryOp::Sub => arith(op, a, b, span, table),
        BinaryOp::Mul => arith(op, a, b, span, table),
        BinaryOp::Div => arith(op, a, b, span, table),
        BinaryOp::Mod => arith(op, a, b, span, table),
        BinaryOp::Pow => power(a, b, span, table),
        BinaryOp::In => list_membership(a, b, span),
        BinaryOp::StartsWith => Ok(string_pred(op, a, b)),
        BinaryOp::EndsWith => Ok(string_pred(op, a, b)),
        BinaryOp::Contains => Ok(string_pred(op, a, b)),
        BinaryOp::RegexMatch => Err(
            ExecError::Unsupported { feature: "regular expressions", span },
        ),
        _ => Ok(Value::Null),
    }
}

} // verus!
