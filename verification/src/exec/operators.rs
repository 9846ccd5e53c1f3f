//! The operators of expressions, with openCypher null semantics.

use vstd::prelude::*;
use vstd::string::*;

use crate::ast::{BinaryOp, UnaryOp};
use crate::exec::fault::{ExecError, ExecErrorView};
use crate::exec::float;
use crate::exec::governor::Budget;
use crate::exec::inspect;
use crate::exec::value::{Ternary, Value, ValueView};
use crate::span::Span;
use crate::text;

verus! {

/// A budget and what an operation under it comes to.
pub struct Operated {
    pub result: Result<ValueView, ExecErrorView>,
    pub budget: Budget,
}

pub open spec fn type_error(message: Seq<char>, span: Span) -> ExecErrorView {
    ExecErrorView::Type { message, span }
}

pub(crate) fn type_err(message: String, span: Span) -> (r: ExecError)
    ensures
        r@ == type_error(message@, span),
{
    ExecError::Type { message, span }
}

/// openCypher truth: booleans as themselves, null as unknown, anything else a
/// type error.
pub open spec fn truth_of(v: ValueView, span: Span) -> Result<Ternary, ExecErrorView> {
    match v {
        ValueView::Bool(b) => Ok(Some(b)),
        ValueView::Null => Ok(None),
        other => Err(type_error("expected a boolean, got "@ + inspect::type_label_of(other), span)),
    }
}

/// openCypher truth: booleans as themselves, null as unknown, anything else a
/// type error.
pub fn truth(value: &Value, span: Span) -> (r: Result<Ternary, ExecError>)
    ensures
        match r {
            Ok(t) => truth_of(value@, span) == Ok::<_, ExecErrorView>(t),
            Err(e) => truth_of(value@, span) == Err::<Ternary, _>(e@),
        },
{
    match value {
        Value::Bool(b) => Ok(Some(*b)),
        Value::Null => Ok(None),
        other => Err(type_err(text::join2("expected a boolean, got ", other.type_label()), span)),
    }
}

pub open spec fn of_ternary(t: Ternary) -> ValueView {
    match t {
        Some(b) => ValueView::Bool(b),
        None => ValueView::Null,
    }
}

pub(crate) fn ternary_to_value(t: Ternary) -> (r: Value)
    ensures
        r@ == of_ternary(t),
{
    match t {
        Some(b) => Value::Bool(b),
        None => Value::Null,
    }
}

pub open spec fn is_logical(op: BinaryOp) -> bool {
    op == BinaryOp::And || op == BinaryOp::Or || op == BinaryOp::Xor
}

/// Kleene's three-valued connectives.
pub open spec fn connective(op: BinaryOp, a: Ternary, b: Ternary) -> Ternary {
    match op {
        BinaryOp::And => if a == Some(false) || b == Some(false) {
            Some(false)
        } else if a == Some(true) && b == Some(true) {
            Some(true)
        } else {
            None
        },
        BinaryOp::Or => if a == Some(true) || b == Some(true) {
            Some(true)
        } else if a == Some(false) && b == Some(false) {
            Some(false)
        } else {
            None
        },
        _ => match (a, b) {
            (Some(x), Some(y)) => Some(x != y),
            _ => None,
        },
    }
}

pub(crate) fn logic(op: BinaryOp, a: Ternary, b: Ternary) -> (r: Ternary)
    requires
        is_logical(op),
    ensures
        r == connective(op, a, b),
{
    match op {
        BinaryOp::And => match (a, b) {
            (Some(false), _) => Some(false),
            (_, Some(false)) => Some(false),
            (Some(true), Some(true)) => Some(true),
            _ => None,
        },
        BinaryOp::Or => match (a, b) {
            (Some(true), _) => Some(true),
            (_, Some(true)) => Some(true),
            (Some(false), Some(false)) => Some(false),
            _ => None,
        },
        _ => match (a, b) {
            (Some(x), Some(y)) => Some(x != y),
            _ => None,
        },
    }
}

pub open spec fn not3(t: Ternary) -> Ternary {
    match t {
        Some(b) => Some(!b),
        None => None,
    }
}

pub(crate) fn negate3(t: Ternary) -> (r: Ternary)
    ensures
        r == not3(t),
{
    match t {
        Some(b) => Some(!b),
        None => None,
    }
}

/// What a unary operator comes to.
pub open spec fn unary_of(op: UnaryOp, v: ValueView, span: Span) -> Result<
    ValueView,
    ExecErrorView,
> {
    match op {
        UnaryOp::Not => match truth_of(v, span) {
            Ok(t) => Ok(of_ternary(not3(t))),
            Err(e) => Err(e),
        },
        UnaryOp::Minus => match v {
            ValueView::Null => Ok(ValueView::Null),
            ValueView::Int(n) => if n == i64::MIN {
                Err(ExecErrorView::Overflow { span })
            } else {
                Ok(ValueView::Int((-n) as i64))
            },
            ValueView::Float(x) => Ok(ValueView::Float(float::negated(x))),
            other => Err(type_error("cannot negate "@ + inspect::type_label_of(other), span)),
        },
        UnaryOp::Plus => match v {
            ValueView::Null => Ok(v),
            ValueView::Int(_) => Ok(v),
            ValueView::Float(_) => Ok(v),
            other => Err(
                type_error("cannot apply unary + to "@ + inspect::type_label_of(other), span),
            ),
        },
    }
}

pub(crate) fn unary(op: UnaryOp, value: Value, span: Span) -> (r: Result<Value, ExecError>)
    ensures
        agrees(r, unary_of(op, value@, span)),
{
    match op {
        UnaryOp::Not => match truth(&value, span) {
            Ok(t) => Ok(ternary_to_value(negate3(t))),
            Err(e) => Err(e),
        },
        UnaryOp::Minus => match value {
            Value::Null => Ok(Value::Null),
            Value::Int(n) => if n == i64::MIN {
                Err(ExecError::Overflow { span })
            } else {
                Ok(Value::Int(-n))
            },
            Value::Float(x) => Ok(Value::Float(float::negate(x))),
            other => Err(type_err(text::join2("cannot negate ", other.type_label()), span)),
        },
        UnaryOp::Plus => match value {
            Value::Null => Ok(value),
            Value::Int(_) => Ok(value),
            Value::Float(_) => Ok(value),
            other => Err(
                type_err(text::join2("cannot apply unary + to ", other.type_label()), span),
            ),
        },
    }
}

/// Whether a result is what the model says.
pub open spec fn agrees(
    r: Result<Value, ExecError>,
    model: Result<ValueView, ExecErrorView>,
) -> bool {
    match r {
        Ok(v) => model == Ok::<_, ExecErrorView>(v@),
        Err(e) => model == Err::<ValueView, _>(e@),
    }
}

// --- Laws of three-valued logic ----------------------------------------------------------------

/// The connectives do not depend on the order of their operands.
pub proof fn connectives_commute(op: BinaryOp, a: Ternary, b: Ternary)
    ensures
        connective(op, a, b) == connective(op, b, a),
{
}

/// The connectives associate.
pub proof fn connectives_associate(op: BinaryOp, a: Ternary, b: Ternary, c: Ternary)
    ensures
        connective(op, connective(op, a, b), c) == connective(op, a, connective(op, b, c)),
{
}

/// De Morgan's laws hold with unknowns too.
pub proof fn de_morgan(a: Ternary, b: Ternary)
    ensures
        not3(connective(BinaryOp::And, a, b)) == connective(BinaryOp::Or, not3(a), not3(b)),
        not3(connective(BinaryOp::Or, a, b)) == connective(BinaryOp::And, not3(a), not3(b)),
        not3(not3(a)) == a,
{
}

} // verus!
