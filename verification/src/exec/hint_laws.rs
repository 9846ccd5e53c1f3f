//! Hints from a predicate only prune: what the predicate keeps meets them.

use vstd::prelude::*;

use crate::ast::{BinaryOp, LiteralView};
use crate::bind::bound::{BoundExprView, VarId};
use crate::bind::hints::{self, ComparisonView, RangeBoundView};
use crate::exec::compare;
use crate::exec::fault::ExecErrorView;
use crate::exec::order_laws;
use crate::exec::row;
use crate::exec::semantics::{self, Env, Spent};
use crate::exec::value::{NodeValueView, Order, ValueView};

verus! {

/// The value of a constant, where it has one.
pub open spec fn constant_value(bound: RangeBoundView, env: Env, v: ValueView) -> bool {
    match bound {
        RangeBoundView::Literal(l) => semantics::literal_value(l) == v,
        RangeBoundView::Parameter(name) => env.parameters.lookup(name) == Some(v),
    }
}

/// Whether a comparison is true of two values.
pub open spec fn is_true(op: BinaryOp, a: ValueView, b: ValueView) -> bool {
    match op {
        BinaryOp::Eq => compare::equality(a, b) == Some(true),
        BinaryOp::Lt => compare::comparison(a, b) == Some(Order::Less),
        BinaryOp::Gt => compare::comparison(a, b) == Some(Order::Greater),
        BinaryOp::Le => compare::comparison(a, b) == Some(Order::Less) || compare::comparison(a, b) == Some(
            Order::Equal,
        ),
        BinaryOp::Ge => compare::comparison(a, b) == Some(Order::Greater) || compare::comparison(a, b) == Some(
            Order::Equal,
        ),
        _ => false,
    }
}

/// Whether a node meets a comparison: its property compares so with the
/// constant's value.
pub open spec fn meets(n: NodeValueView, c: ComparisonView, env: Env) -> bool {
    exists|v: ValueView| #[trigger]
        constant_value(c.bound, env, v) && is_true(
            c.op,
            n.properties.lookup_or_null(c.property),
            v,
        )
}

proof fn lemma_decayed(op: BinaryOp, a: ValueView, b: ValueView)
    requires
        is_true(op, compare::decayed(a), compare::decayed(b)),
    ensures
        is_true(op, a, b),
{
    if a is Stored {
        order_laws::a_carrier_compares_as_its_rendering(a->Stored_0, compare::decayed(b));
    }
    if b is Stored {
        order_laws::a_carrier_compares_as_its_rendering(b->Stored_0, a);
    }
}

proof fn lemma_mirrored(op: BinaryOp, a: ValueView, b: ValueView)
    requires
        is_true(op, a, b),
    ensures
        is_true(hints::mirrored(op), b, a),
{
    order_laws::equality_is_symmetric(a, b);
    order_laws::comparison_is_antisymmetric(a, b);
}

proof fn lemma_property(
    e: BoundExprView,
    var: VarId,
    n: NodeValueView,
    row: Map<u32, ValueView>,
    env: Env,
    spent: Spent,
)
    requires
        hints::property_read(e, var) is Some,
        row::row_get(row, var) == ValueView::Node(n),
    ensures
        semantics::evaluated(e, row, env, spent).result is Ok,
        semantics::evaluated(e, row, env, spent).result->Ok_0 == n.properties.lookup_or_null(
            hints::property_read(e, var)->Some_0,
        ),
{
    if let BoundExprView::Property { base, key, span } = e {
        assert(semantics::evaluated(*base, row, env, spent).result == Ok::<
            ValueView,
            ExecErrorView,
        >(row::row_get(row, var)));
    }
}

proof fn lemma_constant(
    e: BoundExprView,
    row: Map<u32, ValueView>,
    env: Env,
    spent: Spent,
)
    requires
        hints::constant(e) is Some,
        semantics::evaluated(e, row, env, spent).result is Ok,
    ensures
        constant_value(
            hints::constant(e)->Some_0,
            env,
            semantics::evaluated(e, row, env, spent).result->Ok_0,
        ),
{
}

/// Where a predicate is true of a row, the node that a variable of the row holds
/// meets every comparison that hints for the variable are made of.
pub proof fn a_true_predicate_meets_its_comparisons(
    pred: BoundExprView,
    var: VarId,
    n: NodeValueView,
    row: Map<u32, ValueView>,
    env: Env,
    spent: Spent,
    i: int,
)
    requires
        row::row_get(row, var) == ValueView::Node(n),
        semantics::evaluated(pred, row, env, spent).result == Ok::<
            ValueView,
            ExecErrorView,
        >(ValueView::Bool(true)),
        0 <= i < hints::comparisons_in(pred, var).len(),
    ensures
        meets(n, hints::comparisons_in(pred, var)[i], env),
    decreases pred,
{
    match pred {
        BoundExprView::Binary { op, lhs, rhs, span } => {
            let a = semantics::evaluated(*lhs, row, env, spent);
            let b = semantics::evaluated(*rhs, row, env, a.spent);
            if op == BinaryOp::And {
                let first = hints::comparisons_in(*lhs, var);
                if i < first.len() {
                    a_true_predicate_meets_its_comparisons(*lhs, var, n, row, env, spent, i);
                } else {
                    a_true_predicate_meets_its_comparisons(
                        *rhs,
                        var,
                        n,
                        row,
                        env,
                        a.spent,
                        i - first.len(),
                    );
                }
            } else {
                let x = a.result->Ok_0;
                let y = b.result->Ok_0;
                assert(is_true(op, compare::decayed(x), compare::decayed(y)));
                lemma_decayed(op, x, y);
                let c = hints::comparisons_in(pred, var)[0];
                if hints::property_read(*lhs, var) is Some && hints::constant(*rhs) is Some {
                    lemma_property(*lhs, var, n, row, env, spent);
                    lemma_constant(*rhs, row, env, a.spent);
                    assert(constant_value(c.bound, env, y));
                } else {
                    lemma_property(*rhs, var, n, row, env, a.spent);
                    lemma_constant(*lhs, row, env, spent);
                    lemma_mirrored(op, x, y);
                    assert(constant_value(c.bound, env, x));
                }
            }
        },
        _ => {},
    }
}

} // verus!
