//! Expression evaluation with openCypher null semantics. Aggregate
//! sub-expressions are computed by the projection; here they read from a
//! pre-computed slot sequence in deterministic traversal order.

use vstd::prelude::*;
use vstd::string::*;

use crate::ast::{BinaryOp, Literal, QuantifierKind};
use crate::bind::bound::{
    self, BoundExpr, BoundNodePattern, BoundNodePatternView, BoundPathPattern, BoundRelPattern,
    BoundRelPatternView, VarId,
};
use crate::exec::access;
use crate::exec::aggregate;
use crate::exec::arith;
use crate::exec::budget_laws;
use crate::exec::fault::{ExecError, ExecErrorView, FloatRequest};
use crate::exec::float::FloatTable;
use crate::exec::functions;
use crate::exec::governor::{self, Budget, Governor, QueryLimits};
use crate::exec::operators;
use crate::exec::probe;
use crate::exec::projection_model;
use crate::exec::row::Row;
use crate::exec::semantics::{self, Env, Evaluated, EvaluatedAll, Spent};
use crate::exec::source::GraphSource;
use crate::exec::value::{self, NodeValue, PropertyMap, PropertyMapView, RelValue, Value, ValueView};
use crate::span::Span;
use crate::text;

verus! {

/// What evaluation reads besides the row.
pub struct EvalCtx<'a, G: GraphSource> {
    pub graph: &'a G,
    pub parameters: &'a PropertyMap,
    /// Results of floating-point operations supplied so far.
    pub floats: &'a FloatTable,
    /// Pre-computed aggregate results, consumed in traversal order by
    /// aggregate expressions.
    pub aggregates: Option<&'a Vec<Value>>,
}

impl<'a, G: GraphSource> EvalCtx<'a, G> {
    pub open spec fn view(&self) -> Env {
        Env {
            graph: self.graph.graph(),
            parameters: self.parameters@,
            floats: self.floats@,
            slots: match self.aggregates {
                Some(values) => Some(value::values_view(values@)),
                None => None,
            },
        }
    }

    /// A context without aggregate results.
    pub fn new(graph: &'a G, parameters: &'a PropertyMap, floats: &'a FloatTable) -> (r: Self)
        ensures
            r@ == (Env {
                graph: graph.graph(),
                parameters: parameters@,
                floats: floats@,
                slots: None,
            }),
    {
        EvalCtx { graph, parameters, floats, aggregates: None }
    }
}

/// What evaluation uses up: the per-query budget, which spans the whole query,
/// and the aggregate slots read so far.
pub struct EvalState {
    pub governor: Governor,
    pub cursor: usize,
}

impl EvalState {
    pub open spec fn view(&self) -> Spent {
        Spent { budget: self.governor@, cursor: self.cursor as nat }
    }

    /// A fresh state under `limits`.
    pub fn new(limits: QueryLimits) -> (r: EvalState)
        ensures
            r@.budget == Budget::fresh(limits),
            r@.cursor == 0,
    {
        EvalState { governor: Governor::new(limits), cursor: 0 }
    }
}

/// Whether evaluation came to what the model says. Where the clock is read on
/// the way, it may instead have been stopped by the backstop.
pub open spec fn evaluates(
    r: Result<Value, ExecError>,
    before: Spent,
    after: Spent,
    model: Evaluated,
) -> bool {
    &&& after.budget.timed == before.budget.timed
    &&& after.budget.polled >= before.budget.polled
    &&& governor::timed_out(before.budget, model.spent.budget, r) || (
        operators::agrees(r, model.result) && after == model.spent
    )
}

/// As [`evaluates`], for several expressions.
pub open spec fn evaluates_all(
    r: Result<Vec<Value>, ExecError>,
    before: Spent,
    after: Spent,
    model: EvaluatedAll,
) -> bool {
    &&& after.budget.timed == before.budget.timed
    &&& after.budget.polled >= before.budget.polled
    &&& governor::timed_out(before.budget, model.spent.budget, r) || (match r {
        Ok(v) => model.result == Ok::<_, ExecErrorView>(value::values_view(v@)),
        Err(e) => model.result == Err::<Seq<ValueView>, _>(e@),
    } && after == model.spent)
}

impl BoundExpr {
    pub fn span(&self) -> (r: Span)
        ensures
            r == semantics::bound_place(self@),
    {
        match self {
            BoundExpr::Literal { span, .. }
            | BoundExpr::Parameter { span, .. }
            | BoundExpr::Variable { span, .. }
            | BoundExpr::Property { span, .. }
            | BoundExpr::Unary { span, .. }
            | BoundExpr::Binary { span, .. }
            | BoundExpr::IsNull { span, .. }
            | BoundExpr::Function { span, .. }
            | BoundExpr::Aggregate { span, .. }
            | BoundExpr::Case { span, .. }
            | BoundExpr::ListLiteral { span, .. }
            | BoundExpr::ListComprehension { span, .. }
            | BoundExpr::Quantifier { span, .. }
            | BoundExpr::Reduce { span, .. }
            | BoundExpr::MapLiteral { span, .. }
            | BoundExpr::Index { span, .. }
            | BoundExpr::Slice { span, .. }
            | BoundExpr::PatternPredicate { span, .. } => *span,
        }
    }
}

// --- Expressions ----------------------------------------------------------------------------------

/// Evaluates `expr` over `row`.
pub fn eval<G: GraphSource>(
    expr: &BoundExpr,
    row: &Row,
    ctx: &EvalCtx<G>,
    state: &mut EvalState,
) -> (r: Result<Value, ExecError>)
    ensures
        evaluates(
            r,
            old(state)@,
            final(state)@,
            semantics::evaluated(expr@, row@, ctx@, old(state)@),
        ),
    decreases expr, 1nat,
{
    proof {
        budget_laws::lemma_steps(expr@, row@, ctx@, state@);
    }
    match expr {
        BoundExpr::Literal { value, .. } => match value {
            Literal::Null => Ok(Value::Null),
            Literal::Boolean(b) => Ok(Value::Bool(*b)),
            Literal::Integer(n) => Ok(Value::Int(*n)),
            Literal::Float(bits) => Ok(Value::Float(*bits)),
            Literal::String(s) => Ok(Value::String(s.clone())),
        },
        BoundExpr::Parameter { name, span } => match ctx.parameters.get(name.as_str()) {
            Some(v) => Ok(v.dup()),
            None => Err(ExecError::MissingParameter { name: name.clone(), span: *span }),
        },
        BoundExpr::Variable { id, .. } => Ok(row.get(*id)),
        BoundExpr::Property { base, key, span } => match eval(base, row, ctx, state) {
            Err(e) => Err(e),
            Ok(v) => access::property_access(&v, key.as_str(), *span),
        },
        BoundExpr::Unary { op, operand, span } => match eval(operand, row, ctx, state) {
            Err(e) => Err(e),
            // A read carrier decays to its string rendering the moment an
            // operator consumes it: from here on it is a string.
            Ok(v) => operators::unary(*op, v.decayed(), *span),
        },
        BoundExpr::Binary { .. } => eval_binary(expr, row, ctx, state),
        BoundExpr::IsNull { operand, negated, .. } => match eval(operand, row, ctx, state) {
            Err(e) => Err(e),
            Ok(v) => Ok(Value::Bool(v.is_null() != *negated)),
        },
        BoundExpr::Function { def, args, span } => match eval_arguments(args, row, ctx, state) {
            Err(e) => Err(e),
            Ok(values) => functions::call(
                def.name,
                values,
                *span,
                ctx.graph,
                ctx.floats,
                &mut state.governor,
            ),
        },
        BoundExpr::Aggregate { span, .. } => eval_aggregate(*span, ctx, state),
        BoundExpr::Case { operand, .. } => match operand {
            Some(subject) => match eval(subject, row, ctx, state) {
                Err(e) => Err(e),
                Ok(v) => eval_case(expr, Some(v), row, ctx, state),
            },
            None => eval_case(expr, None, row, ctx, state),
        },
        BoundExpr::ListLiteral { items, span } => match eval_items(items, *span, row, ctx, state) {
            Err(e) => Err(e),
            Ok(values) => Ok(Value::List(values)),
        },
        BoundExpr::ListComprehension { list, span, .. } => match eval(list, row, ctx, state) {
            Err(e) => Err(e),
            Ok(Value::Null) => Ok(Value::Null),
            Ok(Value::List(items)) => comprehend(expr, items, row, ctx, state),
            Ok(other) => Err(
                operators::type_err(
                    text::join2("expected a list, got ", other.type_label()),
                    *span,
                ),
            ),
        },
        BoundExpr::Quantifier { list, span, .. } => match eval(list, row, ctx, state) {
            Err(e) => Err(e),
            Ok(Value::Null) => Ok(Value::Null),
            Ok(Value::List(items)) => quantify(expr, items, row, ctx, state),
            Ok(other) => Err(
                operators::type_err(
                    text::join2("expected a list, got ", other.type_label()),
                    *span,
                ),
            ),
        },
        BoundExpr::Reduce { list, init, span, .. } => match eval(list, row, ctx, state) {
            Err(e) => Err(e),
            Ok(Value::Null) => {
                pass_over(init, ctx, state);
                Ok(Value::Null)
            },
            Ok(Value::List(items)) => match eval(init, row, ctx, state) {
                Err(e) => Err(e),
                Ok(acc) => reduce(expr, items, acc, row, ctx, state),
            },
            Ok(other) => Err(
                operators::type_err(
                    text::join2("reduce expects a list, got ", other.type_label()),
                    *span,
                ),
            ),
        },
        BoundExpr::MapLiteral { entries, span } => eval_entries(entries, *span, row, ctx, state),
        BoundExpr::Index { base, index, span } => match eval(base, row, ctx, state) {
            Err(e) => Err(e),
            Ok(x) => match eval(index, row, ctx, state) {
                Err(e) => Err(e),
                Ok(y) => access::index_access(x.decayed(), y.decayed(), *span),
            },
        },
        BoundExpr::Slice { .. } => eval_slice(expr, row, ctx, state),
        BoundExpr::PatternPredicate { pattern, .. } => match probe::pattern_exists(
            pattern,
            row,
            ctx.graph,
        ) {
            Ok(b) => Ok(Value::Bool(b)),
            Err(e) => Err(e),
        },
    }
}

/// Evaluates `expr` over `row`, for callers to which only the result matters.
pub(crate) fn eval_value<G: GraphSource>(
    expr: &BoundExpr,
    row: &Row,
    ctx: &EvalCtx<G>,
    state: &mut EvalState,
) -> (r: Result<Value, ExecError>)
    ensures
        evaluates(
            r,
            old(state)@,
            final(state)@,
            semantics::value_of(expr@, row@, ctx@, old(state)@),
        ),
{
    reveal(semantics::value_of);
    eval(expr, row, ctx, state)
}

fn eval_aggregate<G: GraphSource>(span: Span, ctx: &EvalCtx<G>, state: &mut EvalState) -> (r: Result<
    Value,
    ExecError,
>)
    ensures
        evaluates(
            r,
            old(state)@,
            final(state)@,
            semantics::aggregate_value(span, ctx@, old(state)@),
        ),
{
    match ctx.aggregates {
        None => Err(ExecError::Unsupported { feature: "aggregate outside projection", span }),
        Some(values) => if state.cursor < values.len() {
            let v = values[state.cursor].dup();
            state.cursor = state.cursor + 1;
            Ok(v)
        } else {
            Err(ExecError::Unsupported { feature: "aggregate slot mismatch", span })
        },
    }
}

fn eval_binary<G: GraphSource>(
    expr: &BoundExpr,
    row: &Row,
    ctx: &EvalCtx<G>,
    state: &mut EvalState,
) -> (r: Result<Value, ExecError>)
    requires
        expr is Binary,
    ensures
        evaluates(
            r,
            old(state)@,
            final(state)@,
            semantics::evaluated(expr@, row@, ctx@, old(state)@),
        ),
    decreases expr, 0nat,
{
    proof {
        budget_laws::lemma_steps(expr@, row@, ctx@, state@);
    }
    match expr {
        BoundExpr::Binary { op, lhs, rhs, span } => {
            let x = match eval(lhs, row, ctx, state) {
                Err(e) => {
                    return Err(e);
                },
                Ok(x) => x,
            };
            // AND/OR/XOR need ternary handling over both sides; everything
            // else evaluates strictly.
            if matches!(op, BinaryOp::And | BinaryOp::Or | BinaryOp::Xor) {
                let p = match operators::truth(&x, *span) {
                    Err(e) => {
                        return Err(e);
                    },
                    Ok(p) => p,
                };
                let y = match eval(rhs, row, ctx, state) {
                    Err(e) => {
                        return Err(e);
                    },
                    Ok(y) => y,
                };
                match operators::truth(&y, *span) {
                    Err(e) => Err(e),
                    Ok(q) => Ok(operators::ternary_to_value(operators::logic(*op, p, q))),
                }
            } else {
                let y = match eval(rhs, row, ctx, state) {
                    Err(e) => {
                        return Err(e);
                    },
                    Ok(y) => y,
                };
                arith::binary(
                    *op,
                    x.decayed(),
                    y.decayed(),
                    *span,
                    ctx.floats,
                    &mut state.governor,
                )
            }
        },
        _ => Ok(Value::Null),
    }
}

fn eval_slice<G: GraphSource>(
    expr: &BoundExpr,
    row: &Row,
    ctx: &EvalCtx<G>,
    state: &mut EvalState,
) -> (r: Result<Value, ExecError>)
    requires
        expr is Slice,
    ensures
        evaluates(
            r,
            old(state)@,
            final(state)@,
            semantics::evaluated(expr@, row@, ctx@, old(state)@),
        ),
    decreases expr, 0nat,
{
    proof {
        budget_laws::lemma_steps(expr@, row@, ctx@, state@);
    }
    match expr {
        BoundExpr::Slice { base, from, to, span } => {
            let x = match eval(base, row, ctx, state) {
                Err(e) => {
                    return Err(e);
                },
                Ok(x) => x,
            };
            let p: Option<Value> = match from {
                Some(from) => match eval(from, row, ctx, state) {
                    Err(e) => {
                        return Err(e);
                    },
                    Ok(p) => Some(p.decayed()),
                },
                None => None,
            };
            let q: Option<Value> = match to {
                Some(to) => match eval(to, row, ctx, state) {
                    Err(e) => {
                        return Err(e);
                    },
                    Ok(q) => Some(q.decayed()),
                },
                None => None,
            };
            access::slice_access(x.decayed(), p, q, *span)
        },
        _ => Ok(Value::Null),
    }
}

pub(crate) fn eval_arguments<G: GraphSource>(
    args: &Vec<BoundExpr>,
    row: &Row,
    ctx: &EvalCtx<G>,
    state: &mut EvalState,
) -> (r: Result<Vec<Value>, ExecError>)
    ensures
        evaluates_all(
            r,
            old(state)@,
            final(state)@,
            semantics::arguments_from(
                bound::bound_exprs_view(args@),
                0,
                seq![],
                row@,
                ctx@,
                old(state)@,
            ),
        ),
    decreases args, 0nat,
{
    let ghost all = bound::bound_exprs_view(args@);
    let ghost model = semantics::arguments_from(all, 0, seq![], row@, ctx@, state@);
    let mut out: Vec<Value> = Vec::new();
    let mut i: usize = 0;
    assert(value::values_view(out@) =~= seq![]);
    while i < args.len()
        invariant
            i <= args.len(),
            all == bound::bound_exprs_view(args@),
            state@.budget.timed == old(state)@.budget.timed,
            state@.budget.polled >= old(state)@.budget.polled,
            model == semantics::arguments_from(all, 0, seq![], row@, ctx@, old(state)@),
            model == semantics::arguments_from(
                all,
                i as int,
                value::values_view(out@),
                row@,
                ctx@,
                state@,
            ),
        decreases args.len() - i,
    {
        proof {
            budget_laws::lemma_arguments(
                all,
                i as int,
                value::values_view(out@),
                row@,
                ctx@,
                state@,
            );
            assert(decreases_to!(*args => args@[i as int]));
            assert(all[i as int] == args@[i as int]@);
        }
        match eval(&args[i], row, ctx, state) {
            Err(e) => {
                return Err(e);
            },
            Ok(v) => {
                let v = v.decayed();
                proof {
                    assert(value::values_view(out@.push(v)) =~= value::values_view(out@).push(v@));
                }
                out.push(v);
            },
        }
        i += 1;
    }
    Ok(out)
}

fn eval_items<G: GraphSource>(
    items: &Vec<BoundExpr>,
    span: Span,
    row: &Row,
    ctx: &EvalCtx<G>,
    state: &mut EvalState,
) -> (r: Result<Vec<Value>, ExecError>)
    ensures
        evaluates_all(
            r,
            old(state)@,
            final(state)@,
            semantics::items_from(
                bound::bound_exprs_view(items@),
                span,
                0,
                seq![],
                row@,
                ctx@,
                old(state)@,
            ),
        ),
    decreases items, 0nat,
{
    let ghost all = bound::bound_exprs_view(items@);
    let ghost model = semantics::items_from(all, span, 0, seq![], row@, ctx@, state@);
    let mut out: Vec<Value> = Vec::new();
    let mut i: usize = 0;
    assert(value::values_view(out@) =~= seq![]);
    while i < items.len()
        invariant
            i <= items.len(),
            all == bound::bound_exprs_view(items@),
            state@.budget.timed == old(state)@.budget.timed,
            state@.budget.polled >= old(state)@.budget.polled,
            model == semantics::items_from(all, span, 0, seq![], row@, ctx@, old(state)@),
            model == semantics::items_from(
                all,
                span,
                i as int,
                value::values_view(out@),
                row@,
                ctx@,
                state@,
            ),
        decreases items.len() - i,
    {
        proof {
            budget_laws::lemma_items(
                all,
                span,
                i as int,
                value::values_view(out@),
                row@,
                ctx@,
                state@,
            );
            assert(decreases_to!(*items => items@[i as int]));
            assert(all[i as int] == items@[i as int]@);
        }
        match eval(&items[i], row, ctx, state) {
            Err(e) => {
                return Err(e);
            },
            Ok(v) => {
                // The construction-time depth cap: a list literal inside a
                // reduce is how a shallow query builds a deep value.
                if let Err(e) = arith::ensure_nestable(&v, span) {
                    return Err(e);
                }
                proof {
                    assert(value::values_view(out@.push(v)) =~= value::values_view(out@).push(v@));
                }
                out.push(v);
            },
        }
        i += 1;
    }
    Ok(out)
}

fn eval_entries<G: GraphSource>(
    entries: &Vec<(String, BoundExpr)>,
    span: Span,
    row: &Row,
    ctx: &EvalCtx<G>,
    state: &mut EvalState,
) -> (r: Result<Value, ExecError>)
    ensures
        evaluates(
            r,
            old(state)@,
            final(state)@,
            semantics::entries_from(
                bound::string_bound_exprs_view(entries@),
                span,
                0,
                PropertyMapView::empty(),
                row@,
                ctx@,
                old(state)@,
            ),
        ),
    decreases entries, 0nat,
{
    let ghost all = bound::string_bound_exprs_view(entries@);
    let ghost model = semantics::entries_from(
        all,
        span,
        0,
        PropertyMapView::empty(),
        row@,
        ctx@,
        state@,
    );
    let mut map = PropertyMap::new();
    let mut i: usize = 0;
    while i < entries.len()
        invariant
            i <= entries.len(),
            all == bound::string_bound_exprs_view(entries@),
            state@.budget.timed == old(state)@.budget.timed,
            state@.budget.polled >= old(state)@.budget.polled,
            model == semantics::entries_from(
                all,
                span,
                0,
                PropertyMapView::empty(),
                row@,
                ctx@,
                old(state)@,
            ),
            model == semantics::entries_from(all, span, i as int, map@, row@, ctx@, state@),
        decreases entries.len() - i,
    {
        proof {
            budget_laws::lemma_entries(all, span, i as int, map@, row@, ctx@, state@);
            assert(decreases_to!(*entries => entries@[i as int].1));
            assert(all[i as int] == (entries@[i as int].0@, entries@[i as int].1@));
        }
        match eval(&entries[i].1, row, ctx, state) {
            Err(e) => {
                return Err(e);
            },
            Ok(v) => {
                if let Err(e) = arith::ensure_nestable(&v, span) {
                    return Err(e);
                }
                map.insert(entries[i].0.clone(), v);
            },
        }
        i += 1;
    }
    Ok(Value::Mapping(map))
}

fn eval_case<G: GraphSource>(
    expr: &BoundExpr,
    subject: Option<Value>,
    row: &Row,
    ctx: &EvalCtx<G>,
    state: &mut EvalState,
) -> (r: Result<Value, ExecError>)
    requires
        expr is Case,
    ensures
        evaluates(
            r,
            old(state)@,
            final(state)@,
            semantics::case_from(expr@, access::optional_view(subject), 0, row@, ctx@, old(state)@),
        ),
    decreases expr, 0nat,
{
    match expr {
        BoundExpr::Case { whens, else_expr, .. } => {
            let ghost e = expr@;
            let ghost s = access::optional_view(subject);
            let ghost model = semantics::case_from(e, s, 0, row@, ctx@, state@);
            let mut i: usize = 0;
            while i < whens.len()
                invariant
                    i <= whens.len(),
                    expr is Case,
                    *whens == expr->whens,
                    e == expr@,
                    s == access::optional_view(subject),
                    e is Case,
                    e->whens == bound::bound_expr_bound_exprs_view(whens@),
                    state@.budget.timed == old(state)@.budget.timed,
                    state@.budget.polled >= old(state)@.budget.polled,
                    model == semantics::case_from(e, s, 0, row@, ctx@, old(state)@),
                    model == semantics::case_from(e, s, i as int, row@, ctx@, state@),
                decreases whens.len() - i,
            {
                proof {
                    budget_laws::lemma_case(e, s, i as int, row@, ctx@, state@);
                    assert(decreases_to!(*expr => expr->whens@[i as int].0));
                    assert(decreases_to!(*expr => expr->whens@[i as int].1));
                    assert(e->whens[i as int] == (whens@[i as int].0@, whens@[i as int].1@));
                }
                let v = match eval(&whens[i].0, row, ctx, state) {
                    Err(e) => {
                        return Err(e);
                    },
                    Ok(v) => v,
                };
                let taken: bool = match &subject {
                    Some(s) => s.eq3(&v) == Some(true),
                    None => match operators::truth(&v, whens[i].1.span()) {
                        Err(e) => {
                            return Err(e);
                        },
                        Ok(t) => t == Some(true),
                    },
                };
                if taken {
                    let r = eval(&whens[i].1, row, ctx, state);
                    if r.is_ok() {
                        pass_rest(expr, i + 1, ctx, state);
                    }
                    return r;
                }
                pass_over(&whens[i].1, ctx, state);
                i += 1;
            }
            match else_expr {
                Some(otherwise) => eval(otherwise, row, ctx, state),
                None => Ok(Value::Null),
            }
        },
        _ => Ok(Value::Null),
    }
}

/// Leave `n` aggregate slots behind without reading them.
fn pass_slots<G: GraphSource>(n: usize, ctx: &EvalCtx<G>, state: &mut EvalState)
    ensures
        final(state)@ == semantics::past(old(state)@, ctx@, n as nat),
{
    if let Some(values) = ctx.aggregates {
        if state.cursor <= values.len() && n <= values.len() - state.cursor {
            state.cursor = state.cursor + n;
        } else {
            state.cursor = values.len();
        }
    }
}

/// Pass over the aggregates of an expression that is not evaluated.
fn pass_over<G: GraphSource>(expr: &BoundExpr, ctx: &EvalCtx<G>, state: &mut EvalState)
    ensures
        final(state)@ == semantics::past(
            old(state)@,
            ctx@,
            projection_model::aggregates_in(expr@).len(),
        ),
{
    if ctx.aggregates.is_some() {
        let mut inside: Vec<&BoundExpr> = Vec::new();
        aggregate::collect_aggregates(expr, &mut inside);
        pass_slots(inside.len(), ctx, state);
    }
}

/// Pass over the aggregates of a `CASE` from its `i`-th branch on.
fn pass_rest<G: GraphSource>(expr: &BoundExpr, i: usize, ctx: &EvalCtx<G>, state: &mut EvalState)
    requires
        expr is Case,
        i <= expr->whens@.len(),
    ensures
        final(state)@ == semantics::past(
            old(state)@,
            ctx@,
            semantics::aggregates_behind(expr@->whens, expr@->else_expr, i as int),
        ),
{
    if ctx.aggregates.is_none() {
        return;
    }
    if let BoundExpr::Case { whens, else_expr, .. } = expr {
        let ghost all = expr@->whens;
        let ghost otherwise = expr@->else_expr;
        let ghost whole = semantics::aggregates_behind(all, otherwise, i as int);
        let mut inside: Vec<&BoundExpr> = Vec::new();
        let mut k: usize = i;
        while k < whens.len()
            invariant
                k <= whens.len(),
                all == bound::bound_expr_bound_exprs_view(whens@),
                whole == inside@.len() + semantics::aggregates_behind(all, otherwise, k as int),
            decreases whens.len() - k,
        {
            assert(all[k as int] == (whens@[k as int].0@, whens@[k as int].1@));
            aggregate::collect_aggregates(&whens[k].0, &mut inside);
            aggregate::collect_aggregates(&whens[k].1, &mut inside);
            assert(aggregate::expr_refs(inside@).len() == inside@.len());
            k += 1;
        }
        if let Some(otherwise) = else_expr {
            aggregate::collect_aggregates(otherwise, &mut inside);
            assert(aggregate::expr_refs(inside@).len() == inside@.len());
        }
        pass_slots(inside.len(), ctx, state);
    }
}

fn comprehend<G: GraphSource>(
    expr: &BoundExpr,
    items: Vec<Value>,
    row: &Row,
    ctx: &EvalCtx<G>,
    state: &mut EvalState,
) -> (r: Result<Value, ExecError>)
    requires
        expr is ListComprehension,
    ensures
        evaluates(
            r,
            old(state)@,
            final(state)@,
            semantics::comprehended_from(
                expr@,
                value::values_view(items@),
                0,
                seq![],
                row@,
                ctx@,
                old(state)@,
            ),
        ),
    decreases expr, 0nat,
{
    let ghost e = expr@;
    let ghost values = value::values_view(items@);
    let ghost model = semantics::comprehended_from(e, values, 0, seq![], row@, ctx@, state@);
    let mut out: Vec<Value> = Vec::new();
    let mut i: usize = 0;
    assert(value::values_view(out@) =~= seq![]);
    while i < items.len()
        invariant
            i <= items.len(),
            expr is ListComprehension,
            e == expr@,
            values == value::values_view(items@),
            state@.budget.timed == old(state)@.budget.timed,
            state@.budget.polled >= old(state)@.budget.polled,
            model == semantics::comprehended_from(e, values, 0, seq![], row@, ctx@, old(state)@),
            model == semantics::comprehended_from(
                e,
                values,
                i as int,
                value::values_view(out@),
                row@,
                ctx@,
                state@,
            ),
        decreases items.len() - i,
    {
        proof {
            budget_laws::lemma_comprehended(
                e,
                values,
                i as int,
                value::values_view(out@),
                row@,
                ctx@,
                state@,
            );
        }
        match expr {
            BoundExpr::ListComprehension { variable, where_clause, map, span, .. } => {
                let item = items[i].dup();
                let mut inner = row.dup();
                inner.set(*variable, item);
                assert(values[i as int] == items@[i as int]@);
                assert(inner@ == row@.insert(variable.0, values[i as int]));
                let mut keep: bool = true;
                if let Some(predicate) = where_clause {
                    match eval(predicate, &inner, ctx, state) {
                        Err(e) => {
                            return Err(e);
                        },
                        Ok(v) => match operators::truth(&v, *span) {
                            Err(e) => {
                                return Err(e);
                            },
                            Ok(t) => {
                                keep = t == Some(true);
                            },
                        },
                    }
                }
                if keep {
                    assert(model == semantics::comprehended_element(
                        e,
                        values,
                        i as int,
                        value::values_view(out@),
                        row@,
                        ctx@,
                        state@,
                    ));
                    proof {
                        budget_laws::lemma_element(
                            e,
                            values,
                            i as int,
                            value::values_view(out@),
                            row@,
                            ctx@,
                            state@,
                        );
                    }
                    // Charge each produced element against the collection cap,
                    // so a comprehension over a large list is bounded.
                    if let Err(e) = state.governor.collection_push(out.len()) {
                        return Err(e);
                    }
                    let value = match map {
                        Some(map) => match eval(map, &inner, ctx, state) {
                            Err(e) => {
                                return Err(e);
                            },
                            Ok(v) => v,
                        },
                        None => items[i].dup(),
                    };
                    if let Err(e) = arith::ensure_nestable(&value, *span) {
                        return Err(e);
                    }
                    proof {
                        assert(
                            value::values_view(out@.push(value)) =~= value::values_view(out@).push(value@)
                        );
                    }
                    out.push(value);
                }
            },
            _ => {},
        }
        i += 1;
    }
    Ok(Value::List(out))
}

/// Evaluates a list-predicate quantifier with openCypher three-valued
/// semantics, by counting the elements whose predicate is true and unknown.
fn quantify<G: GraphSource>(
    expr: &BoundExpr,
    items: Vec<Value>,
    row: &Row,
    ctx: &EvalCtx<G>,
    state: &mut EvalState,
) -> (r: Result<Value, ExecError>)
    requires
        expr is Quantifier,
    ensures
        evaluates(
            r,
            old(state)@,
            final(state)@,
            semantics::quantified_from(
                expr@,
                value::values_view(items@),
                0,
                0,
                0,
                row@,
                ctx@,
                old(state)@,
            ),
        ),
    decreases expr, 0nat,
{
    let ghost e = expr@;
    let ghost values = value::values_view(items@);
    let ghost model = semantics::quantified_from(e, values, 0, 0, 0, row@, ctx@, state@);
    let mut t: usize = 0;
    let mut n: usize = 0;
    let mut i: usize = 0;
    while i < items.len()
        invariant
            i <= items.len(),
            t + n <= i,
            expr is Quantifier,
            e == expr@,
            values == value::values_view(items@),
            state@.budget.timed == old(state)@.budget.timed,
            state@.budget.polled >= old(state)@.budget.polled,
            model == semantics::quantified_from(e, values, 0, 0, 0, row@, ctx@, old(state)@),
            model == semantics::quantified_from(
                e,
                values,
                i as int,
                t as nat,
                n as nat,
                row@,
                ctx@,
                state@,
            ),
        decreases items.len() - i,
    {
        proof {
            budget_laws::lemma_quantified(
                e,
                values,
                i as int,
                t as nat,
                n as nat,
                row@,
                ctx@,
                state@,
            );
        }
        match expr {
            BoundExpr::Quantifier { variable, predicate, span, .. } => {
                // Charge each predicate evaluation so a quantifier over a
                // large list is accounted for.
                if let Err(e) = state.governor.collection_push(i) {
                    return Err(e);
                }
                let mut inner = row.dup();
                inner.set(*variable, items[i].dup());
                assert(values[i as int] == items@[i as int]@);
                assert(inner@ == row@.insert(variable.0, values[i as int]));
                match eval(predicate, &inner, ctx, state) {
                    Err(e) => {
                        return Err(e);
                    },
                    Ok(v) => match operators::truth(&v, *span) {
                        Err(e) => {
                            return Err(e);
                        },
                        Ok(Some(true)) => {
                            t += 1;
                        },
                        Ok(Some(false)) => {},
                        Ok(None) => {
                            n += 1;
                        },
                    },
                }
            },
            _ => {},
        }
        i += 1;
    }
    match expr {
        BoundExpr::Quantifier { kind, .. } => Ok(settle(*kind, t, n, items.len() - t - n)),
        _ => Ok(Value::Null),
    }
}

fn settle(kind: QuantifierKind, t: usize, n: usize, f: usize) -> (r: Value)
    ensures
        r@ == semantics::quantified(kind, t as nat, n as nat, f as nat),
{
    match kind {
        QuantifierKind::Any => if t >= 1 {
            Value::Bool(true)
        } else if n >= 1 {
            Value::Null
        } else {
            Value::Bool(false)
        },
        QuantifierKind::All => if f >= 1 {
            Value::Bool(false)
        } else if n >= 1 {
            Value::Null
        } else {
            Value::Bool(true)
        },
        QuantifierKind::NoneOf => if t >= 1 {
            Value::Bool(false)
        } else if n >= 1 {
            Value::Null
        } else {
            Value::Bool(true)
        },
        QuantifierKind::Single => if t == 1 && n == 0 {
            Value::Bool(true)
        } else if t >= 2 || (t == 0 && n == 0) {
            Value::Bool(false)
        } else {
            Value::Null
        },
    }
}

fn reduce<G: GraphSource>(
    expr: &BoundExpr,
    items: Vec<Value>,
    init: Value,
    row: &Row,
    ctx: &EvalCtx<G>,
    state: &mut EvalState,
) -> (r: Result<Value, ExecError>)
    requires
        expr is Reduce,
    ensures
        evaluates(
            r,
            old(state)@,
            final(state)@,
            semantics::reduced_from(
                expr@,
                value::values_view(items@),
                0,
                init@,
                row@,
                ctx@,
                old(state)@,
            ),
        ),
    decreases expr, 0nat,
{
    let ghost e = expr@;
    let ghost values = value::values_view(items@);
    let ghost model = semantics::reduced_from(e, values, 0, init@, row@, ctx@, state@);
    let mut acc = init;
    let mut i: usize = 0;
    while i < items.len()
        invariant
            i <= items.len(),
            expr is Reduce,
            e == expr@,
            values == value::values_view(items@),
            state@.budget.timed == old(state)@.budget.timed,
            state@.budget.polled >= old(state)@.budget.polled,
            model == semantics::reduced_from(e, values, 0, init@, row@, ctx@, old(state)@),
            model == semantics::reduced_from(e, values, i as int, acc@, row@, ctx@, state@),
        decreases items.len() - i,
    {
        proof {
            budget_laws::lemma_reduced(e, values, i as int, acc@, row@, ctx@, state@);
        }
        match expr {
            BoundExpr::Reduce { accumulator, variable, expr: step, .. } => {
                // Charge each fold step so a reduce over a large list is
                // accounted for.
                if let Err(e) = state.governor.collection_push(i) {
                    return Err(e);
                }
                let mut inner = row.dup();
                assert(values[i as int] == items@[i as int]@);
                inner.set(*accumulator, acc);
                inner.set(*variable, items[i].dup());
                match eval(step, &inner, ctx, state) {
                    Err(e) => {
                        return Err(e);
                    },
                    Ok(v) => {
                        acc = v;
                    },
                }
            },
            _ => {
                return Ok(acc);
            },
        }
        i += 1;
    }
    Ok(acc)
}

} // verus!
