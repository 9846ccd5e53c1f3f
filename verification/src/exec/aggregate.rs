//! Aggregation over groups of rows.

use vstd::prelude::*;
use vstd::string::*;

use crate::bind::bound::{self, BoundExpr, BoundExprView};
use crate::exec::arith;
use crate::exec::compare;
use crate::exec::eval::{self, EvalCtx, EvalState};
use crate::exec::fault::{ExecError, ExecErrorView, FloatOp, FloatRequest, FloatRequestView};
use crate::exec::float::{self, FloatAnswerView, FloatTable};
use crate::exec::operators;
use crate::exec::projection_model::{self, Sum};
use crate::exec::row::{self, Row};
use crate::exec::source::GraphSource;
use crate::exec::value::{self, Order, Value, ValueView};
use crate::span::Span;
use crate::text;

verus! {

pub(crate) open spec fn expr_refs(v: Seq<&BoundExpr>) -> Seq<BoundExprView> {
    Seq::new(v.len(), |i: int| v[i]@)
}

/// Enumerate the aggregates of an expression in the order in which evaluation
/// comes to them (depth-first), whether it evaluates them or passes over them.
/// Aggregate arguments cannot contain aggregates, so no recursion into them.
pub(crate) fn collect_aggregates<'e>(expr: &'e BoundExpr, out: &mut Vec<&'e BoundExpr>)
    ensures
        expr_refs(final(out)@) == expr_refs(old(out)@) + projection_model::aggregates_in(expr@),
    decreases expr, 0nat,
{
    let ghost before = expr_refs(out@);
    match expr {
        BoundExpr::Aggregate { .. } => {
            out.push(expr);
        },
        BoundExpr::Literal { .. } | BoundExpr::Parameter { .. } | BoundExpr::Variable { .. } => {},
        BoundExpr::Property { base, .. } => collect_aggregates(base, out),
        BoundExpr::Unary { operand, .. } => collect_aggregates(operand, out),
        BoundExpr::IsNull { operand, .. } => collect_aggregates(operand, out),
        BoundExpr::Binary { lhs, rhs, .. } => {
            collect_aggregates(lhs, out);
            collect_aggregates(rhs, out);
        },
        BoundExpr::Function { args, .. } => collect_in_all(args, out),
        BoundExpr::Case { operand, whens, else_expr, .. } => {
            if let Some(operand) = operand {
                collect_aggregates(operand, out);
            }
            let mut i: usize = 0;
            let ghost first = expr_refs(out@);
            let ghost ws = bound::bound_expr_bound_exprs_view(whens@);
            assert(expr_refs(out@) =~= first + projection_model::aggregates_in_whens(ws, 0));
            while i < whens.len()
                invariant
                    i <= whens.len(),
                    expr is Case,
                    *whens == expr->whens,
                    ws == bound::bound_expr_bound_exprs_view(whens@),
                    expr_refs(out@) == first + projection_model::aggregates_in_whens(ws, i as nat),
                decreases whens.len() - i,
            {
                proof {
                    assert(decreases_to!(*expr => expr->whens@[i as int].0));
                    assert(decreases_to!(*expr => expr->whens@[i as int].1));
                    assert(ws[i as int] == (whens@[i as int].0@, whens@[i as int].1@));
                }
                collect_aggregates(&whens[i].0, out);
                collect_aggregates(&whens[i].1, out);
                i += 1;
                assert(
                    expr_refs(out@) =~= first + projection_model::aggregates_in_whens(ws, i as nat)
                );
            }
            if let Some(otherwise) = else_expr {
                collect_aggregates(otherwise, out);
            }
        },
        BoundExpr::ListLiteral { items, .. } => collect_in_all(items, out),
        BoundExpr::ListComprehension { list, where_clause, map, .. } => {
            collect_aggregates(list, out);
            if let Some(e) = where_clause {
                collect_aggregates(e, out);
            }
            if let Some(e) = map {
                collect_aggregates(e, out);
            }
        },
        BoundExpr::Quantifier { list, predicate, .. } => {
            collect_aggregates(list, out);
            collect_aggregates(predicate, out);
        },
        BoundExpr::Reduce { init, list, expr: step, .. } => {
            collect_aggregates(list, out);
            collect_aggregates(init, out);
            collect_aggregates(step, out);
        },
        BoundExpr::MapLiteral { entries, .. } => {
            let mut i: usize = 0;
            let ghost es = bound::string_bound_exprs_view(entries@);
            assert(expr_refs(out@) =~= before + projection_model::aggregates_in_entries(es, 0));
            while i < entries.len()
                invariant
                    i <= entries.len(),
                    expr is MapLiteral,
                    *entries == expr->entries,
                    es == bound::string_bound_exprs_view(entries@),
                    expr_refs(out@) == before + projection_model::aggregates_in_entries(es, i as nat),
                decreases entries.len() - i,
            {
                proof {
                    assert(decreases_to!(*expr => expr->entries@[i as int].1));
                    assert(es[i as int] == (entries@[i as int].0@, entries@[i as int].1@));
                }
                collect_aggregates(&entries[i].1, out);
                i += 1;
                assert(
                    expr_refs(out@) =~= before + projection_model::aggregates_in_entries(es, i as nat)
                );
            }
        },
        BoundExpr::Index { base, index, .. } => {
            collect_aggregates(base, out);
            collect_aggregates(index, out);
        },
        BoundExpr::Slice { base, from, to, .. } => {
            collect_aggregates(base, out);
            if let Some(e) = from {
                collect_aggregates(e, out);
            }
            if let Some(e) = to {
                collect_aggregates(e, out);
            }
        },
        BoundExpr::PatternPredicate { .. } => {},
    }
    assert(expr_refs(out@) =~= before + projection_model::aggregates_in(expr@));
}

fn collect_in_all<'e>(items: &'e Vec<BoundExpr>, out: &mut Vec<&'e BoundExpr>)
    ensures
        expr_refs(final(out)@) == expr_refs(old(out)@) + projection_model::aggregates_in_all(
            bound::bound_exprs_view(items@),
            items@.len(),
        ),
    decreases items, 0nat,
{
    let ghost before = expr_refs(out@);
    let ghost all = bound::bound_exprs_view(items@);
    let mut i: usize = 0;
    assert(expr_refs(out@) =~= before + projection_model::aggregates_in_all(all, 0));
    while i < items.len()
        invariant
            i <= items.len(),
            all == bound::bound_exprs_view(items@),
            expr_refs(out@) == before + projection_model::aggregates_in_all(all, i as nat),
        decreases items.len() - i,
    {
        proof {
            assert(decreases_to!(*items => items@[i as int]));
            assert(all[i as int] == items@[i as int]@);
        }
        collect_aggregates(&items[i], out);
        i += 1;
        assert(expr_refs(out@) =~= before + projection_model::aggregates_in_all(all, i as nat));
    }
}

/// The argument that an aggregate has.
pub open spec fn boxed_expr(o: Option<Box<BoundExpr>>) -> Option<Box<BoundExprView>> {
    match o {
        Some(e) => Some(Box::new(e@)),
        None => None,
    }
}

fn gather<G: GraphSource>(
    arg: &Option<Box<BoundExpr>>,
    group: &Vec<Row>,
    ctx: &EvalCtx<G>,
    st: &mut EvalState,
) -> (r: Result<Vec<Value>, ExecError>)
    ensures
        eval::evaluates_all(
            r,
            old(st)@,
            final(st)@,
            projection_model::gathered_from(
                boxed_expr(*arg),
                row::rows_view(group@),
                0,
                ctx@,
                old(st)@,
                seq![],
            ),
        ),
{
    broadcast use crate::exec::poll_laws::group_polls;

    let ghost a = boxed_expr(*arg);
    let ghost rows = row::rows_view(group@);
    let ghost model = projection_model::gathered_from(a, rows, 0, ctx@, st@, seq![]);
    let mut out: Vec<Value> = Vec::new();
    assert(value::values_view(out@) =~= seq![]);
    let mut i: usize = 0;
    while i < group.len()
        invariant
            i <= group.len(),
            a == boxed_expr(*arg),
            rows == row::rows_view(group@),
            st@.budget.timed == old(st)@.budget.timed,
            st@.budget.polled >= old(st)@.budget.polled,
            model == projection_model::gathered_from(a, rows, 0, ctx@, old(st)@, seq![]),
            model == projection_model::gathered_from(
                a,
                rows,
                i as int,
                ctx@,
                st@,
                value::values_view(out@),
            ),
        decreases group.len() - i,
    {
        broadcast use crate::exec::poll_laws::group_polls;

        reveal(projection_model::gathered_from);
        assert(rows[i as int] == group@[i as int]@);
        match arg {
            None => {
                let one = Value::Int(1);
                assert(value::values_view(out@.push(one)) =~= value::values_view(out@).push(one@));
                out.push(one);
            },
            Some(expr) => match eval::eval(expr, &group[i], ctx, st) {
                Err(e) => {
                    return Err(e);
                },
                Ok(v) => {
                    if !v.is_null() {
                        assert(
                            value::values_view(out@.push(v)) =~= value::values_view(out@).push(v@)
                        );
                        out.push(v);
                    }
                },
            },
        }
        i += 1;
    }
    reveal(projection_model::gathered_from);
    Ok(out)
}

fn is_seen(seen: &Vec<Value>, v: &Value) -> (r: bool)
    ensures
        r == projection_model::seen_before(value::values_view(seen@), v@),
{
    let ghost all = value::values_view(seen@);
    let mut i: usize = 0;
    while i < seen.len()
        invariant
            i <= seen.len(),
            all == value::values_view(seen@),
            forall|k: int| 0 <= k < i ==> compare::sort_order(#[trigger] all[k], v@) != Order::Equal,
        decreases seen.len() - i,
    {
        assert(all[i as int] == seen@[i as int]@);
        if seen[i].equivalent(v) {
            return true;
        }
        i += 1;
    }
    false
}

fn without_repeats(values: &Vec<Value>) -> (r: Vec<Value>)
    ensures
        value::values_view(r@) == projection_model::unique(
            value::values_view(values@),
            values@.len(),
        ),
{
    let ghost all = value::values_view(values@);
    let mut out: Vec<Value> = Vec::new();
    assert(value::values_view(out@) =~= projection_model::unique(all, 0));
    let mut i: usize = 0;
    while i < values.len()
        invariant
            i <= values.len(),
            all == value::values_view(values@),
            value::values_view(out@) == projection_model::unique(all, i as nat),
        decreases values.len() - i,
    {
        assert(all[i as int] == values@[i as int]@);
        if !is_seen(&out, &values[i]) {
            let v = values[i].dup();
            assert(value::values_view(out@.push(v)) =~= value::values_view(out@).push(v@));
            out.push(v);
        }
        i += 1;
    }
    out
}

fn add_floats(table: &FloatTable, a: u64, b: u64, span: Span) -> (r: Result<u64, ExecError>)
    ensures
        match r {
            Ok(x) => projection_model::float_sum(a, b, span, table@) == Ok::<u64, ExecErrorView>(x),
            Err(e) => projection_model::float_sum(a, b, span, table@) == Err::<u64, ExecErrorView>(e@),
        },
{
    table.number(FloatRequest::Binary { op: FloatOp::Add, a, b }, span)
}

proof fn lemma_sum_fails(
    values: Seq<ValueView>,
    m: nat,
    n: nat,
    span: Span,
    table: Seq<(FloatRequestView, FloatAnswerView)>,
)
    requires
        m <= n <= values.len(),
        projection_model::summed(values, m, span, table) is Err,
    ensures
        projection_model::summed(values, n, span, table) == projection_model::summed(values, m, span, table),
    decreases n,
{
    if m < n {
        lemma_sum_fails(values, m, (n - 1) as nat, span, table);
    }
}

proof fn lemma_total_fails(
    values: Seq<ValueView>,
    m: nat,
    n: nat,
    span: Span,
    table: Seq<(FloatRequestView, FloatAnswerView)>,
)
    requires
        m <= n <= values.len(),
        projection_model::totalled(values, m, span, table) is Err,
    ensures
        projection_model::totalled(values, n, span, table) == projection_model::totalled(values, m, span, table),
    decreases n,
{
    if m < n {
        lemma_total_fails(values, m, (n - 1) as nat, span, table);
    }
}

fn sum(values: &Vec<Value>, span: Span, table: &FloatTable) -> (r: Result<Value, ExecError>)
    ensures
        operators::agrees(
            r,
            projection_model::sum_value(value::values_view(values@), span, table@),
        ),
{
    let ghost all = value::values_view(values@);
    let mut ints: i64 = 0;
    let mut floats: u64 = 0;
    let mut any_float: bool = false;
    let mut i: usize = 0;
    while i < values.len()
        invariant
            i <= values.len(),
            all == value::values_view(values@),
            projection_model::summed(all, i as nat, span, table@) == Ok::<_, ExecErrorView>(
                Sum { ints, floats, any_float },
            ),
        decreases values.len() - i,
    {
        assert(all[i as int] == values@[i as int]@);
        proof {
            if projection_model::summed(all, (i + 1) as nat, span, table@) is Err {
                lemma_sum_fails(all, (i + 1) as nat, all.len(), span, table@);
            }
        }
        match &values[i] {
            Value::Int(n) => match ints.checked_add(*n) {
                Some(next) => {
                    ints = next;
                },
                None => {
                    return Err(ExecError::Overflow { span });
                },
            },
            Value::Float(x) => match add_floats(table, floats, *x, span) {
                Ok(next) => {
                    floats = next;
                    any_float = true;
                },
                Err(e) => {
                    return Err(e);
                },
            },
            other => {
                return Err(
                    operators::type_err(
                        text::join2("sum() needs numbers, got ", other.type_label()),
                        span,
                    ),
                );
            },
        }
        i += 1;
    }
    if any_float {
        match add_floats(table, floats, float::from_int(ints), span) {
            Ok(x) => Ok(Value::Float(x)),
            Err(e) => Err(e),
        }
    } else {
        Ok(Value::Int(ints))
    }
}

fn average(values: &Vec<Value>, span: Span, table: &FloatTable) -> (r: Result<Value, ExecError>)
    ensures
        operators::agrees(
            r,
            projection_model::average_value(value::values_view(values@), span, table@),
        ),
{
    let ghost all = value::values_view(values@);
    if values.len() == 0 {
        return Ok(Value::Null);
    }
    let mut total: u64 = 0;
    let mut i: usize = 0;
    while i < values.len()
        invariant
            i <= values.len(),
            values.len() > 0,
            all == value::values_view(values@),
            projection_model::totalled(
                all,
                i as nat,
                span,
                table@,
            ) == Ok::<_, ExecErrorView>(total),
        decreases values.len() - i,
    {
        assert(all[i as int] == values@[i as int]@);
        proof {
            if projection_model::totalled(all, (i + 1) as nat, span, table@) is Err {
                lemma_total_fails(all, (i + 1) as nat, all.len(), span, table@);
            }
        }
        let x: u64 = match &values[i] {
            Value::Int(n) => float::from_int(*n),
            Value::Float(x) => *x,
            other => {
                return Err(
                    operators::type_err(
                        text::join2("avg() needs numbers, got ", other.type_label()),
                        span,
                    ),
                );
            },
        };
        match add_floats(table, total, x, span) {
            Ok(next) => {
                total = next;
            },
            Err(e) => {
                return Err(e);
            },
        }
        i += 1;
    }
    let count: u64 = float::from_int(values.len() as i64);
    match table.number(FloatRequest::Binary { op: FloatOp::Div, a: total, b: count }, span) {
        Ok(x) => Ok(Value::Float(x)),
        Err(e) => Err(e),
    }
}

fn minimum(values: &Vec<Value>) -> (r: Value)
    ensures
        r@ == projection_model::least(value::values_view(values@), values@.len()),
{
    let ghost all = value::values_view(values@);
    if values.len() == 0 {
        return Value::Null;
    }
    let mut best: usize = 0;
    let mut i: usize = 1;
    while i < values.len()
        invariant
            1 <= i <= values.len(),
            best < i,
            all == value::values_view(values@),
            all[best as int] == projection_model::least(all, i as nat),
        decreases values.len() - i,
    {
        assert(all[i as int] == values@[i as int]@);
        assert(all[best as int] == values@[best as int]@);
        if values[i].sorted_against(&values[best]) == Order::Less {
            best = i;
        }
        i += 1;
    }
    assert(all[best as int] == values@[best as int]@);
    values[best].dup()
}

fn maximum(values: &Vec<Value>) -> (r: Value)
    ensures
        r@ == projection_model::greatest(value::values_view(values@), values@.len()),
{
    let ghost all = value::values_view(values@);
    if values.len() == 0 {
        return Value::Null;
    }
    let mut best: usize = 0;
    let mut i: usize = 1;
    while i < values.len()
        invariant
            1 <= i <= values.len(),
            best < i,
            all == value::values_view(values@),
            all[best as int] == projection_model::greatest(all, i as nat),
        decreases values.len() - i,
    {
        assert(all[i as int] == values@[i as int]@);
        assert(all[best as int] == values@[best as int]@);
        if values[i].sorted_against(&values[best]) != Order::Less {
            best = i;
        }
        i += 1;
    }
    assert(all[best as int] == values@[best as int]@);
    values[best].dup()
}

fn collect(values: Vec<Value>, span: Span) -> (r: Result<Value, ExecError>)
    ensures
        operators::agrees(
            r,
            if projection_model::all_nestable(value::values_view(values@)) {
                Ok(ValueView::List(value::values_view(values@)))
            } else {
                Err(arith::too_deep(span))
            },
        ),
{
    let ghost all = value::values_view(values@);
    let mut i: usize = 0;
    while i < values.len()
        invariant
            i <= values.len(),
            all == value::values_view(values@),
            forall|k: int| 0 <= k < i ==> arith::nestable(#[trigger] all[k]),
        decreases values.len() - i,
    {
        assert(all[i as int] == values@[i as int]@);
        if let Err(e) = arith::ensure_nestable(&values[i], span) {
            assert(!arith::nestable(all[i as int]));
            return Err(e);
        }
        i += 1;
    }
    Ok(Value::List(values))
}

fn aggregate(name: &str, values: Vec<Value>, span: Span, table: &FloatTable) -> (r: Result<
    Value,
    ExecError,
>)
    ensures
        operators::agrees(
            r,
            projection_model::aggregated(name@, value::values_view(values@), span, table@),
        ),
{
    if text::str_eq(name, "count") {
        Ok(Value::Int(values.len() as i64))
    } else if text::str_eq(name, "collect") {
        collect(values, span)
    } else if text::str_eq(name, "sum") {
        sum(&values, span, table)
    } else if text::str_eq(name, "avg") {
        average(&values, span, table)
    } else if text::str_eq(name, "min") {
        Ok(minimum(&values))
    } else if text::str_eq(name, "max") {
        Ok(maximum(&values))
    } else {
        Err(ExecError::Unsupported { feature: "aggregate", span })
    }
}

fn accumulate<G: GraphSource>(
    expr: &BoundExpr,
    group: &Vec<Row>,
    ctx: &EvalCtx<G>,
    st: &mut EvalState,
) -> (r: Result<Value, ExecError>)
    ensures
        eval::evaluates(
            r,
            old(st)@,
            final(st)@,
            projection_model::accumulated(expr@, row::rows_view(group@), ctx@, old(st)@),
        ),
{
    broadcast use crate::exec::poll_laws::group_polls;

    reveal(projection_model::accumulated);
    match expr {
        BoundExpr::Aggregate { def, distinct, arg, span } => {
            let values = match gather(arg, group, ctx, st) {
                Err(e) => {
                    return Err(e);
                },
                Ok(values) => values,
            };
            if *distinct {
                aggregate(def.name, without_repeats(&values), *span, ctx.floats)
            } else {
                aggregate(def.name, values, *span, ctx.floats)
            }
        },
        _ => Ok(Value::Null),
    }
}

/// Evaluate a projection item over a group: aggregates are accumulated across
/// the group's rows and non-aggregate parts use a representative row.
pub(crate) fn eval_with_group<G: GraphSource>(
    expr: &BoundExpr,
    group: &Vec<Row>,
    representative: &Row,
    ctx: &EvalCtx<G>,
    st: &mut EvalState,
) -> (r: Result<Value, ExecError>)
    ensures
        eval::evaluates(
            r,
            old(st)@,
            final(st)@,
            projection_model::evaluated_over(
                expr@,
                row::rows_view(group@),
                representative@,
                ctx@,
                old(st)@,
            ),
        ),
{
    broadcast use crate::exec::poll_laws::group_polls;

    reveal(projection_model::evaluated_over);
    let mut aggregates: Vec<&BoundExpr> = Vec::new();
    let ghost none = expr_refs(aggregates@);
    collect_aggregates(expr, &mut aggregates);
    let ghost all = projection_model::aggregates_in(expr@);
    assert(none + all =~= all);
    let ghost rows = row::rows_view(group@);
    let ghost model = projection_model::slots_from(all, 0, rows, ctx@, st@, seq![]);
    let mut slots: Vec<Value> = Vec::new();
    assert(value::values_view(slots@) =~= seq![]);
    let mut i: usize = 0;
    while i < aggregates.len()
        invariant
            i <= aggregates.len(),
            all == projection_model::aggregates_in(expr@),
            all == expr_refs(aggregates@),
            rows == row::rows_view(group@),
            st@.budget.timed == old(st)@.budget.timed,
            st@.budget.polled >= old(st)@.budget.polled,
            model == projection_model::slots_from(all, 0, rows, ctx@, old(st)@, seq![]),
            model == projection_model::slots_from(
                all,
                i as int,
                rows,
                ctx@,
                st@,
                value::values_view(slots@),
            ),
        decreases aggregates.len() - i,
    {
        broadcast use crate::exec::poll_laws::group_polls;

        reveal(projection_model::slots_from);
        reveal(projection_model::evaluated_over);
        assert(all[i as int] == aggregates@[i as int]@);
        match accumulate(aggregates[i], group, ctx, st) {
            Err(e) => {
                return Err(e);
            },
            Ok(v) => {
                assert(value::values_view(slots@.push(v)) =~= value::values_view(slots@).push(v@));
                slots.push(v);
            },
        }
        i += 1;
    }
    reveal(projection_model::slots_from);
    let inner = EvalCtx {
        graph: ctx.graph,
        parameters: ctx.parameters,
        floats: ctx.floats,
        aggregates: Some(&slots),
    };
    st.cursor = 0;
    eval::eval(expr, representative, &inner, st)
}

} // verus!
