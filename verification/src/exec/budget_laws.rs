//! What evaluating expressions does to the budget: limits stay, charges only
//! grow, and what succeeds stays within the caps.

use vstd::prelude::*;

use crate::ast::BinaryOp;
use crate::bind::bound::BoundExprView;
use crate::exec::arith;
use crate::exec::compare;
use crate::exec::fault::FloatRequestView;
use crate::exec::float::FloatAnswerView;
use crate::exec::functions;
use crate::exec::governor::Budget;
use crate::exec::operators;
use crate::exec::projection_model;
use crate::exec::semantics::{self, Env, Spent};
use crate::exec::source::GraphView;
use crate::exec::value::{PropertyMapView, ValueView};
use crate::span::Span;

verus! {

/// Whether `after` follows `before` by charges: the limits stay and the counters
/// do not go back. Where everything succeeded, counters that were within their
/// caps still are.
pub open spec fn follows(before: Budget, after: Budget, ok: bool) -> bool {
    &&& after.limits == before.limits
    &&& after.timed == before.timed
    &&& before.work <= after.work
    &&& before.expansion <= after.expansion
    &&& before.polled <= after.polled
    &&& !before.timed ==> after.polled == before.polled
    &&& ok && before.work <= before.limits.max_work_units ==> after.work
        <= before.limits.max_work_units
    &&& ok && before.expansion <= before.limits.max_expansion_steps ==> after.expansion
        <= before.limits.max_expansion_steps
}

/// Every kind of charge follows the budget before it.
pub proof fn charges_follow(b: Budget, n: u64, len: nat)
    ensures
        follows(b, b.charge(n).budget, b.charge(n).result is Ok),
        follows(b, b.row(len).budget, b.row(len).result is Ok),
        follows(b, b.hop().budget, b.hop().result is Ok),
        follows(b, b.collection(n).budget, b.collection(n).result is Ok),
        follows(b, b.collection_push(len).budget, b.collection_push(len).result is Ok),
{
}

pub(crate) proof fn lemma_binary(
    op: BinaryOp,
    a: ValueView,
    b: ValueView,
    span: Span,
    table: Seq<(FloatRequestView, FloatAnswerView)>,
    budget: Budget,
)
    ensures
        follows(
            budget,
            arith::binary_of(op, a, b, span, table, budget).budget,
            arith::binary_of(op, a, b, span, table, budget).result is Ok,
        ),
{
}

pub(crate) proof fn lemma_applied(
    name: Seq<char>,
    args: Seq<ValueView>,
    span: Span,
    graph: GraphView,
    table: Seq<(FloatRequestView, FloatAnswerView)>,
    budget: Budget,
)
    ensures
        follows(
            budget,
            functions::applied(name, args, span, graph, table, budget).budget,
            functions::applied(name, args, span, graph, table, budget).result is Ok,
        ),
{
}

/// Evaluating an expression charges the budget and nothing else: the limits stay,
/// the counters do not go back, and where it succeeds they stay within their
/// caps.
#[verifier::rlimit(60)]
pub proof fn evaluation_only_charges(
    e: BoundExprView,
    row: Map<u32, ValueView>,
    env: Env,
    spent: Spent,
)
    ensures
        ({
            let x = semantics::evaluated(e, row, env, spent);
            follows(spent.budget, x.spent.budget, x.result is Ok)
        }),
    decreases e, 1int, 0int,
{
    match e {
        BoundExprView::Literal { .. } => {},
        BoundExprView::Parameter { .. } => {},
        BoundExprView::Variable { .. } => {},
        BoundExprView::Property { base, .. } => {
            evaluation_only_charges(*base, row, env, spent);
        },
        BoundExprView::Unary { operand, .. } => {
            evaluation_only_charges(*operand, row, env, spent);
        },
        BoundExprView::Binary { op, lhs, rhs, span } => {
            let a = semantics::evaluated(*lhs, row, env, spent);
            evaluation_only_charges(*lhs, row, env, spent);
            let b = semantics::evaluated(*rhs, row, env, a.spent);
            evaluation_only_charges(*rhs, row, env, a.spent);
            if a.result is Ok && b.result is Ok {
                lemma_binary(
                    op,
                    compare::decayed(a.result->Ok_0),
                    compare::decayed(b.result->Ok_0),
                    span,
                    env.floats,
                    b.spent.budget,
                );
            }
        },
        BoundExprView::IsNull { operand, .. } => {
            evaluation_only_charges(*operand, row, env, spent);
        },
        BoundExprView::Function { def, args, span } => {
            lemma_arguments(args, 0, seq![], row, env, spent);
            let a = semantics::arguments_from(args, 0, seq![], row, env, spent);
            if a.result is Ok {
                lemma_applied(
                    def.name,
                    a.result->Ok_0,
                    span,
                    env.graph,
                    env.floats,
                    a.spent.budget,
                );
            }
        },
        BoundExprView::Aggregate { .. } => {},
        BoundExprView::Case { operand, .. } => {
            match operand {
                Some(subject) => {
                    let s = semantics::evaluated(*subject, row, env, spent);
                    evaluation_only_charges(*subject, row, env, spent);
                    if s.result is Ok {
                        lemma_case(e, Some(s.result->Ok_0), 0, row, env, s.spent);
                    }
                },
                None => {
                    lemma_case(e, None, 0, row, env, spent);
                },
            }
        },
        BoundExprView::ListLiteral { items, span } => {
            lemma_items(items, span, 0, seq![], row, env, spent);
        },
        BoundExprView::ListComprehension { list, .. } => {
            let l = semantics::evaluated(*list, row, env, spent);
            evaluation_only_charges(*list, row, env, spent);
            if let Ok(ValueView::List(values)) = l.result {
                lemma_comprehended(e, values, 0, seq![], row, env, l.spent);
            }
        },
        BoundExprView::Quantifier { list, .. } => {
            let l = semantics::evaluated(*list, row, env, spent);
            evaluation_only_charges(*list, row, env, spent);
            if let Ok(ValueView::List(values)) = l.result {
                lemma_quantified(e, values, 0, 0, 0, row, env, l.spent);
            }
        },
        BoundExprView::Reduce { init, list, .. } => {
            let l = semantics::evaluated(*list, row, env, spent);
            evaluation_only_charges(*list, row, env, spent);
            if let Ok(ValueView::List(values)) = l.result {
                let a = semantics::evaluated(*init, row, env, l.spent);
                evaluation_only_charges(*init, row, env, l.spent);
                if let Ok(acc) = a.result {
                    lemma_reduced(e, values, 0, acc, row, env, a.spent);
                }
            }
        },
        BoundExprView::MapLiteral { entries, span } => {
            lemma_entries(entries, span, 0, PropertyMapView::empty(), row, env, spent);
        },
        BoundExprView::Index { base, index, .. } => {
            let b = semantics::evaluated(*base, row, env, spent);
            evaluation_only_charges(*base, row, env, spent);
            evaluation_only_charges(*index, row, env, b.spent);
        },
        BoundExprView::Slice { base, from, to, .. } => {
            let b = semantics::evaluated(*base, row, env, spent);
            evaluation_only_charges(*base, row, env, spent);
            if let Some(from) = from {
                let f = semantics::evaluated(*from, row, env, b.spent);
                evaluation_only_charges(*from, row, env, b.spent);
                if let Some(to) = to {
                    evaluation_only_charges(*to, row, env, f.spent);
                }
            } else if let Some(to) = to {
                evaluation_only_charges(*to, row, env, b.spent);
            }
        },
        BoundExprView::PatternPredicate { .. } => {},
    }
}

/// Evaluating an expression reads the clock no earlier than evaluating what
/// comes first in it.
#[verifier::rlimit(60)]
pub(crate) proof fn lemma_steps(
    e: BoundExprView,
    row: Map<u32, ValueView>,
    env: Env,
    spent: Spent,
)
    ensures
        ({
            let x = semantics::evaluated(e, row, env, spent).spent.budget.polled;
            match e {
                BoundExprView::Binary { op, lhs, rhs, span } => {
                    let a = semantics::evaluated(*lhs, row, env, spent);
                    let b = semantics::evaluated(*rhs, row, env, a.spent);
                    let logic = op is And || op is Or || op is Xor;
                    &&& x >= a.spent.budget.polled
                    &&& a.result is Ok && (
                        logic ==> operators::truth_of(a.result->Ok_0, span) is Ok
                    )
                        ==> x >= b.spent.budget.polled
                },
                BoundExprView::Function { def, args, span } => x >= semantics::arguments_from(
                    args,
                    0,
                    seq![],
                    row,
                    env,
                    spent,
                ).spent.budget.polled,
                BoundExprView::Case { operand, .. } => operand matches Some(subject) ==> x
                    >= semantics::evaluated(*subject, row, env, spent).spent.budget.polled,
                BoundExprView::ListComprehension { list, .. } => x >= semantics::evaluated(
                    *list,
                    row,
                    env,
                    spent,
                ).spent.budget.polled,
                BoundExprView::Quantifier { list, .. } => x >= semantics::evaluated(
                    *list,
                    row,
                    env,
                    spent,
                ).spent.budget.polled,
                BoundExprView::Reduce { init, list, .. } => {
                    let l = semantics::evaluated(*list, row, env, spent);
                    &&& x >= l.spent.budget.polled
                    &&& l.result matches Ok(ValueView::List(_)) ==> x >= semantics::evaluated(
                        *init,
                        row,
                        env,
                        l.spent,
                    ).spent.budget.polled
                },
                BoundExprView::Index { base, .. } => x >= semantics::evaluated(
                    *base,
                    row,
                    env,
                    spent,
                ).spent.budget.polled,
                BoundExprView::Slice { base, from, .. } => {
                    let b = semantics::evaluated(*base, row, env, spent);
                    &&& x >= b.spent.budget.polled
                    &&& b.result is Ok && from is Some ==> x >= semantics::evaluated(
                        *from->0,
                        row,
                        env,
                        b.spent,
                    ).spent.budget.polled
                },
                _ => true,
            }
        }),
{
    match e {
        BoundExprView::Binary { op, lhs, rhs, span } => {
            let a = semantics::evaluated(*lhs, row, env, spent);
            let b = semantics::evaluated(*rhs, row, env, a.spent);
            evaluation_only_charges(*rhs, row, env, a.spent);
            if a.result is Ok && b.result is Ok {
                lemma_binary(
                    op,
                    compare::decayed(a.result->Ok_0),
                    compare::decayed(b.result->Ok_0),
                    span,
                    env.floats,
                    b.spent.budget,
                );
            }
        },
        BoundExprView::Function { def, args, span } => {
            let a = semantics::arguments_from(args, 0, seq![], row, env, spent);
            if a.result is Ok {
                lemma_applied(
                    def.name,
                    a.result->Ok_0,
                    span,
                    env.graph,
                    env.floats,
                    a.spent.budget,
                );
            }
        },
        BoundExprView::Case { operand, .. } => {
            if let Some(subject) = operand {
                let s = semantics::evaluated(*subject, row, env, spent);
                if s.result is Ok {
                    lemma_case(e, Some(s.result->Ok_0), 0, row, env, s.spent);
                }
            }
        },
        BoundExprView::ListComprehension { list, .. } => {
            let l = semantics::evaluated(*list, row, env, spent);
            if let Ok(ValueView::List(values)) = l.result {
                lemma_comprehended(e, values, 0, seq![], row, env, l.spent);
            }
        },
        BoundExprView::Quantifier { list, .. } => {
            let l = semantics::evaluated(*list, row, env, spent);
            if let Ok(ValueView::List(values)) = l.result {
                lemma_quantified(e, values, 0, 0, 0, row, env, l.spent);
            }
        },
        BoundExprView::Reduce { init, list, .. } => {
            let l = semantics::evaluated(*list, row, env, spent);
            if let Ok(ValueView::List(values)) = l.result {
                let a = semantics::evaluated(*init, row, env, l.spent);
                evaluation_only_charges(*init, row, env, l.spent);
                if let Ok(acc) = a.result {
                    lemma_reduced(e, values, 0, acc, row, env, a.spent);
                }
            }
        },
        BoundExprView::Index { base, index, .. } => {
            let b = semantics::evaluated(*base, row, env, spent);
            evaluation_only_charges(*index, row, env, b.spent);
        },
        BoundExprView::Slice { base, from, to, .. } => {
            let b = semantics::evaluated(*base, row, env, spent);
            if let Some(from) = from {
                let f = semantics::evaluated(*from, row, env, b.spent);
                evaluation_only_charges(*from, row, env, b.spent);
                if let Some(to) = to {
                    evaluation_only_charges(*to, row, env, f.spent);
                }
            } else if let Some(to) = to {
                evaluation_only_charges(*to, row, env, b.spent);
            }
        },
        _ => {},
    }
}

pub(crate) proof fn lemma_arguments(
    args: Seq<BoundExprView>,
    i: int,
    before: Seq<ValueView>,
    row: Map<u32, ValueView>,
    env: Env,
    spent: Spent,
)
    ensures
        ({
            let x = semantics::arguments_from(args, i, before, row, env, spent);
            &&& follows(spent.budget, x.spent.budget, x.result is Ok)
            &&& !(i < 0 || i >= args.len()) ==> x.spent.budget.polled >= semantics::evaluated(
                args[i],
                row,
                env,
                spent,
            ).spent.budget.polled
        }),
    decreases args, 0int, args.len() - i,
{
    if !(i < 0 || i >= args.len()) {
        let a = semantics::evaluated(args[i], row, env, spent);
        evaluation_only_charges(args[i], row, env, spent);
        if let Ok(v) = a.result {
            lemma_arguments(args, i + 1, before.push(compare::decayed(v)), row, env, a.spent);
        }
    }
}

pub(crate) proof fn lemma_items(
    items: Seq<BoundExprView>,
    span: Span,
    i: int,
    before: Seq<ValueView>,
    row: Map<u32, ValueView>,
    env: Env,
    spent: Spent,
)
    ensures
        ({
            let x = semantics::items_from(items, span, i, before, row, env, spent);
            &&& follows(spent.budget, x.spent.budget, x.result is Ok)
            &&& !(i < 0 || i >= items.len()) ==> x.spent.budget.polled >= semantics::evaluated(
                items[i],
                row,
                env,
                spent,
            ).spent.budget.polled
        }),
    decreases items, 0int, items.len() - i,
{
    if !(i < 0 || i >= items.len()) {
        let a = semantics::evaluated(items[i], row, env, spent);
        evaluation_only_charges(items[i], row, env, spent);
        if let Ok(v) = a.result {
            lemma_items(items, span, i + 1, before.push(v), row, env, a.spent);
        }
    }
}

pub(crate) proof fn lemma_entries(
    entries: Seq<(Seq<char>, BoundExprView)>,
    span: Span,
    i: int,
    before: PropertyMapView,
    row: Map<u32, ValueView>,
    env: Env,
    spent: Spent,
)
    ensures
        ({
            let x = semantics::entries_from(entries, span, i, before, row, env, spent);
            &&& follows(spent.budget, x.spent.budget, x.result is Ok)
            &&& !(i < 0 || i >= entries.len()) ==> x.spent.budget.polled >= semantics::evaluated(
                entries[i].1,
                row,
                env,
                spent,
            ).spent.budget.polled
        }),
    decreases entries, 0int, entries.len() - i,
{
    if !(i < 0 || i >= entries.len()) {
        assert(decreases_to!(entries => entries[i]));
        let a = semantics::evaluated(entries[i].1, row, env, spent);
        evaluation_only_charges(entries[i].1, row, env, spent);
        if let Ok(v) = a.result {
            lemma_entries(
                entries,
                span,
                i + 1,
                before.inserted(entries[i].0, v),
                row,
                env,
                a.spent,
            );
        }
    }
}

pub(crate) proof fn lemma_case(
    e: BoundExprView,
    subject: Option<ValueView>,
    i: int,
    row: Map<u32, ValueView>,
    env: Env,
    spent: Spent,
)
    ensures
        ({
            let x = semantics::case_from(e, subject, i, row, env, spent);
            &&& follows(spent.budget, x.spent.budget, x.result is Ok)
            &&& e is Case && !(i < 0 || i >= e->whens.len())
                ==> x.spent.budget.polled
                    >= semantics::evaluated(e->whens[i].0, row, env, spent).spent.budget.polled
        }),
    decreases e, 0int, e->whens.len() - i,
{
    if let BoundExprView::Case { operand, whens, else_expr, span } = e {
        if i < 0 || i >= whens.len() {
            if let Some(otherwise) = else_expr {
                evaluation_only_charges(*otherwise, row, env, spent);
            }
        } else {
            assert(decreases_to!(e => whens[i]));
            let c = semantics::evaluated(whens[i].0, row, env, spent);
            evaluation_only_charges(whens[i].0, row, env, spent);
            evaluation_only_charges(whens[i].1, row, env, c.spent);
            let skipped = projection_model::aggregates_in(whens[i].1).len();
            lemma_case(e, subject, i + 1, row, env, semantics::past(c.spent, env, skipped));
        }
    }
}

pub(crate) proof fn lemma_comprehended(
    e: BoundExprView,
    values: Seq<ValueView>,
    i: int,
    before: Seq<ValueView>,
    row: Map<u32, ValueView>,
    env: Env,
    spent: Spent,
)
    ensures
        ({
            let x = semantics::comprehended_from(e, values, i, before, row, env, spent);
            &&& follows(spent.budget, x.spent.budget, x.result is Ok)
            &&& e is ListComprehension
                && !(i < 0 || i >= values.len())
                && e->ListComprehension_where_clause is Some
                ==> x.spent.budget.polled
                    >= semantics::evaluated(
                        *e->ListComprehension_where_clause->0,
                        row.insert(e->ListComprehension_variable.0, values[i]),
                        env,
                        spent,
                    ).spent.budget.polled
        }),
    decreases e, 0int, values.len() - i,
{
    if let BoundExprView::ListComprehension { variable, list, where_clause, map, span } = e {
        if !(i < 0 || i >= values.len()) {
            let inner = row.insert(variable.0, values[i]);
            match where_clause {
                Some(predicate) => {
                    let p = semantics::evaluated(*predicate, inner, env, spent);
                    evaluation_only_charges(*predicate, inner, env, spent);
                    lemma_element(e, values, i, before, row, env, p.spent);
                    lemma_comprehended(e, values, i + 1, before, row, env, p.spent);
                },
                None => {
                    lemma_element(e, values, i, before, row, env, spent);
                },
            }
        }
    }
}

pub(crate) proof fn lemma_element(
    e: BoundExprView,
    values: Seq<ValueView>,
    i: int,
    before: Seq<ValueView>,
    row: Map<u32, ValueView>,
    env: Env,
    spent: Spent,
)
    ensures
        ({
            let x = semantics::comprehended_element(e, values, i, before, row, env, spent);
            &&& follows(spent.budget, x.spent.budget, x.result is Ok)
            &&& e is ListComprehension && !(i < 0 || i >= values.len()) ==> ({
                let c = spent.budget.collection_push(before.len());
                &&& x.spent.budget.polled >= c.budget.polled
                &&& c.result is Ok && e->map is Some
                        ==> x.spent.budget.polled
                            >= semantics::evaluated(
                                *e->map->0,
                                row.insert(e->ListComprehension_variable.0, values[i]),
                                env,
                                semantics::with_budget(spent, c.budget),
                            ).spent.budget.polled
            })
        }),
    decreases e, 0int, values.len() - i, 0int,
{
    if let BoundExprView::ListComprehension { variable, list, where_clause, map, span } = e {
        if !(i < 0 || i >= values.len()) {
            let inner = row.insert(variable.0, values[i]);
            let c = spent.budget.collection_push(before.len());
            let after = semantics::with_budget(spent, c.budget);
            charges_follow(spent.budget, 0, before.len());
            if c.result is Ok {
                match map {
                    Some(map) => {
                        let m = semantics::evaluated(*map, inner, env, after);
                        evaluation_only_charges(*map, inner, env, after);
                        if let Ok(v) = m.result {
                            lemma_comprehended(
                                e,
                                values,
                                i + 1,
                                before.push(v),
                                row,
                                env,
                                m.spent,
                            );
                        }
                    },
                    None => {
                        lemma_comprehended(
                            e,
                            values,
                            i + 1,
                            before.push(values[i]),
                            row,
                            env,
                            after,
                        );
                    },
                }
            }
        }
    }
}

pub(crate) proof fn lemma_quantified(
    e: BoundExprView,
    values: Seq<ValueView>,
    i: int,
    t: nat,
    n: nat,
    row: Map<u32, ValueView>,
    env: Env,
    spent: Spent,
)
    ensures
        ({
            let x = semantics::quantified_from(e, values, i, t, n, row, env, spent);
            &&& follows(spent.budget, x.spent.budget, x.result is Ok)
            &&& e is Quantifier && !(i < 0 || i >= values.len()) ==> ({
                let c = spent.budget.collection_push(i as nat);
                &&& x.spent.budget.polled >= c.budget.polled
                &&& c.result is Ok
                        ==> x.spent.budget.polled
                            >= semantics::evaluated(
                                *e->predicate,
                                row.insert(e->Quantifier_variable.0, values[i]),
                                env,
                                semantics::with_budget(spent, c.budget),
                            ).spent.budget.polled
            })
        }),
    decreases e, 0int, values.len() - i,
{
    if let BoundExprView::Quantifier { kind, variable, list, predicate, span } = e {
        if !(i < 0 || i >= values.len()) {
            let c = spent.budget.collection_push(i as nat);
            let after = semantics::with_budget(spent, c.budget);
            charges_follow(spent.budget, 0, i as nat);
            if c.result is Ok {
                let inner = row.insert(variable.0, values[i]);
                let p = semantics::evaluated(*predicate, inner, env, after);
                evaluation_only_charges(*predicate, inner, env, after);
                lemma_quantified(e, values, i + 1, t + 1, n, row, env, p.spent);
                lemma_quantified(e, values, i + 1, t, n, row, env, p.spent);
                lemma_quantified(e, values, i + 1, t, n + 1, row, env, p.spent);
            }
        }
    }
}

pub(crate) proof fn lemma_reduced(
    e: BoundExprView,
    values: Seq<ValueView>,
    i: int,
    acc: ValueView,
    row: Map<u32, ValueView>,
    env: Env,
    spent: Spent,
)
    ensures
        ({
            let x = semantics::reduced_from(e, values, i, acc, row, env, spent);
            &&& follows(spent.budget, x.spent.budget, x.result is Ok)
            &&& e is Reduce && !(i < 0 || i >= values.len()) ==> ({
                let c = spent.budget.collection_push(i as nat);
                &&& x.spent.budget.polled >= c.budget.polled
                &&& c.result is Ok
                        ==> x.spent.budget.polled
                            >= semantics::evaluated(
                                *e->expr,
                                row.insert(e->accumulator.0, acc).insert(
                                    e->Reduce_variable.0,
                                    values[i],
                                ),
                                env,
                                semantics::with_budget(spent, c.budget),
                            ).spent.budget.polled
            })
        }),
    decreases e, 0int, values.len() - i,
{
    if let BoundExprView::Reduce { accumulator, init, variable, list, expr, span } = e {
        if !(i < 0 || i >= values.len()) {
            let c = spent.budget.collection_push(i as nat);
            let after = semantics::with_budget(spent, c.budget);
            charges_follow(spent.budget, 0, i as nat);
            if c.result is Ok {
                let inner = row.insert(accumulator.0, acc).insert(variable.0, values[i]);
                let x = semantics::evaluated(*expr, inner, env, after);
                evaluation_only_charges(*expr, inner, env, after);
                if let Ok(v) = x.result {
                    lemma_reduced(e, values, i + 1, v, row, env, x.spent);
                }
            }
        }
    }
}

} // verus!
