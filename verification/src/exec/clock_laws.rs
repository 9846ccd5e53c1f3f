//! Only the clock ends a query with the clock's error.

use vstd::prelude::*;

use crate::ast::{BinaryOp, Literal};
use crate::bind::bound::{
    BoundClauseView, BoundExprView, BoundNodePatternView, BoundPathPatternView,
    BoundProjectionItemView, BoundProjectionView, BoundQueryView, BoundRelPatternView,
    BoundRemoveItemView, BoundSetItemView, ProcedureDefView, VarId,
};
use crate::exec::arith;
use crate::exec::budget_laws;
use crate::exec::change;
use crate::exec::compare;
use crate::exec::create::{self, Given};
use crate::exec::delete::{self, Doomed};
use crate::exec::eval;
use crate::exec::fault::{ExecError, ExecErrorView, FloatRequestView, ResourceLimit};
use crate::exec::feed::{self, Outcome};
use crate::exec::float::FloatAnswerView;
use crate::exec::functions;
use crate::exec::governor::{Budget, QueryLimits};
use crate::exec::matching;
use crate::exec::merge;
use crate::exec::overlay::OverlayView;
use crate::exec::projection_model::{self, Group, Keyed};
use crate::exec::refresh;
use crate::exec::render;
use crate::exec::row::{self, Row};
use crate::exec::row_laws;
use crate::exec::run::{self, Progress, QueryResult, World};
use crate::exec::run_laws;
use crate::exec::semantics::{self, Env, Spent};
use crate::exec::source::{self, GraphView, WriteChanges};
use crate::exec::value::{
    EntityIdView, NodeValueView, PathValueView, PropertyMapView, RelValueView, Value, ValueView,
};
use crate::exec::walk::{self, Matched, Tested, Walked};
use crate::span::Span;

verus! {

/// Whether an error is not the clock's.
pub open spec fn is_not_timed(e: ExecErrorView) -> bool {
    !(e matches ExecErrorView::ResourceExceeded { limit, .. } && limit == ResourceLimit::WallClock)
}

proof fn lemma_binary(
    op: BinaryOp,
    a: ValueView,
    b: ValueView,
    span: Span,
    table: Seq<(FloatRequestView, FloatAnswerView)>,
    budget: Budget,
)
    ensures
        arith::binary_of(op, a, b, span, table, budget).result matches Err(e) ==> is_not_timed(e),
{
}

proof fn lemma_numeric(
    name: Seq<char>,
    args: Seq<ValueView>,
    span: Span,
    table: Seq<(FloatRequestView, FloatAnswerView)>,
)
    ensures
        functions::numeric_function(name, args, span, table) matches Some(Err(e)) ==> is_not_timed(e),
{
}

proof fn lemma_collection(name: Seq<char>, args: Seq<ValueView>, span: Span)
    ensures
        functions::collection_function(name, args, span) matches Some(Err(e)) ==> is_not_timed(e),
{
}

proof fn lemma_entity(name: Seq<char>, args: Seq<ValueView>, span: Span, graph: GraphView)
    ensures
        functions::entity_function(name, args, span, graph) matches Some(Err(e)) ==> is_not_timed(e),
{
}

proof fn lemma_text(name: Seq<char>, args: Seq<ValueView>, span: Span)
    ensures
        functions::text_function(name, args, span) matches Some(Err(e)) ==> is_not_timed(e),
{
}

proof fn lemma_conversion(
    name: Seq<char>,
    args: Seq<ValueView>,
    span: Span,
    table: Seq<(FloatRequestView, FloatAnswerView)>,
)
    ensures
        functions::conversion_function(name, args, span, table) matches Some(Err(e))
            ==> is_not_timed(e),
{
}

proof fn lemma_range(args: Seq<ValueView>, span: Span, budget: Budget)
    ensures
        functions::range_result(args, span, budget).result matches Err(e) ==> is_not_timed(e),
{
}

proof fn lemma_applied(
    name: Seq<char>,
    args: Seq<ValueView>,
    span: Span,
    graph: GraphView,
    table: Seq<(FloatRequestView, FloatAnswerView)>,
    budget: Budget,
)
    ensures
        functions::applied(name, args, span, graph, table, budget).result matches Err(e)
            ==> is_not_timed(e),
{
    lemma_numeric(name, args, span, table);
    lemma_collection(name, args, span);
    lemma_entity(name, args, span, graph);
    lemma_text(name, args, span);
    lemma_conversion(name, args, span, table);
    lemma_range(args, span, budget);
}

proof fn lemma_probed(
    steps: Seq<(BoundRelPatternView, BoundNodePatternView)>,
    at: int,
    from: NodeValueView,
    row: Map<u32, ValueView>,
    graph: GraphView,
)
    ensures
        semantics::probed(steps, at, from, row, graph) matches Err(e) ==> is_not_timed(e),
    decreases steps.len() - at, 1int, 0int,
{
    reveal(semantics::probed);
    reveal(semantics::probed_any);
    if 0 <= at < steps.len() {
        let rel = steps[at].0;
        let ways = (graph.expand)(from.id, rel.direction, rel.types);
        lemma_probed_any(steps, at, ways, 0, row, graph);
    }
}

proof fn lemma_probed_any(
    steps: Seq<(BoundRelPatternView, BoundNodePatternView)>,
    at: int,
    ways: Seq<(RelValueView, NodeValueView)>,
    i: int,
    row: Map<u32, ValueView>,
    graph: GraphView,
)
    ensures
        semantics::probed_any(steps, at, ways, i, row, graph) matches Err(e) ==> is_not_timed(e),
    decreases steps.len() - at, 0int, ways.len() - i,
{
    reveal(semantics::probed);
    reveal(semantics::probed_any);
    if 0 <= at < steps.len() && 0 <= i < ways.len() {
        lemma_probed(steps, at + 1, ways[i].1, row, graph);
        lemma_probed_any(steps, at, ways, i + 1, row, graph);
    }
}

proof fn lemma_starts(
    pattern: BoundPathPatternView,
    starts: Seq<NodeValueView>,
    i: int,
    row: Map<u32, ValueView>,
    graph: GraphView,
)
    ensures
        semantics::probed_starts(pattern, starts, i, row, graph) matches Err(e) ==> is_not_timed(e),
    decreases starts.len() - i,
{
    if 0 <= i < starts.len() {
        lemma_probed(pattern.steps, 0, starts[i], row, graph);
        lemma_starts(pattern, starts, i + 1, row, graph);
    }
}

proof fn lemma_summed(
    values: Seq<ValueView>,
    n: nat,
    span: Span,
    table: Seq<(FloatRequestView, FloatAnswerView)>,
)
    ensures
        projection_model::summed(values, n, span, table) matches Err(e) ==> is_not_timed(e),
        projection_model::totalled(values, n, span, table) matches Err(e) ==> is_not_timed(e),
    decreases n,
{
    if 0 < n <= values.len() {
        lemma_summed(values, (n - 1) as nat, span, table);
    }
}

proof fn lemma_formatted(
    table: Seq<(FloatRequestView, FloatAnswerView)>,
    v: ValueView,
    span: Span,
)
    ensures
        render::formatted(table, v, span) matches Err(e) ==> is_not_timed(e),
    decreases v, 0nat,
{
    match v {
        ValueView::List(items) => lemma_formatted_items(table, items, items.len(), span),
        ValueView::Mapping(m) => lemma_formatted_entries(table, m.entries, m.entries.len(), span),
        _ => {},
    }
}

proof fn lemma_formatted_items(
    table: Seq<(FloatRequestView, FloatAnswerView)>,
    items: Seq<ValueView>,
    n: nat,
    span: Span,
)
    ensures
        render::formatted_items(table, items, n, span) matches Err(e) ==> is_not_timed(e),
    decreases items, n,
{
    if 0 < n <= items.len() {
        lemma_formatted_items(table, items, (n - 1) as nat, span);
        lemma_formatted(table, items[n - 1], span);
    }
}

proof fn lemma_formatted_entries(
    table: Seq<(FloatRequestView, FloatAnswerView)>,
    entries: Seq<(Seq<char>, ValueView)>,
    n: nat,
    span: Span,
)
    ensures
        render::formatted_entries(table, entries, n, span) matches Err(e) ==> is_not_timed(e),
    decreases entries, n,
{
    if 0 < n <= entries.len() {
        lemma_formatted_entries(table, entries, (n - 1) as nat, span);
        assert(decreases_to!(entries => entries[n - 1]));
        lemma_formatted(table, entries[n - 1].1, span);
    }
}

proof fn lemma_freed(o: OverlayView, nodes: Seq<EntityIdView>, i: int, detach: bool, span: Span)
    ensures
        delete::freed_from(o, nodes, i, detach, span) matches Err(e) ==> is_not_timed(e),
    decreases nodes.len() - i,
{
    reveal(delete::freed_from);
    if 0 <= i < nodes.len() {
        let held = delete::incident(o, nodes[i]);
        lemma_freed(delete::rels_dropped(o, held, held.len()), nodes, i + 1, detach, span);
    }
}

proof fn lemma_items_removed(
    items: Seq<BoundRemoveItemView>,
    k: int,
    row: Map<u32, ValueView>,
    o: OverlayView,
)
    ensures
        change::items_removed(items, k, row, o) matches Err(e) ==> is_not_timed(e),
    decreases items.len() - k,
{
    reveal(change::items_removed);
    reveal(change::item_removed);
    let row = refresh::refreshed_row(row, o);
    if 0 <= k < items.len() {
        if let Ok(o) = change::item_removed(items[k], row, o) {
            lemma_items_removed(items, k + 1, row, o);
        }
    }
}

proof fn lemma_removed(
    rows: Seq<Map<u32, ValueView>>,
    i: int,
    items: Seq<BoundRemoveItemView>,
    o: OverlayView,
    out: Seq<Map<u32, ValueView>>,
)
    ensures
        change::removed_from(rows, i, items, o, out) matches Err(e) ==> is_not_timed(e),
    decreases rows.len() - i,
{
    reveal(change::removed_from);
    if 0 <= i < rows.len() {
        lemma_items_removed(items, 0, rows[i], o);
        if let Ok((row, o)) = change::items_removed(items, 0, rows[i], o) {
            lemma_removed(rows, i + 1, items, o, out.push(row));
        }
    }
}

/// Evaluating an expression never ends in the clock's error of its own accord:
/// only a reading of the clock does that.
pub proof fn evaluation_is_not_timed(
    e: BoundExprView,
    row: Map<u32, ValueView>,
    env: Env,
    spent: Spent,
)
    ensures
        semantics::evaluated(e, row, env, spent).result matches Err(e) ==> is_not_timed(e),
    decreases e, 2int, 0int,
{
    match e {
        BoundExprView::Literal { .. } => lemma_at_literal(e, row, env, spent),
        BoundExprView::Parameter { .. } => lemma_at_parameter(e, row, env, spent),
        BoundExprView::Variable { .. } => lemma_at_variable(e, row, env, spent),
        BoundExprView::Property { .. } => lemma_at_property(e, row, env, spent),
        BoundExprView::Unary { .. } => lemma_at_unary(e, row, env, spent),
        BoundExprView::Binary { .. } => lemma_at_binary(e, row, env, spent),
        BoundExprView::IsNull { .. } => lemma_at_is_null(e, row, env, spent),
        BoundExprView::Function { .. } => lemma_at_function(e, row, env, spent),
        BoundExprView::Aggregate { .. } => lemma_at_aggregate(e, row, env, spent),
        BoundExprView::Case { .. } => lemma_at_case(e, row, env, spent),
        BoundExprView::ListLiteral { .. } => lemma_at_list_literal(e, row, env, spent),
        BoundExprView::ListComprehension { .. } => lemma_at_list_comprehension(e, row, env, spent),
        BoundExprView::Quantifier { .. } => lemma_at_quantifier(e, row, env, spent),
        BoundExprView::Reduce { .. } => lemma_at_reduce(e, row, env, spent),
        BoundExprView::MapLiteral { .. } => lemma_at_map_literal(e, row, env, spent),
        BoundExprView::Index { .. } => lemma_at_index(e, row, env, spent),
        BoundExprView::Slice { .. } => lemma_at_slice(e, row, env, spent),
        BoundExprView::PatternPredicate { .. } => lemma_at_pattern_predicate(e, row, env, spent),
    }
}

proof fn lemma_at_literal(
    e: BoundExprView,
    row: Map<u32, ValueView>,
    env: Env,
    spent: Spent,
)
    requires
        e is Literal,
    ensures
        semantics::evaluated(e, row, env, spent).result matches Err(e) ==> is_not_timed(e),
    decreases e, 1int, 0int,
{
}

proof fn lemma_at_parameter(
    e: BoundExprView,
    row: Map<u32, ValueView>,
    env: Env,
    spent: Spent,
)
    requires
        e is Parameter,
    ensures
        semantics::evaluated(e, row, env, spent).result matches Err(e) ==> is_not_timed(e),
    decreases e, 1int, 0int,
{
}

proof fn lemma_at_variable(
    e: BoundExprView,
    row: Map<u32, ValueView>,
    env: Env,
    spent: Spent,
)
    requires
        e is Variable,
    ensures
        semantics::evaluated(e, row, env, spent).result matches Err(e) ==> is_not_timed(e),
    decreases e, 1int, 0int,
{
}

proof fn lemma_at_property(
    e: BoundExprView,
    row: Map<u32, ValueView>,
    env: Env,
    spent: Spent,
)
    requires
        e is Property,
    ensures
        semantics::evaluated(e, row, env, spent).result matches Err(e) ==> is_not_timed(e),
    decreases e, 1int, 0int,
{
    if let BoundExprView::Property { base, .. } = e {
        evaluation_is_not_timed(*base, row, env, spent);
    }
}

proof fn lemma_at_unary(
    e: BoundExprView,
    row: Map<u32, ValueView>,
    env: Env,
    spent: Spent,
)
    requires
        e is Unary,
    ensures
        semantics::evaluated(e, row, env, spent).result matches Err(e) ==> is_not_timed(e),
    decreases e, 1int, 0int,
{
    if let BoundExprView::Unary { operand, .. } = e {
        evaluation_is_not_timed(*operand, row, env, spent);
    }
}

proof fn lemma_at_binary(
    e: BoundExprView,
    row: Map<u32, ValueView>,
    env: Env,
    spent: Spent,
)
    requires
        e is Binary,
    ensures
        semantics::evaluated(e, row, env, spent).result matches Err(e) ==> is_not_timed(e),
    decreases e, 1int, 0int,
{
    if let BoundExprView::Binary { op, lhs, rhs, span } = e {
        let a = semantics::evaluated(*lhs, row, env, spent);
        evaluation_is_not_timed(*lhs, row, env, spent);
        let b = semantics::evaluated(*rhs, row, env, a.spent);
        evaluation_is_not_timed(*rhs, row, env, a.spent);
        if a.result is Ok && b.result is Ok {
            lemma_binary(
                op,
                compare::decayed(a.result->Ok_0),
                compare::decayed(b.result->Ok_0),
                span,
                env.floats,
                b.spent.budget,
            );
        }
    }
}

proof fn lemma_at_is_null(
    e: BoundExprView,
    row: Map<u32, ValueView>,
    env: Env,
    spent: Spent,
)
    requires
        e is IsNull,
    ensures
        semantics::evaluated(e, row, env, spent).result matches Err(e) ==> is_not_timed(e),
    decreases e, 1int, 0int,
{
    if let BoundExprView::IsNull { operand, .. } = e {
        evaluation_is_not_timed(*operand, row, env, spent);
    }
}

proof fn lemma_at_function(
    e: BoundExprView,
    row: Map<u32, ValueView>,
    env: Env,
    spent: Spent,
)
    requires
        e is Function,
    ensures
        semantics::evaluated(e, row, env, spent).result matches Err(e) ==> is_not_timed(e),
    decreases e, 1int, 0int,
{
    if let BoundExprView::Function { def, args, span } = e {
        lemma_arguments(args, 0, seq![], row, env, spent);
        let a = semantics::arguments_from(args, 0, seq![], row, env, spent);
        if a.result is Ok {
            lemma_applied(
                def.name,
                a.result->Ok_0,
                span,
                env.graph,
                env.floats,
                a.spent.budget,
            );
        }
    }
}

proof fn lemma_at_aggregate(
    e: BoundExprView,
    row: Map<u32, ValueView>,
    env: Env,
    spent: Spent,
)
    requires
        e is Aggregate,
    ensures
        semantics::evaluated(e, row, env, spent).result matches Err(e) ==> is_not_timed(e),
    decreases e, 1int, 0int,
{
}

proof fn lemma_at_case(
    e: BoundExprView,
    row: Map<u32, ValueView>,
    env: Env,
    spent: Spent,
)
    requires
        e is Case,
    ensures
        semantics::evaluated(e, row, env, spent).result matches Err(e) ==> is_not_timed(e),
    decreases e, 1int, 0int,
{
    if let BoundExprView::Case { operand, .. } = e {
        match operand {
            Some(subject) => {
                let s = semantics::evaluated(*subject, row, env, spent);
                evaluation_is_not_timed(*subject, row, env, spent);
                if s.result is Ok {
                    lemma_case(e, Some(s.result->Ok_0), 0, row, env, s.spent);
                }
            },
            None => {
                lemma_case(e, None, 0, row, env, spent);
            },
        }
    }
}

proof fn lemma_at_list_literal(
    e: BoundExprView,
    row: Map<u32, ValueView>,
    env: Env,
    spent: Spent,
)
    requires
        e is ListLiteral,
    ensures
        semantics::evaluated(e, row, env, spent).result matches Err(e) ==> is_not_timed(e),
    decreases e, 1int, 0int,
{
    if let BoundExprView::ListLiteral { items, span } = e {
        lemma_items(items, span, 0, seq![], row, env, spent);
    }
}

proof fn lemma_at_list_comprehension(
    e: BoundExprView,
    row: Map<u32, ValueView>,
    env: Env,
    spent: Spent,
)
    requires
        e is ListComprehension,
    ensures
        semantics::evaluated(e, row, env, spent).result matches Err(e) ==> is_not_timed(e),
    decreases e, 1int, 0int,
{
    if let BoundExprView::ListComprehension { list, .. } = e {
        let l = semantics::evaluated(*list, row, env, spent);
        evaluation_is_not_timed(*list, row, env, spent);
        if let Ok(ValueView::List(values)) = l.result {
            lemma_comprehended(e, values, 0, seq![], row, env, l.spent);
        }
    }
}

proof fn lemma_at_quantifier(
    e: BoundExprView,
    row: Map<u32, ValueView>,
    env: Env,
    spent: Spent,
)
    requires
        e is Quantifier,
    ensures
        semantics::evaluated(e, row, env, spent).result matches Err(e) ==> is_not_timed(e),
    decreases e, 1int, 0int,
{
    if let BoundExprView::Quantifier { list, .. } = e {
        let l = semantics::evaluated(*list, row, env, spent);
        evaluation_is_not_timed(*list, row, env, spent);
        if let Ok(ValueView::List(values)) = l.result {
            lemma_quantified(e, values, 0, 0, 0, row, env, l.spent);
        }
    }
}

proof fn lemma_at_reduce(
    e: BoundExprView,
    row: Map<u32, ValueView>,
    env: Env,
    spent: Spent,
)
    requires
        e is Reduce,
    ensures
        semantics::evaluated(e, row, env, spent).result matches Err(e) ==> is_not_timed(e),
    decreases e, 1int, 0int,
{
    if let BoundExprView::Reduce { init, list, .. } = e {
        let l = semantics::evaluated(*list, row, env, spent);
        evaluation_is_not_timed(*list, row, env, spent);
        if let Ok(ValueView::List(values)) = l.result {
            let a = semantics::evaluated(*init, row, env, l.spent);
            evaluation_is_not_timed(*init, row, env, l.spent);
            if let Ok(acc) = a.result {
                lemma_reduced(e, values, 0, acc, row, env, a.spent);
            }
        }
    }
}

proof fn lemma_at_map_literal(
    e: BoundExprView,
    row: Map<u32, ValueView>,
    env: Env,
    spent: Spent,
)
    requires
        e is MapLiteral,
    ensures
        semantics::evaluated(e, row, env, spent).result matches Err(e) ==> is_not_timed(e),
    decreases e, 1int, 0int,
{
    if let BoundExprView::MapLiteral { entries, span } = e {
        lemma_entries(entries, span, 0, PropertyMapView::empty(), row, env, spent);
    }
}

proof fn lemma_at_index(
    e: BoundExprView,
    row: Map<u32, ValueView>,
    env: Env,
    spent: Spent,
)
    requires
        e is Index,
    ensures
        semantics::evaluated(e, row, env, spent).result matches Err(e) ==> is_not_timed(e),
    decreases e, 1int, 0int,
{
    if let BoundExprView::Index { base, index, .. } = e {
        let b = semantics::evaluated(*base, row, env, spent);
        evaluation_is_not_timed(*base, row, env, spent);
        evaluation_is_not_timed(*index, row, env, b.spent);
    }
}

proof fn lemma_at_slice(
    e: BoundExprView,
    row: Map<u32, ValueView>,
    env: Env,
    spent: Spent,
)
    requires
        e is Slice,
    ensures
        semantics::evaluated(e, row, env, spent).result matches Err(e) ==> is_not_timed(e),
    decreases e, 1int, 0int,
{
    if let BoundExprView::Slice { base, from, to, .. } = e {
        let b = semantics::evaluated(*base, row, env, spent);
        evaluation_is_not_timed(*base, row, env, spent);
        if let Some(from) = from {
            let f = semantics::evaluated(*from, row, env, b.spent);
            evaluation_is_not_timed(*from, row, env, b.spent);
            if let Some(to) = to {
                evaluation_is_not_timed(*to, row, env, f.spent);
            }
        } else if let Some(to) = to {
            evaluation_is_not_timed(*to, row, env, b.spent);
        }
    }
}

proof fn lemma_at_pattern_predicate(
    e: BoundExprView,
    row: Map<u32, ValueView>,
    env: Env,
    spent: Spent,
)
    requires
        e is PatternPredicate,
    ensures
        semantics::evaluated(e, row, env, spent).result matches Err(e) ==> is_not_timed(e),
    decreases e, 1int, 0int,
{
    if let BoundExprView::PatternPredicate { pattern, .. } = e {
        let p = *pattern;
        match p.start.var {
            Some(var) => {
                if let ValueView::Node(n) = row::row_get(row, var) {
                    lemma_starts(p, seq![n], 0, row, env.graph);
                }
            },
            None => {
                let nodes = env.graph.nodes;
                let starts = source::labelled(nodes, p.start.labels, nodes.len());
                lemma_starts(p, starts, 0, row, env.graph);
            },
        }
    }
}

proof fn lemma_arguments(
    args: Seq<BoundExprView>,
    i: int,
    before: Seq<ValueView>,
    row: Map<u32, ValueView>,
    env: Env,
    spent: Spent,
)
    ensures
        semantics::arguments_from(
            args,
            i,
            before,
            row,
            env,
            spent,
        ).result matches Err(e) ==> is_not_timed(e),
    decreases args, 0int, args.len() - i,
{
    if !(i < 0 || i >= args.len()) {
        let a = semantics::evaluated(args[i], row, env, spent);
        evaluation_is_not_timed(args[i], row, env, spent);
        if let Ok(v) = a.result {
            lemma_arguments(args, i + 1, before.push(compare::decayed(v)), row, env, a.spent);
        }
    }
}

proof fn lemma_items(
    items: Seq<BoundExprView>,
    span: Span,
    i: int,
    before: Seq<ValueView>,
    row: Map<u32, ValueView>,
    env: Env,
    spent: Spent,
)
    ensures
        semantics::items_from(
            items,
            span,
            i,
            before,
            row,
            env,
            spent,
        ).result matches Err(e) ==> is_not_timed(e),
    decreases items, 0int, items.len() - i,
{
    if !(i < 0 || i >= items.len()) {
        let a = semantics::evaluated(items[i], row, env, spent);
        evaluation_is_not_timed(items[i], row, env, spent);
        if let Ok(v) = a.result {
            lemma_items(items, span, i + 1, before.push(v), row, env, a.spent);
        }
    }
}

proof fn lemma_entries(
    entries: Seq<(Seq<char>, BoundExprView)>,
    span: Span,
    i: int,
    before: PropertyMapView,
    row: Map<u32, ValueView>,
    env: Env,
    spent: Spent,
)
    ensures
        semantics::entries_from(
            entries,
            span,
            i,
            before,
            row,
            env,
            spent,
        ).result matches Err(e) ==> is_not_timed(e),
    decreases entries, 0int, entries.len() - i,
{
    if !(i < 0 || i >= entries.len()) {
        assert(decreases_to!(entries => entries[i]));
        let a = semantics::evaluated(entries[i].1, row, env, spent);
        evaluation_is_not_timed(entries[i].1, row, env, spent);
        if let Ok(v) = a.result {
            lemma_entries(
                entries,
                span,
                i + 1,
                before.inserted(entries[i].0, v),
                row,
                env,
                a.spent,
            );
        }
    }
}

proof fn lemma_case(
    e: BoundExprView,
    subject: Option<ValueView>,
    i: int,
    row: Map<u32, ValueView>,
    env: Env,
    spent: Spent,
)
    ensures
        semantics::case_from(
            e,
            subject,
            i,
            row,
            env,
            spent,
        ).result matches Err(e) ==> is_not_timed(e),
    decreases e, 0int, e->whens.len() - i,
{
    if let BoundExprView::Case { operand, whens, else_expr, span } = e {
        if i < 0 || i >= whens.len() {
            if let Some(otherwise) = else_expr {
                evaluation_is_not_timed(*otherwise, row, env, spent);
            }
        } else {
            assert(decreases_to!(e => whens[i]));
            let c = semantics::evaluated(whens[i].0, row, env, spent);
            evaluation_is_not_timed(whens[i].0, row, env, spent);
            evaluation_is_not_timed(whens[i].1, row, env, c.spent);
            let skipped = projection_model::aggregates_in(whens[i].1).len();
            lemma_case(e, subject, i + 1, row, env, semantics::past(c.spent, env, skipped));
        }
    }
}

proof fn lemma_comprehended(
    e: BoundExprView,
    values: Seq<ValueView>,
    i: int,
    before: Seq<ValueView>,
    row: Map<u32, ValueView>,
    env: Env,
    spent: Spent,
)
    ensures
        semantics::comprehended_from(
            e,
            values,
            i,
            before,
            row,
            env,
            spent,
        ).result matches Err(e) ==> is_not_timed(e),
    decreases e, 0int, values.len() - i,
{
    if let BoundExprView::ListComprehension { variable, list, where_clause, map, span } = e {
        if !(i < 0 || i >= values.len()) {
            let inner = row.insert(variable.0, values[i]);
            match where_clause {
                Some(predicate) => {
                    let p = semantics::evaluated(*predicate, inner, env, spent);
                    evaluation_is_not_timed(*predicate, inner, env, spent);
                    lemma_element(e, values, i, before, row, env, p.spent);
                    lemma_comprehended(e, values, i + 1, before, row, env, p.spent);
                },
                None => {
                    lemma_element(e, values, i, before, row, env, spent);
                },
            }
        }
    }
}

proof fn lemma_element(
    e: BoundExprView,
    values: Seq<ValueView>,
    i: int,
    before: Seq<ValueView>,
    row: Map<u32, ValueView>,
    env: Env,
    spent: Spent,
)
    ensures
        semantics::comprehended_element(
            e,
            values,
            i,
            before,
            row,
            env,
            spent,
        ).result matches Err(e) ==> is_not_timed(e),
    decreases e, 0int, values.len() - i, 0int,
{
    if let BoundExprView::ListComprehension { variable, list, where_clause, map, span } = e {
        if !(i < 0 || i >= values.len()) {
            let inner = row.insert(variable.0, values[i]);
            let c = spent.budget.collection_push(before.len());
            let after = semantics::with_budget(spent, c.budget);
            if c.result is Ok {
                match map {
                    Some(map) => {
                        let m = semantics::evaluated(*map, inner, env, after);
                        evaluation_is_not_timed(*map, inner, env, after);
                        if let Ok(v) = m.result {
                            lemma_comprehended(
                                e,
                                values,
                                i + 1,
                                before.push(v),
                                row,
                                env,
                                m.spent,
                            );
                        }
                    },
                    None => {
                        lemma_comprehended(
                            e,
                            values,
                            i + 1,
                            before.push(values[i]),
                            row,
                            env,
                            after,
                        );
                    },
                }
            }
        }
    }
}

proof fn lemma_quantified(
    e: BoundExprView,
    values: Seq<ValueView>,
    i: int,
    t: nat,
    n: nat,
    row: Map<u32, ValueView>,
    env: Env,
    spent: Spent,
)
    ensures
        semantics::quantified_from(
            e,
            values,
            i,
            t,
            n,
            row,
            env,
            spent,
        ).result matches Err(e) ==> is_not_timed(e),
    decreases e, 0int, values.len() - i,
{
    if let BoundExprView::Quantifier { kind, variable, list, predicate, span } = e {
        if !(i < 0 || i >= values.len()) {
            let c = spent.budget.collection_push(i as nat);
            let after = semantics::with_budget(spent, c.budget);
            if c.result is Ok {
                let inner = row.insert(variable.0, values[i]);
                let p = semantics::evaluated(*predicate, inner, env, after);
                evaluation_is_not_timed(*predicate, inner, env, after);
                lemma_quantified(e, values, i + 1, t + 1, n, row, env, p.spent);
                lemma_quantified(e, values, i + 1, t, n, row, env, p.spent);
                lemma_quantified(e, values, i + 1, t, n + 1, row, env, p.spent);
            }
        }
    }
}

proof fn lemma_reduced(
    e: BoundExprView,
    values: Seq<ValueView>,
    i: int,
    acc: ValueView,
    row: Map<u32, ValueView>,
    env: Env,
    spent: Spent,
)
    ensures
        semantics::reduced_from(
            e,
            values,
            i,
            acc,
            row,
            env,
            spent,
        ).result matches Err(e) ==> is_not_timed(e),
    decreases e, 0int, values.len() - i,
{
    if let BoundExprView::Reduce { accumulator, init, variable, list, expr, span } = e {
        if !(i < 0 || i >= values.len()) {
            let c = spent.budget.collection_push(i as nat);
            let after = semantics::with_budget(spent, c.budget);
            if c.result is Ok {
                let inner = row.insert(accumulator.0, acc).insert(variable.0, values[i]);
                let x = semantics::evaluated(*expr, inner, env, after);
                evaluation_is_not_timed(*expr, inner, env, after);
                if let Ok(v) = x.result {
                    lemma_reduced(e, values, i + 1, v, row, env, x.spent);
                }
            }
        }
    }
}

proof fn lemma_row_gathered(
    arg: Option<Box<BoundExprView>>,
    group: Seq<Map<u32, ValueView>>,
    i: int,
    env: Env,
    spent: Spent,
    before: Seq<ValueView>,
)
    ensures
        projection_model::gathered_from(
            arg,
            group,
            i,
            env,
            spent,
            before,
        ).result matches Err(e) ==> is_not_timed(e),
    decreases group.len() - i,
{
    reveal(projection_model::gathered_from);
    if !(i < 0 || i >= group.len()) {
        match arg {
            None => {
                lemma_row_gathered(arg, group, i + 1, env, spent, before.push(ValueView::Int(1)));
            },
            Some(e) => {
                let x = semantics::evaluated(*e, group[i], env, spent);
                evaluation_is_not_timed(*e, group[i], env, spent);
                if let Ok(v) = x.result {
                    let next = if v is Null {
                        before
                    } else {
                        before.push(v)
                    };
                    lemma_row_gathered(arg, group, i + 1, env, x.spent, next);
                }
            },
        }
    }
}

proof fn lemma_row_accumulated(
    e: BoundExprView,
    group: Seq<Map<u32, ValueView>>,
    env: Env,
    spent: Spent,
)
    ensures
        projection_model::accumulated(e, group, env, spent).result matches Err(e) ==> is_not_timed(e),
{
    reveal(projection_model::accumulated);
    if let BoundExprView::Aggregate { def, distinct, arg, span } = e {
        lemma_row_gathered(arg, group, 0, env, spent, seq![]);
        let g = projection_model::gathered_from(arg, group, 0, env, spent, seq![]);
        if let Ok(values) = g.result {
            let unique = projection_model::unique(values, values.len());
            lemma_summed(values, values.len(), span, env.floats);
            lemma_summed(unique, unique.len(), span, env.floats);
        }
    }
}

proof fn lemma_row_slots(
    aggregates: Seq<BoundExprView>,
    i: int,
    group: Seq<Map<u32, ValueView>>,
    env: Env,
    spent: Spent,
    before: Seq<ValueView>,
)
    ensures
        projection_model::slots_from(
            aggregates,
            i,
            group,
            env,
            spent,
            before,
        ).result matches Err(e) ==> is_not_timed(e),
    decreases aggregates.len() - i,
{
    reveal(projection_model::slots_from);
    if !(i < 0 || i >= aggregates.len()) {
        let x = projection_model::accumulated(aggregates[i], group, env, spent);
        lemma_row_accumulated(aggregates[i], group, env, spent);
        if let Ok(v) = x.result {
            lemma_row_slots(aggregates, i + 1, group, env, x.spent, before.push(v));
        }
    }
}

proof fn lemma_row_over(
    e: BoundExprView,
    group: Seq<Map<u32, ValueView>>,
    representative: Map<u32, ValueView>,
    env: Env,
    spent: Spent,
)
    ensures
        projection_model::evaluated_over(
            e,
            group,
            representative,
            env,
            spent,
        ).result matches Err(e) ==> is_not_timed(e),
{
    reveal(projection_model::evaluated_over);
    let inside = projection_model::aggregates_in(e);
    let s = projection_model::slots_from(inside, 0, group, env, spent, seq![]);
    lemma_row_slots(inside, 0, group, env, spent, seq![]);
    if let Ok(slots) = s.result {
        evaluation_is_not_timed(
            e,
            representative,
            Env { slots: Some(slots), ..env },
            Spent { cursor: 0, ..s.spent },
        );
    }
}

proof fn lemma_row_key(
    items: Seq<BoundProjectionItemView>,
    indices: Seq<usize>,
    i: int,
    row: Map<u32, ValueView>,
    env: Env,
    spent: Spent,
    before: Seq<ValueView>,
)
    ensures
        projection_model::key_from(
            items,
            indices,
            i,
            row,
            env,
            spent,
            before,
        ).result matches Err(e) ==> is_not_timed(e),
    decreases indices.len() - i,
{
    reveal(projection_model::key_from);
    if !(i < 0 || i >= indices.len()) {
        let x = semantics::evaluated(items[indices[i] as int].expr, row, env, spent);
        evaluation_is_not_timed(items[indices[i] as int].expr, row, env, spent);
        if let Ok(v) = x.result {
            lemma_row_key(items, indices, i + 1, row, env, x.spent, before.push(v));
        }
    }
}

proof fn lemma_row_groups(
    items: Seq<BoundProjectionItemView>,
    indices: Seq<usize>,
    rows: Seq<Map<u32, ValueView>>,
    i: int,
    env: Env,
    spent: Spent,
    before: Seq<Group>,
)
    ensures
        projection_model::groups_from(
            items,
            indices,
            rows,
            i,
            env,
            spent,
            before,
        ).result matches Err(e) ==> is_not_timed(e),
    decreases rows.len() - i,
{
    reveal(projection_model::groups_from);
    if !(i < 0 || i >= rows.len()) {
        let x = projection_model::key_from(items, indices, 0, rows[i], env, spent, seq![]);
        lemma_row_key(items, indices, 0, rows[i], env, spent, seq![]);
        if let Ok(key) = x.result {
            lemma_row_groups(
                items,
                indices,
                rows,
                i + 1,
                env,
                x.spent,
                projection_model::with_row(before, key, rows[i], 0),
            );
        }
    }
}

proof fn lemma_row_projected_items(
    items: Seq<BoundProjectionItemView>,
    i: int,
    row: Map<u32, ValueView>,
    env: Env,
    spent: Spent,
    out: Map<u32, ValueView>,
)
    ensures
        projection_model::projected_items_from(
            items,
            i,
            row,
            env,
            spent,
            out,
        ).result matches Err(e) ==> is_not_timed(e),
    decreases items.len() - i,
{
    reveal(projection_model::projected_items_from);
    if !(i < 0 || i >= items.len()) {
        let x = semantics::evaluated(items[i].expr, row, env, spent);
        evaluation_is_not_timed(items[i].expr, row, env, spent);
        if let Ok(v) = x.result {
            lemma_row_projected_items(
                items,
                i + 1,
                row,
                env,
                x.spent,
                out.insert(items[i].var.0, v),
            );
        }
    }
}

proof fn lemma_row_grouped_items(
    items: Seq<BoundProjectionItemView>,
    i: int,
    group: Seq<Map<u32, ValueView>>,
    representative: Map<u32, ValueView>,
    env: Env,
    spent: Spent,
    out: Map<u32, ValueView>,
)
    ensures
        projection_model::grouped_items_from(
                items,
                i,
                group,
                representative,
                env,
                spent,
                out,
            ).result matches Err(e) ==> is_not_timed(e),
    decreases items.len() - i,
{
    reveal(projection_model::grouped_items_from);
    if !(i < 0 || i >= items.len()) {
        let x = projection_model::evaluated_over(items[i].expr, group, representative, env, spent);
        lemma_row_over(items[i].expr, group, representative, env, spent);
        if let Ok(v) = x.result {
            lemma_row_grouped_items(
                items,
                i + 1,
                group,
                representative,
                env,
                x.spent,
                out.insert(items[i].var.0, v),
            );
        }
    }
}

proof fn lemma_row_plain_rows(
    items: Seq<BoundProjectionItemView>,
    rows: Seq<Map<u32, ValueView>>,
    i: int,
    env: Env,
    spent: Spent,
    out: Seq<Map<u32, ValueView>>,
)
    ensures
        projection_model::plain_rows_from(
            items,
            rows,
            i,
            env,
            spent,
            out,
        ).result matches Err(e) ==> is_not_timed(e),
    decreases rows.len() - i,
{
    reveal(projection_model::plain_rows_from);
    if !(i < 0 || i >= rows.len()) {
        let made = projection_model::projected_items_from(items, 0, rows[i], env, spent, rows[i]);
        lemma_row_projected_items(items, 0, rows[i], env, spent, rows[i]);
        let p = projection_model::pushed(made, out);
        if let Ok(all) = p.result {
            lemma_row_plain_rows(items, rows, i + 1, env, p.spent, all);
        }
    }
}

proof fn lemma_row_group_rows(
    items: Seq<BoundProjectionItemView>,
    groups: Seq<Group>,
    i: int,
    env: Env,
    spent: Spent,
    out: Seq<Map<u32, ValueView>>,
)
    ensures
        projection_model::group_rows_from(
            items,
            groups,
            i,
            env,
            spent,
            out,
        ).result matches Err(e) ==> is_not_timed(e),
    decreases groups.len() - i,
{
    reveal(projection_model::group_rows_from);
    if !(i < 0 || i >= groups.len()) {
        let first = projection_model::representative_of(groups[i]);
        let made = projection_model::grouped_items_from(
            items,
            0,
            groups[i].rows,
            first,
            env,
            spent,
            first,
        );
        lemma_row_grouped_items(items, 0, groups[i].rows, first, env, spent, first);
        let p = projection_model::pushed(made, out);
        if let Ok(all) = p.result {
            lemma_row_group_rows(items, groups, i + 1, env, p.spent, all);
        }
    }
}

proof fn lemma_row_merged(
    p: BoundProjectionView,
    rows: Seq<Map<u32, ValueView>>,
    env: Env,
    spent: Spent,
)
    ensures
        projection_model::merged_rows(p, rows, env, spent).result matches Err(e) ==> is_not_timed(e),
{
    reveal(projection_model::merged_rows);
    if p.aggregating {
        let g = projection_model::groups_from(
            p.items,
            p.grouping_items,
            rows,
            0,
            env,
            spent,
            seq![],
        );
        lemma_row_groups(p.items, p.grouping_items, rows, 0, env, spent, seq![]);
        if let Ok(groups) = g.result {
            lemma_row_group_rows(
                p.items,
                projection_model::or_one_group(groups, p.grouping_items),
                0,
                env,
                g.spent,
                seq![],
            );
        }
    } else {
        lemma_row_plain_rows(p.items, rows, 0, env, spent, seq![]);
    }
}

proof fn lemma_row_passes(
    predicate: Option<BoundExprView>,
    row: Map<u32, ValueView>,
    env: Env,
    spent: Spent,
)
    ensures
        walk::passes(predicate, row, env, spent).result matches Err(e) ==> is_not_timed(e),
{
    reveal(walk::passes);
    if let Some(e) = predicate {
        evaluation_is_not_timed(e, row, env, spent);
    }
}

proof fn lemma_row_filtered(
    rows: Seq<Map<u32, ValueView>>,
    i: int,
    predicate: Option<BoundExprView>,
    env: Env,
    spent: Spent,
    kept: Seq<Map<u32, ValueView>>,
)
    ensures
        projection_model::filtered_from(
            rows,
            i,
            predicate,
            env,
            spent,
            kept,
        ).result matches Err(e) ==> is_not_timed(e),
    decreases rows.len() - i,
{
    reveal(projection_model::filtered_from);
    if 0 <= i < rows.len() {
        let t = walk::passes(predicate, rows[i], env, spent);
        lemma_row_passes(predicate, rows[i], env, spent);
        if let Ok(b) = t.result {
            let next = if b {
                kept.push(rows[i])
            } else {
                kept
            };
            lemma_row_filtered(rows, i + 1, predicate, env, t.spent, next);
        }
    }
}

proof fn lemma_row_sort_key(
    order_by: Seq<(BoundExprView, bool)>,
    i: int,
    row: Map<u32, ValueView>,
    env: Env,
    spent: Spent,
    before: Seq<ValueView>,
)
    ensures
        projection_model::sort_key_from(
            order_by,
            i,
            row,
            env,
            spent,
            before,
        ).result matches Err(e) ==> is_not_timed(e),
    decreases order_by.len() - i,
{
    reveal(projection_model::sort_key_from);
    if !(i < 0 || i >= order_by.len()) {
        let x = semantics::evaluated(order_by[i].0, row, env, spent);
        evaluation_is_not_timed(order_by[i].0, row, env, spent);
        if let Ok(v) = x.result {
            lemma_row_sort_key(order_by, i + 1, row, env, x.spent, before.push(v));
        }
    }
}

proof fn lemma_row_keyed(
    order_by: Seq<(BoundExprView, bool)>,
    rows: Seq<Map<u32, ValueView>>,
    i: int,
    env: Env,
    spent: Spent,
    before: Seq<Keyed>,
)
    ensures
        projection_model::keyed_from(
            order_by,
            rows,
            i,
            env,
            spent,
            before,
        ).result matches Err(e) ==> is_not_timed(e),
    decreases rows.len() - i,
{
    reveal(projection_model::keyed_from);
    if 0 <= i < rows.len() {
        let k = projection_model::sort_key_from(order_by, 0, rows[i], env, spent, seq![]);
        lemma_row_sort_key(order_by, 0, rows[i], env, spent, seq![]);
        if let Ok(key) = k.result {
            lemma_row_keyed(
                order_by,
                rows,
                i + 1,
                env,
                k.spent,
                before.push(Keyed { key, row: rows[i] }),
            );
        }
    }
}

proof fn lemma_row_ordered(
    order_by: Seq<(BoundExprView, bool)>,
    rows: Seq<Map<u32, ValueView>>,
    env: Env,
    spent: Spent,
)
    ensures
        projection_model::ordered_rows(
            order_by,
            rows,
            env,
            spent,
        ).result matches Err(e) ==> is_not_timed(e),
{
    reveal(projection_model::ordered_rows);
    if order_by.len() > 0 {
        let k = projection_model::keyed_from(order_by, rows, 0, env, spent, seq![]);
        lemma_row_keyed(order_by, rows, 0, env, spent, seq![]);
        if let Ok(keyed) = k.result {
        }
    }
}

proof fn lemma_row_page_bound(count: Option<BoundExprView>, env: Env, spent: Spent)
    ensures
        projection_model::page_bound(count, env, spent).result matches Err(e) ==> is_not_timed(e),
{
    reveal(projection_model::page_bound);
    if let Some(e) = count {
        evaluation_is_not_timed(e, Map::empty(), env, spent);
        if let Ok(v) = semantics::evaluated(e, Map::empty(), env, spent).result {
            lemma_formatted(env.floats, v, semantics::bound_place(e));
        }
    }
}

proof fn lemma_row_paged(
    skip: Option<BoundExprView>,
    limit: Option<BoundExprView>,
    rows: Seq<Map<u32, ValueView>>,
    env: Env,
    spent: Spent,
)
    ensures
        projection_model::paged_rows(
            skip,
            limit,
            rows,
            env,
            spent,
        ).result matches Err(e) ==> is_not_timed(e),
{
    reveal(projection_model::paged_rows);
    let s = projection_model::page_bound(skip, env, spent);
    lemma_row_page_bound(skip, env, spent);
    if s.result is Ok {
        lemma_row_page_bound(limit, env, s.spent);
    }
}

/// Neither does a projection.
pub proof fn projecting_is_not_timed(
    p: BoundProjectionView,
    is_with: bool,
    rows: Seq<Map<u32, ValueView>>,
    env: Env,
    spent: Spent,
)
    ensures
        projection_model::projected(
            p,
            is_with,
            rows,
            env,
            spent,
        ).result matches Err(e) ==> is_not_timed(e),
{
    reveal(projection_model::projected);
    let m = projection_model::merged_rows(p, rows, env, spent);
    lemma_row_merged(p, rows, env, spent);
    if let Ok(merged) = m.result {
        let f = if is_with {
            projection_model::filtered_from(merged, 0, p.where_clause, env, m.spent, seq![])
        } else {
            m
        };
        if is_with {
            lemma_row_filtered(merged, 0, p.where_clause, env, m.spent, seq![]);
        }
        if let Ok(kept) = f.result {
            let unique = if p.distinct {
                projection_model::distinct_rows(p.items, kept, kept.len())
            } else {
                kept
            };
            let o = projection_model::ordered_rows(p.order_by, unique, env, f.spent);
            lemma_row_ordered(p.order_by, unique, env, f.spent);
            if let Ok(ordered) = o.result {
                lemma_row_paged(p.skip, p.limit, ordered, env, o.spent);
            }
        }
    }
}

proof fn lemma_run_properties_fit(
    wanted: Option<BoundExprView>,
    actual: PropertyMapView,
    row: Map<u32, ValueView>,
    env: Env,
    spent: Spent,
)
    ensures
        walk::properties_fit(
            wanted,
            actual,
            row,
            env,
            spent,
        ).result matches Err(e) ==> is_not_timed(e),
{
    reveal(walk::properties_fit);
    if let Some(e) = wanted {
        evaluation_is_not_timed(e, row, env, spent);
    }
}

proof fn lemma_run_node_fits(
    node: NodeValueView,
    pattern: BoundNodePatternView,
    row: Map<u32, ValueView>,
    env: Env,
    spent: Spent,
)
    ensures
        walk::node_fits(node, pattern, row, env, spent).result matches Err(e) ==> is_not_timed(e),
{
    reveal(walk::node_fits);
    lemma_run_properties_fit(pattern.properties, node.properties, row, env, spent);
}

proof fn lemma_run_way_fits(
    rel_pattern: BoundRelPatternView,
    node_pattern: Option<BoundNodePatternView>,
    way: (RelValueView, NodeValueView),
    m: Matched,
    env: Env,
    spent: Spent,
)
    ensures
        walk::way_fits(
            rel_pattern,
            node_pattern,
            way,
            m,
            env,
            spent,
        ).result matches Err(e) ==> is_not_timed(e),
{
    reveal(walk::way_fits);
    let c = spent.budget.hop();
    let after = semantics::with_budget(spent, c.budget);
    let t = walk::properties_fit(rel_pattern.properties, way.0.properties, m.row, env, after);
    lemma_run_properties_fit(rel_pattern.properties, way.0.properties, m.row, env, after);
    if let Some(n) = node_pattern {
        lemma_run_node_fits(way.1, n, m.row, env, t.spent);
    }
}

proof fn lemma_run_walked(
    pattern: BoundPathPatternView,
    at: int,
    from: NodeValueView,
    m: Matched,
    path: PathValueView,
    env: Env,
    spent: Spent,
    found: Seq<Matched>,
)
    ensures
        walk::walked(
            pattern,
            at,
            from,
            m,
            path,
            env,
            spent,
            found,
        ).result matches Err(e) ==> is_not_timed(e),
    decreases pattern.steps.len() - at, 2int, 0int, 0int, 0int,
{
    reveal(walk::walked);
    reveal(walk::walked_over);
    reveal(walk::hopped);
    reveal(walk::hopped_over);
    if at < 0 || at >= pattern.steps.len() {
    } else {
        let rel = pattern.steps[at].0;
        match rel.var_length {
            None => {
                let ways = (env.graph.expand)(from.id, rel.direction, rel.types);
                lemma_run_walked_over(pattern, at, ways, 0, m, path, env, spent, found);
            },
            Some(bounds) => {
                lemma_run_hopped(
                    pattern,
                    at,
                    from,
                    m,
                    path,
                    seq![],
                    walk::least_hops(bounds),
                    walk::most_hops(bounds),
                    env,
                    spent,
                    found,
                );
            },
        }
    }
}

proof fn lemma_run_walked_over(
    pattern: BoundPathPatternView,
    at: int,
    ways: Seq<(RelValueView, NodeValueView)>,
    i: int,
    m: Matched,
    path: PathValueView,
    env: Env,
    spent: Spent,
    found: Seq<Matched>,
)
    ensures
        walk::walked_over(
            pattern,
            at,
            ways,
            i,
            m,
            path,
            env,
            spent,
            found,
        ).result matches Err(e) ==> is_not_timed(e),
    decreases pattern.steps.len() - at, 1int, 0int, 0int, ways.len() - i,
{
    reveal(walk::walked);
    reveal(walk::walked_over);
    reveal(walk::hopped);
    reveal(walk::hopped_over);
    if !(at < 0 || at >= pattern.steps.len() || i < 0 || i >= ways.len()) {
        let (rel_pattern, node_pattern) = pattern.steps[at];
        let (rel, node) = ways[i];
        let t = walk::way_fits(rel_pattern, Some(node_pattern), ways[i], m, env, spent);
        lemma_run_way_fits(rel_pattern, Some(node_pattern), ways[i], m, env, spent);
        if t.result is Ok {
            lemma_run_walked_over(pattern, at, ways, i + 1, m, path, env, t.spent, found);
            let with_rel = walk::bound_fresh(m.row, rel_pattern.var, ValueView::Relationship(rel));
            let next = Matched {
                row: walk::bound_fresh(with_rel, node_pattern.var, ValueView::Node(node)),
                used: m.used.push(rel.id),
            };
            let path_on = walk::longer(path, ways[i]);
            let on = walk::walked(pattern, at + 1, node, next, path_on, env, t.spent, found);
            lemma_run_walked(pattern, at + 1, node, next, path_on, env, t.spent, found);
            if let Ok(all) = on.result {
                lemma_run_walked_over(pattern, at, ways, i + 1, m, path, env, on.spent, all);
            }
        }
    }
}

proof fn lemma_run_hopped(
    pattern: BoundPathPatternView,
    at: int,
    from: NodeValueView,
    m: Matched,
    path: PathValueView,
    hops: Seq<RelValueView>,
    min: u64,
    max: u64,
    env: Env,
    spent: Spent,
    found: Seq<Matched>,
)
    ensures
        walk::hopped(
            pattern,
            at,
            from,
            m,
            path,
            hops,
            min,
            max,
            env,
            spent,
            found,
        ).result matches Err(e) ==> is_not_timed(e),
    decreases pattern.steps.len() - at, 1int, max - hops.len(), 1int, 0int,
{
    reveal(walk::walked);
    reveal(walk::walked_over);
    reveal(walk::hopped);
    reveal(walk::hopped_over);
    if !(at < 0 || at >= pattern.steps.len()) {
        let (rel_pattern, node_pattern) = pattern.steps[at];
        let t = if hops.len() >= min {
            walk::node_fits(from, node_pattern, m.row, env, spent)
        } else {
            Tested { result: Ok(false), spent }
        };
        lemma_run_node_fits(from, node_pattern, m.row, env, spent);
        if let Ok(close) = t.result {
            let with_rel = walk::bound_to(m.row, rel_pattern.var, walk::rel_list(hops));
            let next = Matched {
                row: walk::bound_fresh(with_rel, node_pattern.var, ValueView::Node(from)),
                used: m.used,
            };
            let on = if close && walk::admits_node(with_rel, node_pattern.var, from) {
                walk::walked(pattern, at + 1, from, next, path, env, t.spent, found)
            } else {
                Walked { result: Ok(found), spent: t.spent }
            };
            lemma_run_walked(pattern, at + 1, from, next, path, env, t.spent, found);
            if let Ok(all) = on.result {
                if hops.len() < max {
                    let ways = (env.graph.expand)(
                        from.id,
                        rel_pattern.direction,
                        rel_pattern.types,
                    );
                    lemma_run_hopped_over(
                        pattern,
                        at,
                        ways,
                        0,
                        m,
                        path,
                        hops,
                        min,
                        max,
                        env,
                        on.spent,
                        all,
                    );
                }
            }
        }
    }
}

proof fn lemma_run_hopped_over(
    pattern: BoundPathPatternView,
    at: int,
    ways: Seq<(RelValueView, NodeValueView)>,
    i: int,
    m: Matched,
    path: PathValueView,
    hops: Seq<RelValueView>,
    min: u64,
    max: u64,
    env: Env,
    spent: Spent,
    found: Seq<Matched>,
)
    ensures
        walk::hopped_over(
                pattern,
                at,
                ways,
                i,
                m,
                path,
                hops,
                min,
                max,
                env,
                spent,
                found,
            ).result matches Err(e) ==> is_not_timed(e),
    decreases pattern.steps.len() - at, 1int, max - hops.len(), 0int, ways.len() - i,
{
    reveal(walk::walked);
    reveal(walk::walked_over);
    reveal(walk::hopped);
    reveal(walk::hopped_over);
    if !(at < 0 || at >= pattern.steps.len() || i < 0 || i >= ways.len() || hops.len() >= max) {
        let t = walk::way_fits(pattern.steps[at].0, None, ways[i], m, env, spent);
        lemma_run_way_fits(pattern.steps[at].0, None, ways[i], m, env, spent);
        if t.result is Ok {
            lemma_run_hopped_over(
                pattern,
                at,
                ways,
                i + 1,
                m,
                path,
                hops,
                min,
                max,
                env,
                t.spent,
                found,
            );
            let next = Matched { row: m.row, used: m.used.push(ways[i].0.id) };
            let path_on = walk::longer(path, ways[i]);
            let hops_on = hops.push(ways[i].0);
            let on = walk::hopped(
                pattern,
                at,
                ways[i].1,
                next,
                path_on,
                hops_on,
                min,
                max,
                env,
                t.spent,
                found,
            );
            lemma_run_hopped(
                pattern,
                at,
                ways[i].1,
                next,
                path_on,
                hops_on,
                min,
                max,
                env,
                t.spent,
                found,
            );
            if let Ok(all) = on.result {
                lemma_run_hopped_over(
                    pattern,
                    at,
                    ways,
                    i + 1,
                    m,
                    path,
                    hops,
                    min,
                    max,
                    env,
                    on.spent,
                    all,
                );
            }
        }
    }
}

proof fn lemma_run_anchored(
    pattern: BoundPathPatternView,
    anchors: Seq<NodeValueView>,
    i: int,
    m: Matched,
    env: Env,
    spent: Spent,
    found: Seq<Matched>,
)
    ensures
        walk::anchored_from(
            pattern,
            anchors,
            i,
            m,
            env,
            spent,
            found,
        ).result matches Err(e) ==> is_not_timed(e),
    decreases anchors.len() - i,
{
    reveal(walk::anchored_from);
    if !(i < 0 || i >= anchors.len()) {
        let t = walk::node_fits(anchors[i], pattern.start, m.row, env, spent);
        lemma_run_node_fits(anchors[i], pattern.start, m.row, env, spent);
        if t.result is Ok {
            lemma_run_anchored(pattern, anchors, i + 1, m, env, t.spent, found);
            let next = Matched {
                row: walk::bound_to(m.row, pattern.start.var, ValueView::Node(anchors[i])),
                used: m.used,
            };
            let path = PathValueView { nodes: seq![anchors[i]], rels: seq![] };
            let on = walk::walked(pattern, 0, anchors[i], next, path, env, t.spent, found);
            lemma_run_walked(pattern, 0, anchors[i], next, path, env, t.spent, found);
            if let Ok(all) = on.result {
                lemma_run_anchored(pattern, anchors, i + 1, m, env, on.spent, all);
            }
        }
    }
}

proof fn lemma_run_continued(
    pattern: BoundPathPatternView,
    states: Seq<Matched>,
    i: int,
    env: Env,
    spent: Spent,
    found: Seq<Matched>,
)
    ensures
        walk::continued_from(
            pattern,
            states,
            i,
            env,
            spent,
            found,
        ).result matches Err(e) ==> is_not_timed(e),
    decreases states.len() - i,
{
    reveal(walk::continued_from);
    if !(i < 0 || i >= states.len()) {
        let anchors = walk::anchors_of(pattern.start, states[i].row, env.graph);
        let on = walk::anchored_from(pattern, anchors, 0, states[i], env, spent, found);
        lemma_run_anchored(pattern, anchors, 0, states[i], env, spent, found);
        if let Ok(all) = on.result {
            lemma_run_continued(pattern, states, i + 1, env, on.spent, all);
        }
    }
}

proof fn lemma_run_patterns(
    patterns: Seq<BoundPathPatternView>,
    k: int,
    states: Seq<Matched>,
    env: Env,
    spent: Spent,
)
    ensures
        walk::patterns_from(
            patterns,
            k,
            states,
            env,
            spent,
        ).result matches Err(e) ==> is_not_timed(e),
    decreases patterns.len() - k,
{
    reveal(walk::patterns_from);
    if !(k < 0 || k >= patterns.len()) {
        let on = walk::continued_from(patterns[k], states, 0, env, spent, seq![]);
        lemma_run_continued(patterns[k], states, 0, env, spent, seq![]);
        if let Ok(next) = on.result {
            lemma_run_patterns(patterns, k + 1, next, env, on.spent);
        }
    }
}

proof fn lemma_run_kept(
    states: Seq<Matched>,
    i: int,
    predicate: Option<BoundExprView>,
    env: Env,
    spent: Spent,
    kept: Seq<Map<u32, ValueView>>,
)
    ensures
        walk::kept_from(
            states,
            i,
            predicate,
            env,
            spent,
            kept,
        ).result matches Err(e) ==> is_not_timed(e),
    decreases states.len() - i,
{
    reveal(walk::kept_from);
    if !(i < 0 || i >= states.len()) {
        let t = walk::passes(predicate, states[i].row, env, spent);
        lemma_row_passes(predicate, states[i].row, env, spent);
        if let Ok(b) = t.result {
            let next = if b {
                kept.push(states[i].row)
            } else {
                kept
            };
            lemma_run_kept(states, i + 1, predicate, env, t.spent, next);
        }
    }
}

proof fn lemma_run_appended(
    rows: Seq<Map<u32, ValueView>>,
    j: int,
    out: Seq<Map<u32, ValueView>>,
    spent: Spent,
)
    ensures
        walk::appended_from(rows, j, out, spent).result matches Err(e) ==> is_not_timed(e),
    decreases rows.len() - j,
{
    reveal(walk::appended_from);
    if !(j < 0 || j >= rows.len()) {
        let c = spent.budget.row(out.len());
        if c.result is Ok {
            let after = semantics::with_budget(spent, c.budget);
            lemma_run_appended(rows, j + 1, out.push(rows[j]), after);
        }
    }
}

proof fn lemma_run_row_matches(
    row: Map<u32, ValueView>,
    optional: bool,
    patterns: Seq<BoundPathPatternView>,
    predicate: Option<BoundExprView>,
    env: Env,
    spent: Spent,
)
    ensures
        walk::row_matches(
            row,
            optional,
            patterns,
            predicate,
            env,
            spent,
        ).result matches Err(e) ==> is_not_timed(e),
{
    reveal(walk::row_matches);
    let start = seq![Matched { row, used: seq![] }];
    let on = walk::patterns_from(patterns, 0, start, env, spent);
    lemma_run_patterns(patterns, 0, start, env, spent);
    if let Ok(states) = on.result {
        lemma_run_kept(states, 0, predicate, env, on.spent, seq![]);
    }
}

proof fn lemma_run_matched(
    rows: Seq<Map<u32, ValueView>>,
    i: int,
    optional: bool,
    patterns: Seq<BoundPathPatternView>,
    predicate: Option<BoundExprView>,
    env: Env,
    spent: Spent,
    out: Seq<Map<u32, ValueView>>,
)
    ensures
        walk::matched_from(
            rows,
            i,
            optional,
            patterns,
            predicate,
            env,
            spent,
            out,
        ).result matches Err(e) ==> is_not_timed(e),
    decreases rows.len() - i,
{
    reveal(walk::matched_from);
    if !(i < 0 || i >= rows.len()) {
        let r = walk::row_matches(rows[i], optional, patterns, predicate, env, spent);
        lemma_run_row_matches(rows[i], optional, patterns, predicate, env, spent);
        if let Ok(found) = r.result {
            let more = walk::appended_from(found, 0, out, r.spent);
            lemma_run_appended(found, 0, out, r.spent);
            if let Ok(all) = more.result {
                lemma_run_matched(rows, i + 1, optional, patterns, predicate, env, more.spent, all);
            }
        }
    }
}

proof fn lemma_run_value(
    e: BoundExprView,
    row: Map<u32, ValueView>,
    env: Env,
    spent: Spent,
)
    ensures
        semantics::value_of(e, row, env, spent).result matches Err(e) ==> is_not_timed(e),
{
    reveal(semantics::value_of);
    evaluation_is_not_timed(e, row, env, spent);
}

proof fn lemma_run_row_unwound(
    row: Map<u32, ValueView>,
    expr: BoundExprView,
    alias: VarId,
    span: Span,
    env: Env,
    spent: Spent,
)
    ensures
        feed::row_unwound(
            row,
            expr,
            alias,
            span,
            env,
            spent,
        ).result matches Err(e) ==> is_not_timed(e),
{
    reveal(feed::row_unwound);
    lemma_run_value(expr, row, env, spent);
}

proof fn lemma_run_unwound(
    rows: Seq<Map<u32, ValueView>>,
    i: int,
    expr: BoundExprView,
    alias: VarId,
    span: Span,
    env: Env,
    spent: Spent,
    out: Seq<Map<u32, ValueView>>,
)
    ensures
        feed::unwound_from(
            rows,
            i,
            expr,
            alias,
            span,
            env,
            spent,
            out,
        ).result matches Err(e) ==> is_not_timed(e),
    decreases rows.len() - i,
{
    reveal(feed::unwound_from);
    if !(i < 0 || i >= rows.len()) {
        let r = feed::row_unwound(rows[i], expr, alias, span, env, spent);
        lemma_run_row_unwound(rows[i], expr, alias, span, env, spent);
        if let Ok(found) = r.result {
            let more = walk::appended_from(found, 0, out, r.spent);
            lemma_run_appended(found, 0, out, r.spent);
            if let Ok(all) = more.result {
                lemma_run_unwound(rows, i + 1, expr, alias, span, env, more.spent, all);
            }
        }
    }
}

proof fn lemma_run_row_called(
    row: Map<u32, ValueView>,
    procedure: ProcedureDefView,
    args: Seq<BoundExprView>,
    yields: Seq<(Seq<char>, VarId)>,
    predicate: Option<BoundExprView>,
    span: Span,
    outcome: Outcome,
    env: Env,
    spent: Spent,
)
    ensures
        feed::row_called(
                row,
                procedure,
                args,
                yields,
                predicate,
                span,
                outcome,
                env,
                spent,
            ).result matches Err(e) ==> is_not_timed(e),
{
    reveal(feed::row_called);
    let a = semantics::arguments_from(args, 0, seq![], row, env, spent);
    lemma_arguments(args, 0, seq![], row, env, spent);
    if let Ok(values) = a.result {
        if let Ok(tuples) = outcome(procedure.name, values) {
            let more = feed::extended(row, yields, procedure.yields, tuples);
            lemma_row_filtered(more, 0, predicate, env, a.spent, seq![]);
        }
    }
}

proof fn lemma_run_called(
    rows: Seq<Map<u32, ValueView>>,
    i: int,
    procedure: ProcedureDefView,
    args: Seq<BoundExprView>,
    yields: Seq<(Seq<char>, VarId)>,
    predicate: Option<BoundExprView>,
    span: Span,
    outcome: Outcome,
    env: Env,
    spent: Spent,
    out: Seq<Map<u32, ValueView>>,
)
    ensures
        feed::called_from(
                rows,
                i,
                procedure,
                args,
                yields,
                predicate,
                span,
                outcome,
                env,
                spent,
                out,
            ).result matches Err(e) ==> is_not_timed(e),
    decreases rows.len() - i,
{
    reveal(feed::called_from);
    if !(i < 0 || i >= rows.len()) {
        let r = feed::row_called(
            rows[i],
            procedure,
            args,
            yields,
            predicate,
            span,
            outcome,
            env,
            spent,
        );
        lemma_run_row_called(
            rows[i],
            procedure,
            args,
            yields,
            predicate,
            span,
            outcome,
            env,
            spent,
        );
        if let Ok(found) = r.result {
            let more = walk::appended_from(found, 0, out, r.spent);
            lemma_run_appended(found, 0, out, r.spent);
            if let Ok(all) = more.result {
                lemma_run_called(
                    rows,
                    i + 1,
                    procedure,
                    args,
                    yields,
                    predicate,
                    span,
                    outcome,
                    env,
                    more.spent,
                    all,
                );
            }
        }
    }
}

proof fn lemma_run_properties_of(
    properties: Option<BoundExprView>,
    row: Map<u32, ValueView>,
    env: Env,
    span: Span,
    spent: Spent,
)
    ensures
        create::properties_of(
            properties,
            row,
            env,
            span,
            spent,
        ).result matches Err(e) ==> is_not_timed(e),
{
    reveal(create::properties_of);
    if let Some(e) = properties {
        evaluation_is_not_timed(e, row, env, spent);
    }
}

proof fn lemma_run_node_made(
    p: BoundNodePatternView,
    row: Map<u32, ValueView>,
    o: OverlayView,
    given: Given,
    spent: Spent,
)
    ensures
        create::node_made(p, row, o, given, spent).result matches Err(e) ==> is_not_timed(e),
{
    reveal(create::node_made);
    lemma_run_properties_of(p.properties, row, given.env(o.graph()), p.span, spent);
}

proof fn lemma_run_steps_made(
    steps: Seq<(BoundRelPatternView, BoundNodePatternView)>,
    at: int,
    from: NodeValueView,
    path: PathValueView,
    row: Map<u32, ValueView>,
    o: OverlayView,
    given: Given,
    spent: Spent,
)
    ensures
        create::steps_made(
            steps,
            at,
            from,
            path,
            row,
            o,
            given,
            spent,
        ).result matches Err(e) ==> is_not_timed(e),
    decreases steps.len() - at,
{
    reveal(create::steps_made);
    if !(at < 0 || at >= steps.len()) {
        let p = steps[at].0;
        let n = create::node_made(steps[at].1, row, o, given, spent);
        lemma_run_node_made(steps[at].1, row, o, given, spent);
        if let Ok((target, row, o)) = n.result {
            let env = given.env(o.graph());
            let m = create::properties_of(p.properties, row, env, p.span, n.spent);
            lemma_run_properties_of(p.properties, row, env, p.span, n.spent);
            if let Ok(properties) = m.result {
                let made = create::rel_made(p, from, target, properties, o);
                lemma_run_steps_made(
                    steps,
                    at + 1,
                    target,
                    PathValueView {
                        nodes: path.nodes.push(target),
                        rels: path.rels.push(made.1),
                    },
                    walk::bound_to(row, p.var, ValueView::Relationship(made.1)),
                    made.0,
                    given,
                    m.spent,
                );
            }
        }
    }
}

proof fn lemma_run_path_made(
    p: BoundPathPatternView,
    row: Map<u32, ValueView>,
    o: OverlayView,
    given: Given,
    spent: Spent,
)
    ensures
        create::path_made(p, row, o, given, spent).result matches Err(e) ==> is_not_timed(e),
{
    reveal(create::path_made);
    let n = create::node_made(p.start, row, o, given, spent);
    lemma_run_node_made(p.start, row, o, given, spent);
    if let Ok((start, row, o)) = n.result {
        let path = PathValueView { nodes: seq![start], rels: seq![] };
        lemma_run_steps_made(p.steps, 0, start, path, row, o, given, n.spent);
    }
}

proof fn lemma_run_paths_made(
    patterns: Seq<BoundPathPatternView>,
    k: int,
    row: Map<u32, ValueView>,
    o: OverlayView,
    given: Given,
    spent: Spent,
)
    ensures
        create::paths_made(
            patterns,
            k,
            row,
            o,
            given,
            spent,
        ).result matches Err(e) ==> is_not_timed(e),
    decreases patterns.len() - k,
{
    reveal(create::paths_made);
    if !(k < 0 || k >= patterns.len()) {
        let m = create::path_made(patterns[k], row, o, given, spent);
        lemma_run_path_made(patterns[k], row, o, given, spent);
        if let Ok((row, o)) = m.result {
            lemma_run_paths_made(patterns, k + 1, row, o, given, m.spent);
        }
    }
}

proof fn lemma_run_created(
    rows: Seq<Map<u32, ValueView>>,
    i: int,
    patterns: Seq<BoundPathPatternView>,
    o: OverlayView,
    given: Given,
    spent: Spent,
    out: Seq<Map<u32, ValueView>>,
)
    ensures
        create::created_from(
            rows,
            i,
            patterns,
            o,
            given,
            spent,
            out,
        ).result matches Err(e) ==> is_not_timed(e),
    decreases rows.len() - i,
{
    reveal(create::created_from);
    if !(i < 0 || i >= rows.len()) {
        let m = create::paths_made(patterns, 0, rows[i], o, given, spent);
        lemma_run_paths_made(patterns, 0, rows[i], o, given, spent);
        if let Ok((row, o)) = m.result {
            lemma_run_created(rows, i + 1, patterns, o, given, m.spent, out.push(row));
        }
    }
}

proof fn lemma_run_item_set(
    item: BoundSetItemView,
    row: Map<u32, ValueView>,
    o: OverlayView,
    given: Given,
    spent: Spent,
)
    ensures
        change::item_set(item, row, o, given, spent).result matches Err(e) ==> is_not_timed(e),
{
    reveal(change::item_set);
    let env = given.env(o.graph());
    match item {
        BoundSetItemView::Property { value, .. } => lemma_run_value(value, row, env, spent),
        BoundSetItemView::Replace { value, .. } => lemma_run_value(value, row, env, spent),
        BoundSetItemView::Merge { value, .. } => lemma_run_value(value, row, env, spent),
        BoundSetItemView::AddLabels { .. } => {},
    }
}

proof fn lemma_run_items_set(
    items: Seq<BoundSetItemView>,
    k: int,
    row: Map<u32, ValueView>,
    o: OverlayView,
    given: Given,
    spent: Spent,
)
    ensures
        change::items_set(items, k, row, o, given, spent).result matches Err(e) ==> is_not_timed(e),
    decreases items.len() - k,
{
    reveal(change::items_set);
    let row = refresh::refreshed_row(row, o);
    if !(k < 0 || k >= items.len()) {
        let c = change::item_set(items[k], row, o, given, spent);
        lemma_run_item_set(items[k], row, o, given, spent);
        if let Ok(o) = c.result {
            lemma_run_items_set(items, k + 1, row, o, given, c.spent);
        }
    }
}

proof fn lemma_run_set(
    rows: Seq<Map<u32, ValueView>>,
    i: int,
    items: Seq<BoundSetItemView>,
    o: OverlayView,
    given: Given,
    spent: Spent,
    out: Seq<Map<u32, ValueView>>,
)
    ensures
        change::set_from(
            rows,
            i,
            items,
            o,
            given,
            spent,
            out,
        ).result matches Err(e) ==> is_not_timed(e),
    decreases rows.len() - i,
{
    reveal(change::set_from);
    if !(i < 0 || i >= rows.len()) {
        let m = change::items_set(items, 0, rows[i], o, given, spent);
        lemma_run_items_set(items, 0, rows[i], o, given, spent);
        if let Ok((row, o)) = m.result {
            lemma_run_set(rows, i + 1, items, o, given, m.spent, out.push(row));
        }
    }
}

proof fn lemma_run_targets(
    targets: Seq<BoundExprView>,
    k: int,
    row: Map<u32, ValueView>,
    env: Env,
    spent: Spent,
    d: Doomed,
)
    ensures
        delete::targets_marked(
            targets,
            k,
            row,
            env,
            spent,
            d,
        ).result matches Err(e) ==> is_not_timed(e),
    decreases targets.len() - k,
{
    reveal(delete::targets_marked);
    if !(k < 0 || k >= targets.len()) {
        let x = semantics::value_of(targets[k], row, env, spent);
        lemma_run_value(targets[k], row, env, spent);
        if let Ok(v) = x.result {
            if let Ok(d) = delete::doomed_with(d, v, semantics::bound_place(targets[k])) {
                lemma_run_targets(targets, k + 1, row, env, x.spent, d);
            }
        }
    }
}

proof fn lemma_run_marked(
    targets: Seq<BoundExprView>,
    rows: Seq<Map<u32, ValueView>>,
    i: int,
    env: Env,
    spent: Spent,
    d: Doomed,
)
    ensures
        delete::rows_marked(
            targets,
            rows,
            i,
            env,
            spent,
            d,
        ).result matches Err(e) ==> is_not_timed(e),
    decreases rows.len() - i,
{
    reveal(delete::rows_marked);
    if !(i < 0 || i >= rows.len()) {
        let m = delete::targets_marked(targets, 0, rows[i], env, spent, d);
        lemma_run_targets(targets, 0, rows[i], env, spent, d);
        if let Ok(d) = m.result {
            lemma_run_marked(targets, rows, i + 1, env, m.spent, d);
        }
    }
}

proof fn lemma_run_deleted(
    detach: bool,
    targets: Seq<BoundExprView>,
    span: Span,
    rows: Seq<Map<u32, ValueView>>,
    o: OverlayView,
    given: Given,
    spent: Spent,
)
    ensures
        delete::deleted(
            detach,
            targets,
            span,
            rows,
            o,
            given,
            spent,
        ).result matches Err(e) ==> is_not_timed(e),
{
    reveal(delete::deleted);
    lemma_run_marked(targets, rows, 0, given.env(o.graph()), spent, Doomed::nothing());
    let env = given.env(o.graph());
    let m = delete::rows_marked(targets, rows, 0, env, spent, Doomed::nothing());
    if let Ok(d) = m.result {
        lemma_freed(delete::rels_dropped(o, d.rels, d.rels.len()), d.nodes, 0, detach, span);
    }
}

proof fn lemma_run_matches_set(
    states: Seq<Matched>,
    i: int,
    items: Seq<BoundSetItemView>,
    o: OverlayView,
    given: Given,
    spent: Spent,
    out: Seq<Map<u32, ValueView>>,
)
    ensures
        merge::matches_set(
            states,
            i,
            items,
            o,
            given,
            spent,
            out,
        ).result matches Err(e) ==> is_not_timed(e),
    decreases states.len() - i,
{
    reveal(merge::matches_set);
    if !(i < 0 || i >= states.len()) {
        let m = change::items_set(items, 0, states[i].row, o, given, spent);
        lemma_run_items_set(items, 0, states[i].row, o, given, spent);
        if let Ok((row, o)) = m.result {
            let c = m.spent.budget.row(out.len());
            if c.result is Ok {
                let after = semantics::with_budget(m.spent, c.budget);
                lemma_run_matches_set(states, i + 1, items, o, given, after, out.push(row));
            }
        }
    }
}

proof fn lemma_run_row_merged(
    row: Map<u32, ValueView>,
    pattern: BoundPathPatternView,
    on_create: Seq<BoundSetItemView>,
    on_match: Seq<BoundSetItemView>,
    o: OverlayView,
    given: Given,
    spent: Spent,
    out: Seq<Map<u32, ValueView>>,
)
    ensures
        merge::row_merged(
            row,
            pattern,
            on_create,
            on_match,
            o,
            given,
            spent,
            out,
        ).result matches Err(e) ==> is_not_timed(e),
{
    reveal(merge::row_merged);
    let start = seq![Matched { row, used: seq![] }];
    let env = given.env(o.graph());
    let found = walk::continued_from(pattern, start, 0, env, spent, seq![]);
    lemma_run_continued(pattern, start, 0, env, spent, seq![]);
    if let Ok(states) = found.result {
        if states.len() > 0 {
            lemma_run_matches_set(states, 0, on_match, o, given, found.spent, out);
        } else {
            let m = create::path_made(pattern, row, o, given, found.spent);
            lemma_run_path_made(pattern, row, o, given, found.spent);
            if let Ok((row, o)) = m.result {
                let one = seq![Matched { row, used: seq![] }];
                lemma_run_matches_set(one, 0, on_create, o, given, m.spent, out);
            }
        }
    }
}

proof fn lemma_run_merged(
    rows: Seq<Map<u32, ValueView>>,
    i: int,
    pattern: BoundPathPatternView,
    on_create: Seq<BoundSetItemView>,
    on_match: Seq<BoundSetItemView>,
    o: OverlayView,
    given: Given,
    spent: Spent,
    out: Seq<Map<u32, ValueView>>,
)
    ensures
        merge::merged_from(
            rows,
            i,
            pattern,
            on_create,
            on_match,
            o,
            given,
            spent,
            out,
        ).result matches Err(e) ==> is_not_timed(e),
    decreases rows.len() - i,
{
    reveal(merge::merged_from);
    if !(i < 0 || i >= rows.len()) {
        let m = merge::row_merged(rows[i], pattern, on_create, on_match, o, given, spent, out);
        lemma_run_row_merged(rows[i], pattern, on_create, on_match, o, given, spent, out);
        if let Ok((out, o)) = m.result {
            lemma_run_merged(rows, i + 1, pattern, on_create, on_match, o, given, m.spent, out);
        }
    }
}

proof fn lemma_run_clause(
    clause: BoundClauseView,
    last: bool,
    s: Progress,
    given: Given,
    world: World,
    spent: Spent,
)
    ensures
        run::clause_run(
            clause,
            last,
            s,
            given,
            world,
            spent,
        ).result matches Err(e) ==> is_not_timed(e),
{
    reveal(run::clause_run);
    let env = given.env(s.overlay.graph());
    match clause {
        BoundClauseView::Match { optional, patterns, at_ref, where_clause, span } => {
            if let Ok(graph) = run::graph_for(at_ref, span, s.overlay, given, world) {
                lemma_run_matched(
                    s.rows,
                    0,
                    optional,
                    patterns,
                    where_clause,
                    given.env(graph),
                    spent,
                    seq![],
                );
            }
        },
        BoundClauseView::Unwind { expr, alias, span } => {
            lemma_run_unwound(s.rows, 0, expr, alias, span, env, spent, seq![]);
        },
        BoundClauseView::With(p) => {
            projecting_is_not_timed(p, true, s.rows, env, spent);
        },
        BoundClauseView::Return(p) => {
            projecting_is_not_timed(p, false, s.rows, env, spent);
        },
        BoundClauseView::Call { procedure, args, yields, where_clause, span } => {
            lemma_run_called(
                s.rows,
                0,
                procedure,
                args,
                yields,
                where_clause,
                span,
                world.outcome,
                env,
                spent,
                seq![],
            );
        },
        BoundClauseView::Create { patterns, span } => {
            lemma_run_created(s.rows, 0, patterns, s.overlay, given, spent, seq![]);
        },
        BoundClauseView::SetItems { items, span } => {
            lemma_run_set(s.rows, 0, items, s.overlay, given, spent, seq![]);
        },
        BoundClauseView::Remove { items, span } => {
            lemma_removed(s.rows, 0, items, s.overlay, seq![]);
        },
        BoundClauseView::Delete { detach, targets, span } => {
            lemma_run_deleted(detach, targets, span, s.rows, s.overlay, given, spent);
        },
        BoundClauseView::Merge { pattern, on_create, on_match, span } => {
            lemma_run_merged(
                s.rows,
                0,
                pattern,
                on_create,
                on_match,
                s.overlay,
                given,
                spent,
                seq![],
            );
        },
    }
}

proof fn lemma_run_ran(
    clauses: Seq<BoundClauseView>,
    k: int,
    s: Progress,
    given: Given,
    world: World,
    spent: Spent,
)
    ensures
        run::ran_from(clauses, k, s, given, world, spent).result matches Err(e) ==> is_not_timed(e),
    decreases clauses.len() - k,
{
    reveal(run::ran_from);
    if !(k < 0 || k >= clauses.len()) {
        let last = k == clauses.len() - 1;
        let r = run::clause_run(clauses[k], last, s, given, world, spent);
        lemma_run_clause(clauses[k], last, s, given, world, spent);
        if let Ok(next) = r.result {
            lemma_run_ran(clauses, k + 1, next, given, world, r.spent);
        }
    }
}

/// Without a wall clock an evaluation comes to what the model says, and so never
/// ends in the clock's error.
pub proof fn untimed_evaluation_is_exact(
    r: Result<Value, ExecError>,
    after: Spent,
    e: BoundExprView,
    row: Map<u32, ValueView>,
    env: Env,
    spent: Spent,
)
    requires
        !spent.budget.timed,
        eval::evaluates(r, spent, after, semantics::evaluated(e, row, env, spent)),
    ensures
        after == semantics::evaluated(e, row, env, spent).spent,
        r matches Ok(v) ==> semantics::evaluated(e, row, env, spent).result == Ok::<
            _,
            ExecErrorView,
        >(v@),
        r matches Err(error) ==> semantics::evaluated(e, row, env, spent).result == Err::<
            ValueView,
            _,
        >(error@) && is_not_timed(error@),
{
    budget_laws::evaluation_only_charges(e, row, env, spent);
    evaluation_is_not_timed(e, row, env, spent);
}

/// Without a wall clock a projection comes to what the model says, and so never
/// ends in the clock's error.
pub proof fn untimed_projections_are_exact(
    r: Result<Vec<Row>, ExecError>,
    after: Spent,
    p: BoundProjectionView,
    is_with: bool,
    rows: Seq<Map<u32, ValueView>>,
    env: Env,
    spent: Spent,
)
    requires
        !spent.budget.timed,
        matching::produces(
            r,
            spent,
            after,
            projection_model::projected(p, is_with, rows, env, spent),
        ),
    ensures
        ({
            let x = projection_model::projected(p, is_with, rows, env, spent);
            &&& after == x.spent
            &&& r matches Ok(made) ==> x.result == Ok::<_, ExecErrorView>(row::rows_view(made@))
            &&& r matches Err(error) ==> x.result == Err::<Seq<Map<u32, ValueView>>, _>(error@)
                && is_not_timed(error@)
        }),
{
    row_laws::projections_stay_within_the_row_cap(p, is_with, rows, env, spent);
    projecting_is_not_timed(p, is_with, rows, env, spent);
}

/// Without a wall clock a query comes to what the model says, and so never ends in
/// the clock's error.
pub proof fn untimed_queries_are_exact(
    r: Result<QueryResult, ExecError>,
    query: BoundQueryView,
    base: GraphView,
    given: Given,
    world: World,
    limits: QueryLimits,
)
    requires
        limits.wall_clock is None,
        run::answers_within(r, query, base, given, world, limits),
    ensures
        ({
            let x = run::query_run(query, base, given, world, run::fresh(limits));
            &&& r matches Ok(out) ==> x.result is Ok && out@ == run::result_of(x.result->Ok_0)
            &&& r matches Err(error) ==> x.result == Err::<Progress, _>(error@) && is_not_timed(
                error@,
            )
        }),
{
    let start = run::fresh(limits);
    run_laws::lemma_ran(query.clauses, 0, run::at_the_start(base), given, world, start);
    lemma_run_ran(query.clauses, 0, run::at_the_start(base), given, world, start);
}

/// Without a wall clock a write query comes to what the model says, and so never
/// ends in the clock's error.
pub proof fn untimed_writes_are_exact(
    r: Result<(QueryResult, WriteChanges), ExecError>,
    query: BoundQueryView,
    base: GraphView,
    given: Given,
    world: World,
    limits: QueryLimits,
)
    requires
        limits.wall_clock is None,
        run::writes_within(r, query, base, given, world, limits),
    ensures
        ({
            let x = run::query_run(query, base, given, world, run::fresh(limits));
            &&& r matches Ok(out) ==> x.result is Ok && out.0@ == run::result_of(x.result->Ok_0)
                && out.1@ == x.result->Ok_0.overlay.net()
            &&& r matches Err(error) ==> x.result == Err::<Progress, _>(error@) && is_not_timed(
                error@,
            )
        }),
{
    let start = run::fresh(limits);
    run_laws::lemma_ran(query.clauses, 0, run::at_the_start(base), given, world, start);
    lemma_run_ran(query.clauses, 0, run::at_the_start(base), given, world, start);
}

} // verus!
