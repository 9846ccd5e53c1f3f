//! Readings of the clock only ever move forward: whatever a query does, the
//! odometer at the last reading does not go back.

use vstd::prelude::*;

use crate::ast::BinaryOp;
use crate::bind::bound::{
    BoundClauseView, BoundExprView, BoundNodePatternView, BoundPathPatternView,
    BoundProjectionItemView, BoundProjectionView, BoundRelPatternView, BoundSetItemView,
    ProcedureDefView, VarId,
};
use crate::exec::arith;
use crate::exec::budget_laws;
use crate::exec::change;
use crate::exec::create::{self, Given};
use crate::exec::delete::{self, Doomed};
use crate::exec::fault::{ExecErrorView, FloatRequestView};
use crate::exec::feed::{self, Outcome};
use crate::exec::float::FloatAnswerView;
use crate::exec::functions;
use crate::exec::governor::Budget;
use crate::exec::merge;
use crate::exec::overlay::OverlayView;
use crate::exec::projection_model::{self, Group, Keyed};
use crate::exec::refresh;
use crate::exec::row_laws;
use crate::exec::run::{self, Progress, World};
use crate::exec::run_laws;
use crate::exec::semantics::{self, Env, Spent};
use crate::exec::source::GraphView;
use crate::exec::value::{NodeValueView, PathValueView, PropertyMapView, RelValueView, ValueView};
use crate::exec::walk::{self, Matched};
use crate::span::Span;

verus! {

pub(crate) broadcast proof fn polls_arith_binary_of(
    op: BinaryOp,
    a: ValueView,
    b: ValueView,
    span: Span,
    table: Seq<(FloatRequestView, FloatAnswerView)>,
    budget: Budget,
)
    ensures
        (#[trigger] arith::binary_of(op, a, b, span, table, budget)).budget.polled >= budget.polled,
{
    budget_laws::lemma_binary(op, a, b, span, table, budget);
}

pub(crate) broadcast proof fn polls_functions_applied(
    name: Seq<char>,
    args: Seq<ValueView>,
    span: Span,
    graph: GraphView,
    table: Seq<(FloatRequestView, FloatAnswerView)>,
    budget: Budget,
)
    ensures
        (
            #[trigger] functions::applied(name, args, span, graph, table, budget)
        ).budget.polled >= budget.polled,
{
    budget_laws::lemma_applied(name, args, span, graph, table, budget);
}

pub(crate) broadcast proof fn polls_semantics_evaluated(
    e: BoundExprView,
    row: Map<u32, ValueView>,
    env: Env,
    spent: Spent,
)
    ensures
        (
            #[trigger] semantics::evaluated(e, row, env, spent)
        ).spent.budget.polled >= spent.budget.polled,
{
    budget_laws::evaluation_only_charges(e, row, env, spent);
}

pub(crate) broadcast proof fn polls_semantics_arguments_from(
    args: Seq<BoundExprView>,
    i: int,
    before: Seq<ValueView>,
    row: Map<u32, ValueView>,
    env: Env,
    spent: Spent,
)
    ensures
        (
            #[trigger] semantics::arguments_from(args, i, before, row, env, spent)
        ).spent.budget.polled >= spent.budget.polled,
{
    budget_laws::lemma_arguments(args, i, before, row, env, spent);
}

pub(crate) broadcast proof fn polls_semantics_items_from(
    items: Seq<BoundExprView>,
    span: Span,
    i: int,
    before: Seq<ValueView>,
    row: Map<u32, ValueView>,
    env: Env,
    spent: Spent,
)
    ensures
        (
            #[trigger] semantics::items_from(items, span, i, before, row, env, spent)
        ).spent.budget.polled >= spent.budget.polled,
{
    budget_laws::lemma_items(items, span, i, before, row, env, spent);
}

pub(crate) broadcast proof fn polls_semantics_entries_from(
    entries: Seq<(Seq<char>, BoundExprView)>,
    span: Span,
    i: int,
    before: PropertyMapView,
    row: Map<u32, ValueView>,
    env: Env,
    spent: Spent,
)
    ensures
        (
            #[trigger] semantics::entries_from(entries, span, i, before, row, env, spent)
        ).spent.budget.polled >= spent.budget.polled,
{
    budget_laws::lemma_entries(entries, span, i, before, row, env, spent);
}

pub(crate) broadcast proof fn polls_semantics_case_from(
    e: BoundExprView,
    subject: Option<ValueView>,
    i: int,
    row: Map<u32, ValueView>,
    env: Env,
    spent: Spent,
)
    ensures
        (
            #[trigger] semantics::case_from(e, subject, i, row, env, spent)
        ).spent.budget.polled >= spent.budget.polled,
{
    budget_laws::lemma_case(e, subject, i, row, env, spent);
}

pub(crate) broadcast proof fn polls_semantics_comprehended_from(
    e: BoundExprView,
    values: Seq<ValueView>,
    i: int,
    before: Seq<ValueView>,
    row: Map<u32, ValueView>,
    env: Env,
    spent: Spent,
)
    ensures
        (
            #[trigger] semantics::comprehended_from(e, values, i, before, row, env, spent)
        ).spent.budget.polled >= spent.budget.polled,
{
    budget_laws::lemma_comprehended(e, values, i, before, row, env, spent);
}

pub(crate) broadcast proof fn polls_semantics_comprehended_element(
    e: BoundExprView,
    values: Seq<ValueView>,
    i: int,
    before: Seq<ValueView>,
    row: Map<u32, ValueView>,
    env: Env,
    spent: Spent,
)
    ensures
        (
            #[trigger] semantics::comprehended_element(e, values, i, before, row, env, spent)
        ).spent.budget.polled >= spent.budget.polled,
{
    budget_laws::lemma_element(e, values, i, before, row, env, spent);
}

pub(crate) broadcast proof fn polls_semantics_quantified_from(
    e: BoundExprView,
    values: Seq<ValueView>,
    i: int,
    t: nat,
    n: nat,
    row: Map<u32, ValueView>,
    env: Env,
    spent: Spent,
)
    ensures
        (
            #[trigger] semantics::quantified_from(e, values, i, t, n, row, env, spent)
        ).spent.budget.polled >= spent.budget.polled,
{
    budget_laws::lemma_quantified(e, values, i, t, n, row, env, spent);
}

pub(crate) broadcast proof fn polls_semantics_reduced_from(
    e: BoundExprView,
    values: Seq<ValueView>,
    i: int,
    acc: ValueView,
    row: Map<u32, ValueView>,
    env: Env,
    spent: Spent,
)
    ensures
        (
            #[trigger] semantics::reduced_from(e, values, i, acc, row, env, spent)
        ).spent.budget.polled >= spent.budget.polled,
{
    budget_laws::lemma_reduced(e, values, i, acc, row, env, spent);
}

pub(crate) broadcast proof fn polls_projection_model_gathered_from(
    arg: Option<Box<BoundExprView>>,
    group: Seq<Map<u32, ValueView>>,
    i: int,
    env: Env,
    spent: Spent,
    before: Seq<ValueView>,
)
    ensures
        ({
            let x = #[trigger] projection_model::gathered_from(arg, group, i, env, spent, before);
            &&& x.spent.budget.polled >= spent.budget.polled
            &&& !(i < 0 || i >= group.len()) && arg is Some
                ==> x.spent.budget.polled
                    >= semantics::evaluated(*arg->0, group[i], env, spent).spent.budget.polled
        }),
{
    row_laws::lemma_gathered(arg, group, i, env, spent, before);
}

pub(crate) broadcast proof fn polls_projection_model_accumulated(
    e: BoundExprView,
    group: Seq<Map<u32, ValueView>>,
    env: Env,
    spent: Spent,
)
    ensures
        (
            #[trigger] projection_model::accumulated(e, group, env, spent)
        ).spent.budget.polled >= spent.budget.polled,
{
    row_laws::lemma_accumulated(e, group, env, spent);
}

pub(crate) broadcast proof fn polls_projection_model_slots_from(
    aggregates: Seq<BoundExprView>,
    i: int,
    group: Seq<Map<u32, ValueView>>,
    env: Env,
    spent: Spent,
    before: Seq<ValueView>,
)
    ensures
        ({
            let x = #[trigger] projection_model::slots_from(
                aggregates,
                i,
                group,
                env,
                spent,
                before,
            );
            &&& x.spent.budget.polled >= spent.budget.polled
            &&& !(i < 0 || i >= aggregates.len())
                ==> x.spent.budget.polled
                    >= projection_model::accumulated(
                        aggregates[i],
                        group,
                        env,
                        spent,
                    ).spent.budget.polled
        }),
{
    row_laws::lemma_slots(aggregates, i, group, env, spent, before);
}

pub(crate) broadcast proof fn polls_projection_model_evaluated_over(
    e: BoundExprView,
    group: Seq<Map<u32, ValueView>>,
    representative: Map<u32, ValueView>,
    env: Env,
    spent: Spent,
)
    ensures
        (
            #[trigger] projection_model::evaluated_over(e, group, representative, env, spent)
        ).spent.budget.polled >= spent.budget.polled,
{
    row_laws::lemma_over(e, group, representative, env, spent);
}

pub(crate) broadcast proof fn polls_projection_model_key_from(
    items: Seq<BoundProjectionItemView>,
    indices: Seq<usize>,
    i: int,
    row: Map<u32, ValueView>,
    env: Env,
    spent: Spent,
    before: Seq<ValueView>,
)
    ensures
        ({
            let x = #[trigger] projection_model::key_from(
                items,
                indices,
                i,
                row,
                env,
                spent,
                before,
            );
            &&& x.spent.budget.polled >= spent.budget.polled
            &&& !(i < 0 || i >= indices.len()) ==> x.spent.budget.polled >= semantics::evaluated(
                items[indices[i] as int].expr,
                row,
                env,
                spent,
            ).spent.budget.polled
        }),
{
    row_laws::lemma_key(items, indices, i, row, env, spent, before);
}

pub(crate) broadcast proof fn polls_projection_model_groups_from(
    items: Seq<BoundProjectionItemView>,
    indices: Seq<usize>,
    rows: Seq<Map<u32, ValueView>>,
    i: int,
    env: Env,
    spent: Spent,
    before: Seq<Group>,
)
    ensures
        ({
            let x = #[trigger] projection_model::groups_from(
                items,
                indices,
                rows,
                i,
                env,
                spent,
                before,
            );
            &&& x.spent.budget.polled >= spent.budget.polled
            &&& !(i < 0 || i >= rows.len()) ==> x.spent.budget.polled >= projection_model::key_from(
                items,
                indices,
                0,
                rows[i],
                env,
                spent,
                seq![],
            ).spent.budget.polled
        }),
{
    row_laws::lemma_groups(items, indices, rows, i, env, spent, before);
}

pub(crate) broadcast proof fn polls_projection_model_projected_items_from(
    items: Seq<BoundProjectionItemView>,
    i: int,
    row: Map<u32, ValueView>,
    env: Env,
    spent: Spent,
    out: Map<u32, ValueView>,
)
    ensures
        ({
            let x = #[trigger] projection_model::projected_items_from(
                items,
                i,
                row,
                env,
                spent,
                out,
            );
            &&& x.spent.budget.polled >= spent.budget.polled
            &&& !(i < 0 || i >= items.len()) ==> x.spent.budget.polled >= semantics::evaluated(
                items[i].expr,
                row,
                env,
                spent,
            ).spent.budget.polled
        }),
{
    row_laws::lemma_projected_items(items, i, row, env, spent, out);
}

pub(crate) broadcast proof fn polls_projection_model_grouped_items_from(
    items: Seq<BoundProjectionItemView>,
    i: int,
    group: Seq<Map<u32, ValueView>>,
    representative: Map<u32, ValueView>,
    env: Env,
    spent: Spent,
    out: Map<u32, ValueView>,
)
    ensures
        ({
            let x = #[trigger] projection_model::grouped_items_from(
                items,
                i,
                group,
                representative,
                env,
                spent,
                out,
            );
            &&& x.spent.budget.polled >= spent.budget.polled
            &&& !(i < 0 || i >= items.len())
                ==> x.spent.budget.polled
                    >= projection_model::evaluated_over(
                        items[i].expr,
                        group,
                        representative,
                        env,
                        spent,
                    ).spent.budget.polled
        }),
{
    row_laws::lemma_grouped_items(items, i, group, representative, env, spent, out);
}

pub(crate) broadcast proof fn polls_projection_model_plain_rows_from(
    items: Seq<BoundProjectionItemView>,
    rows: Seq<Map<u32, ValueView>>,
    i: int,
    env: Env,
    spent: Spent,
    out: Seq<Map<u32, ValueView>>,
)
    ensures
        ({
            let x = #[trigger] projection_model::plain_rows_from(items, rows, i, env, spent, out);
            &&& x.spent.budget.polled >= spent.budget.polled
            &&& !(i < 0 || i >= rows.len()) ==> ({
                let made = projection_model::projected_items_from(
                    items,
                    0,
                    rows[i],
                    env,
                    spent,
                    rows[i],
                );
                &&& x.spent.budget.polled >= made.spent.budget.polled
                &&& x.spent.budget.polled >= projection_model::pushed(made, out).spent.budget.polled
            })
        }),
{
    row_laws::lemma_plain_rows(items, rows, i, env, spent, out);
}

pub(crate) broadcast proof fn polls_projection_model_group_rows_from(
    items: Seq<BoundProjectionItemView>,
    groups: Seq<Group>,
    i: int,
    env: Env,
    spent: Spent,
    out: Seq<Map<u32, ValueView>>,
)
    ensures
        ({
            let x = #[trigger] projection_model::group_rows_from(items, groups, i, env, spent, out);
            &&& x.spent.budget.polled >= spent.budget.polled
            &&& !(i < 0 || i >= groups.len()) ==> ({
                let first = projection_model::representative_of(groups[i]);
                let made = projection_model::grouped_items_from(
                    items,
                    0,
                    groups[i].rows,
                    first,
                    env,
                    spent,
                    first,
                );
                &&& x.spent.budget.polled >= made.spent.budget.polled
                &&& x.spent.budget.polled >= projection_model::pushed(made, out).spent.budget.polled
            })
        }),
{
    row_laws::lemma_group_rows(items, groups, i, env, spent, out);
}

pub(crate) broadcast proof fn polls_projection_model_merged_rows(
    p: BoundProjectionView,
    rows: Seq<Map<u32, ValueView>>,
    env: Env,
    spent: Spent,
)
    ensures
        (
            #[trigger] projection_model::merged_rows(p, rows, env, spent)
        ).spent.budget.polled >= spent.budget.polled,
{
    row_laws::lemma_merged(p, rows, env, spent);
}

pub(crate) broadcast proof fn polls_walk_passes(
    predicate: Option<BoundExprView>,
    row: Map<u32, ValueView>,
    env: Env,
    spent: Spent,
)
    ensures
        (
            #[trigger] walk::passes(predicate, row, env, spent)
        ).spent.budget.polled >= spent.budget.polled,
{
    row_laws::lemma_passes(predicate, row, env, spent);
}

pub(crate) broadcast proof fn polls_projection_model_filtered_from(
    rows: Seq<Map<u32, ValueView>>,
    i: int,
    predicate: Option<BoundExprView>,
    env: Env,
    spent: Spent,
    kept: Seq<Map<u32, ValueView>>,
)
    ensures
        ({
            let x = #[trigger] projection_model::filtered_from(
                rows,
                i,
                predicate,
                env,
                spent,
                kept,
            );
            &&& x.spent.budget.polled >= spent.budget.polled
            &&& !(i < 0 || i >= rows.len()) ==> x.spent.budget.polled >= walk::passes(
                predicate,
                rows[i],
                env,
                spent,
            ).spent.budget.polled
        }),
{
    row_laws::lemma_filtered(rows, i, predicate, env, spent, kept);
}

pub(crate) broadcast proof fn polls_projection_model_sort_key_from(
    order_by: Seq<(BoundExprView, bool)>,
    i: int,
    row: Map<u32, ValueView>,
    env: Env,
    spent: Spent,
    before: Seq<ValueView>,
)
    ensures
        ({
            let x = #[trigger] projection_model::sort_key_from(
                order_by,
                i,
                row,
                env,
                spent,
                before,
            );
            &&& x.spent.budget.polled >= spent.budget.polled
            &&& !(i < 0 || i >= order_by.len()) ==> x.spent.budget.polled >= semantics::evaluated(
                order_by[i].0,
                row,
                env,
                spent,
            ).spent.budget.polled
        }),
{
    row_laws::lemma_sort_key(order_by, i, row, env, spent, before);
}

pub(crate) broadcast proof fn polls_projection_model_keyed_from(
    order_by: Seq<(BoundExprView, bool)>,
    rows: Seq<Map<u32, ValueView>>,
    i: int,
    env: Env,
    spent: Spent,
    before: Seq<Keyed>,
)
    ensures
        ({
            let x = #[trigger] projection_model::keyed_from(order_by, rows, i, env, spent, before);
            &&& x.spent.budget.polled >= spent.budget.polled
            &&& !(i < 0 || i >= rows.len())
                ==> x.spent.budget.polled
                    >= projection_model::sort_key_from(
                        order_by,
                        0,
                        rows[i],
                        env,
                        spent,
                        seq![],
                    ).spent.budget.polled
        }),
{
    row_laws::lemma_keyed(order_by, rows, i, env, spent, before);
}

pub(crate) broadcast proof fn polls_projection_model_ordered_rows(
    order_by: Seq<(BoundExprView, bool)>,
    rows: Seq<Map<u32, ValueView>>,
    env: Env,
    spent: Spent,
)
    ensures
        (
            #[trigger] projection_model::ordered_rows(order_by, rows, env, spent)
        ).spent.budget.polled >= spent.budget.polled,
{
    row_laws::lemma_ordered(order_by, rows, env, spent);
}

pub(crate) broadcast proof fn polls_projection_model_page_bound(
    count: Option<BoundExprView>, env: Env, spent: Spent,
)
    ensures
        (
            #[trigger] projection_model::page_bound(count, env, spent)
        ).spent.budget.polled >= spent.budget.polled,
{
    row_laws::lemma_page_bound(count, env, spent);
}

pub(crate) broadcast proof fn polls_projection_model_paged_rows(
    skip: Option<BoundExprView>,
    limit: Option<BoundExprView>,
    rows: Seq<Map<u32, ValueView>>,
    env: Env,
    spent: Spent,
)
    ensures
        (
            #[trigger] projection_model::paged_rows(skip, limit, rows, env, spent)
        ).spent.budget.polled >= spent.budget.polled,
{
    row_laws::lemma_paged(skip, limit, rows, env, spent);
}

pub(crate) broadcast proof fn polls_projection_model_projected(
    p: BoundProjectionView,
    is_with: bool,
    rows: Seq<Map<u32, ValueView>>,
    env: Env,
    spent: Spent,
)
    ensures
        (
            #[trigger] projection_model::projected(p, is_with, rows, env, spent)
        ).spent.budget.polled >= spent.budget.polled,
{
    row_laws::projections_stay_within_the_row_cap(p, is_with, rows, env, spent);
}

pub(crate) broadcast proof fn polls_walk_properties_fit(
    wanted: Option<BoundExprView>,
    actual: PropertyMapView,
    row: Map<u32, ValueView>,
    env: Env,
    spent: Spent,
)
    ensures
        (
            #[trigger] walk::properties_fit(wanted, actual, row, env, spent)
        ).spent.budget.polled >= spent.budget.polled,
{
    run_laws::lemma_properties_fit(wanted, actual, row, env, spent);
}

pub(crate) broadcast proof fn polls_walk_node_fits(
    node: NodeValueView,
    pattern: BoundNodePatternView,
    row: Map<u32, ValueView>,
    env: Env,
    spent: Spent,
)
    ensures
        (
            #[trigger] walk::node_fits(node, pattern, row, env, spent)
        ).spent.budget.polled >= spent.budget.polled,
{
    run_laws::lemma_node_fits(node, pattern, row, env, spent);
}

pub(crate) broadcast proof fn polls_walk_way_fits(
    rel_pattern: BoundRelPatternView,
    node_pattern: Option<BoundNodePatternView>,
    way: (RelValueView, NodeValueView),
    m: Matched,
    env: Env,
    spent: Spent,
)
    ensures
        (
            #[trigger] walk::way_fits(rel_pattern, node_pattern, way, m, env, spent)
        ).spent.budget.polled >= spent.budget.polled,
{
    run_laws::lemma_way_fits(rel_pattern, node_pattern, way, m, env, spent);
}

pub(crate) broadcast proof fn polls_walk_walked(
    pattern: BoundPathPatternView,
    at: int,
    from: NodeValueView,
    m: Matched,
    path: PathValueView,
    env: Env,
    spent: Spent,
    found: Seq<Matched>,
)
    ensures
        (
            #[trigger] walk::walked(pattern, at, from, m, path, env, spent, found)
        ).spent.budget.polled >= spent.budget.polled,
{
    run_laws::lemma_walked(pattern, at, from, m, path, env, spent, found);
}

pub(crate) broadcast proof fn polls_walk_walked_over(
    pattern: BoundPathPatternView,
    at: int,
    ways: Seq<(RelValueView, NodeValueView)>,
    i: int,
    m: Matched,
    path: PathValueView,
    env: Env,
    spent: Spent,
    found: Seq<Matched>,
)
    ensures
        ({
            let x = #[trigger] walk::walked_over(pattern, at, ways, i, m, path, env, spent, found);
            &&& x.spent.budget.polled >= spent.budget.polled
            &&& !(at < 0 || at >= pattern.steps.len() || i < 0 || i >= ways.len())
                ==> x.spent.budget.polled
                    >= walk::way_fits(
                        pattern.steps[at].0,
                        Some(pattern.steps[at].1),
                        ways[i],
                        m,
                        env,
                        spent,
                    ).spent.budget.polled
            &&& !(at < 0 || at >= pattern.steps.len() || i < 0 || i >= ways.len()) ==> ({
                let (rel_pattern, node_pattern) = pattern.steps[at];
                let (rel, node) = ways[i];
                let t = walk::way_fits(rel_pattern, Some(node_pattern), ways[i], m, env, spent);
                let with_rel = walk::bound_fresh(
                    m.row,
                    rel_pattern.var,
                    ValueView::Relationship(rel),
                );
                let next = Matched {
                    row: walk::bound_fresh(with_rel, node_pattern.var, ValueView::Node(node)),
                    used: m.used.push(rel.id),
                };
                t.result == Ok::<bool, ExecErrorView>(true)
                    && walk::admits_rel(m.row, rel_pattern.var, rel)
                    && walk::admits_node(with_rel, node_pattern.var, node)
                    ==> x.spent.budget.polled
                        >= walk::walked(
                            pattern,
                            at + 1,
                            node,
                            next,
                            walk::longer(path, ways[i]),
                            env,
                            t.spent,
                            found,
                        ).spent.budget.polled
            })
        }),
{
    run_laws::lemma_walked_over(pattern, at, ways, i, m, path, env, spent, found);
}

pub(crate) broadcast proof fn polls_walk_hopped(
    pattern: BoundPathPatternView,
    at: int,
    from: NodeValueView,
    m: Matched,
    path: PathValueView,
    hops: Seq<RelValueView>,
    min: u64,
    max: u64,
    env: Env,
    spent: Spent,
    found: Seq<Matched>,
)
    ensures
        ({
            let x = #[trigger] walk::hopped(
                pattern,
                at,
                from,
                m,
                path,
                hops,
                min,
                max,
                env,
                spent,
                found,
            );
            &&& x.spent.budget.polled >= spent.budget.polled
            &&& !(at < 0 || at >= pattern.steps.len()) && hops.len() >= min
                ==> x.spent.budget.polled
                    >= walk::node_fits(
                        from,
                        pattern.steps[at].1,
                        m.row,
                        env,
                        spent,
                    ).spent.budget.polled
            &&& !(at < 0 || at >= pattern.steps.len()) && hops.len() >= min ==> ({
                let (rel_pattern, node_pattern) = pattern.steps[at];
                let t = walk::node_fits(from, node_pattern, m.row, env, spent);
                let with_rel = walk::bound_to(m.row, rel_pattern.var, walk::rel_list(hops));
                let next = Matched {
                    row: walk::bound_fresh(with_rel, node_pattern.var, ValueView::Node(from)),
                    used: m.used,
                };
                t.result == Ok::<bool, ExecErrorView>(true)
                    && walk::admits_node(with_rel, node_pattern.var, from)
                    ==> x.spent.budget.polled
                        >= walk::walked(
                            pattern,
                            at + 1,
                            from,
                            next,
                            path,
                            env,
                            t.spent,
                            found,
                        ).spent.budget.polled
            })
        }),
{
    run_laws::lemma_hopped(pattern, at, from, m, path, hops, min, max, env, spent, found);
}

pub(crate) broadcast proof fn polls_walk_hopped_over(
    pattern: BoundPathPatternView,
    at: int,
    ways: Seq<(RelValueView, NodeValueView)>,
    i: int,
    m: Matched,
    path: PathValueView,
    hops: Seq<RelValueView>,
    min: u64,
    max: u64,
    env: Env,
    spent: Spent,
    found: Seq<Matched>,
)
    ensures
        ({
            let x = #[trigger] walk::hopped_over(
                pattern,
                at,
                ways,
                i,
                m,
                path,
                hops,
                min,
                max,
                env,
                spent,
                found,
            );
            &&& x.spent.budget.polled >= spent.budget.polled
            &&& !(
                at < 0 || at >= pattern.steps.len() || i < 0 || i >= ways.len() || hops.len() >= max
            )
                ==> x.spent.budget.polled
                    >= walk::way_fits(
                        pattern.steps[at].0,
                        None,
                        ways[i],
                        m,
                        env,
                        spent,
                    ).spent.budget.polled
            &&& !(at < 0 || at >= pattern.steps.len() || i < 0 || i >= ways.len() || hops.len() >= max) ==> ({
                let t = walk::way_fits(pattern.steps[at].0, None, ways[i], m, env, spent);
                let next = Matched { row: m.row, used: m.used.push(ways[i].0.id) };
                t.result == Ok::<bool, ExecErrorView>(true)
                    ==> x.spent.budget.polled
                        >= walk::hopped(
                            pattern,
                            at,
                            ways[i].1,
                            next,
                            walk::longer(path, ways[i]),
                            hops.push(ways[i].0),
                            min,
                            max,
                            env,
                            t.spent,
                            found,
                        ).spent.budget.polled
            })
        }),
{
    run_laws::lemma_hopped_over(pattern, at, ways, i, m, path, hops, min, max, env, spent, found);
}

pub(crate) broadcast proof fn polls_walk_anchored_from(
    pattern: BoundPathPatternView,
    anchors: Seq<NodeValueView>,
    i: int,
    m: Matched,
    env: Env,
    spent: Spent,
    found: Seq<Matched>,
)
    ensures
        ({
            let x = #[trigger] walk::anchored_from(pattern, anchors, i, m, env, spent, found);
            &&& x.spent.budget.polled >= spent.budget.polled
            &&& !(i < 0 || i >= anchors.len()) ==> x.spent.budget.polled >= walk::node_fits(
                anchors[i],
                pattern.start,
                m.row,
                env,
                spent,
            ).spent.budget.polled
            &&& !(i < 0 || i >= anchors.len()) ==> ({
                let t = walk::node_fits(anchors[i], pattern.start, m.row, env, spent);
                let next = Matched {
                    row: walk::bound_to(m.row, pattern.start.var, ValueView::Node(anchors[i])),
                    used: m.used,
                };
                let path = PathValueView { nodes: seq![anchors[i]], rels: seq![] };
                t.result == Ok::<bool, ExecErrorView>(true)
                    ==> x.spent.budget.polled
                        >= walk::walked(
                            pattern,
                            0,
                            anchors[i],
                            next,
                            path,
                            env,
                            t.spent,
                            found,
                        ).spent.budget.polled
            })
        }),
{
    run_laws::lemma_anchored(pattern, anchors, i, m, env, spent, found);
}

pub(crate) broadcast proof fn polls_walk_continued_from(
    pattern: BoundPathPatternView,
    states: Seq<Matched>,
    i: int,
    env: Env,
    spent: Spent,
    found: Seq<Matched>,
)
    ensures
        ({
            let x = #[trigger] walk::continued_from(pattern, states, i, env, spent, found);
            &&& x.spent.budget.polled >= spent.budget.polled
            &&& !(i < 0 || i >= states.len()) ==> x.spent.budget.polled >= walk::anchored_from(
                pattern,
                walk::anchors_of(pattern.start, states[i].row, env.graph),
                0,
                states[i],
                env,
                spent,
                found,
            ).spent.budget.polled
        }),
{
    run_laws::lemma_continued(pattern, states, i, env, spent, found);
}

pub(crate) broadcast proof fn polls_walk_patterns_from(
    patterns: Seq<BoundPathPatternView>,
    k: int,
    states: Seq<Matched>,
    env: Env,
    spent: Spent,
)
    ensures
        ({
            let x = #[trigger] walk::patterns_from(patterns, k, states, env, spent);
            &&& x.spent.budget.polled >= spent.budget.polled
            &&& !(k < 0 || k >= patterns.len()) ==> x.spent.budget.polled >= walk::continued_from(
                patterns[k],
                states,
                0,
                env,
                spent,
                seq![],
            ).spent.budget.polled
        }),
{
    run_laws::lemma_patterns(patterns, k, states, env, spent);
}

pub(crate) broadcast proof fn polls_walk_kept_from(
    states: Seq<Matched>,
    i: int,
    predicate: Option<BoundExprView>,
    env: Env,
    spent: Spent,
    kept: Seq<Map<u32, ValueView>>,
)
    ensures
        ({
            let x = #[trigger] walk::kept_from(states, i, predicate, env, spent, kept);
            &&& x.spent.budget.polled >= spent.budget.polled
            &&& !(i < 0 || i >= states.len()) ==> x.spent.budget.polled >= walk::passes(
                predicate,
                states[i].row,
                env,
                spent,
            ).spent.budget.polled
        }),
{
    run_laws::lemma_kept(states, i, predicate, env, spent, kept);
}

pub(crate) broadcast proof fn polls_walk_appended_from(
    rows: Seq<Map<u32, ValueView>>,
    j: int,
    out: Seq<Map<u32, ValueView>>,
    spent: Spent,
)
    ensures
        ({
            let x = #[trigger] walk::appended_from(rows, j, out, spent);
            &&& x.spent.budget.polled >= spent.budget.polled
            &&& !(
                j < 0 || j >= rows.len()
            ) ==> x.spent.budget.polled >= spent.budget.row(out.len()).budget.polled
        }),
{
    run_laws::lemma_appended(rows, j, out, spent);
}

pub(crate) broadcast proof fn polls_walk_row_matches(
    row: Map<u32, ValueView>,
    optional: bool,
    patterns: Seq<BoundPathPatternView>,
    predicate: Option<BoundExprView>,
    env: Env,
    spent: Spent,
)
    ensures
        (
            #[trigger] walk::row_matches(row, optional, patterns, predicate, env, spent)
        ).spent.budget.polled >= spent.budget.polled,
{
    run_laws::lemma_row_matches(row, optional, patterns, predicate, env, spent);
}

pub(crate) broadcast proof fn polls_walk_matched_from(
    rows: Seq<Map<u32, ValueView>>,
    i: int,
    optional: bool,
    patterns: Seq<BoundPathPatternView>,
    predicate: Option<BoundExprView>,
    env: Env,
    spent: Spent,
    out: Seq<Map<u32, ValueView>>,
)
    ensures
        ({
            let x = #[trigger] walk::matched_from(
                rows,
                i,
                optional,
                patterns,
                predicate,
                env,
                spent,
                out,
            );
            &&& x.spent.budget.polled >= spent.budget.polled
            &&& !(i < 0 || i >= rows.len()) ==> ({
                let r = walk::row_matches(rows[i], optional, patterns, predicate, env, spent);
                &&& x.spent.budget.polled >= r.spent.budget.polled
                &&& r.result matches Ok(found)
                        ==> x.spent.budget.polled
                            >= walk::appended_from(found, 0, out, r.spent).spent.budget.polled
            })
        }),
{
    run_laws::lemma_matched(rows, i, optional, patterns, predicate, env, spent, out);
}

pub(crate) broadcast proof fn polls_semantics_value_of(
    e: BoundExprView,
    row: Map<u32, ValueView>,
    env: Env,
    spent: Spent,
)
    ensures
        (
            #[trigger] semantics::value_of(e, row, env, spent)
        ).spent.budget.polled >= spent.budget.polled,
{
    run_laws::lemma_value(e, row, env, spent);
}

pub(crate) broadcast proof fn polls_feed_row_unwound(
    row: Map<u32, ValueView>,
    expr: BoundExprView,
    alias: VarId,
    span: Span,
    env: Env,
    spent: Spent,
)
    ensures
        (
            #[trigger] feed::row_unwound(row, expr, alias, span, env, spent)
        ).spent.budget.polled >= spent.budget.polled,
{
    run_laws::lemma_row_unwound(row, expr, alias, span, env, spent);
}

pub(crate) broadcast proof fn polls_feed_unwound_from(
    rows: Seq<Map<u32, ValueView>>,
    i: int,
    expr: BoundExprView,
    alias: VarId,
    span: Span,
    env: Env,
    spent: Spent,
    out: Seq<Map<u32, ValueView>>,
)
    ensures
        ({
            let x = #[trigger] feed::unwound_from(rows, i, expr, alias, span, env, spent, out);
            &&& x.spent.budget.polled >= spent.budget.polled
            &&& !(i < 0 || i >= rows.len()) ==> ({
                let r = feed::row_unwound(rows[i], expr, alias, span, env, spent);
                &&& x.spent.budget.polled >= r.spent.budget.polled
                &&& r.result matches Ok(found)
                        ==> x.spent.budget.polled
                            >= walk::appended_from(found, 0, out, r.spent).spent.budget.polled
            })
        }),
{
    run_laws::lemma_unwound(rows, i, expr, alias, span, env, spent, out);
}

pub(crate) broadcast proof fn polls_feed_row_called(
    row: Map<u32, ValueView>,
    procedure: ProcedureDefView,
    args: Seq<BoundExprView>,
    yields: Seq<(Seq<char>, VarId)>,
    predicate: Option<BoundExprView>,
    span: Span,
    outcome: Outcome,
    env: Env,
    spent: Spent,
)
    ensures
        (
            #[trigger] feed::row_called(row, procedure, args, yields, predicate, span, outcome, env, spent)
        ).spent.budget.polled >= spent.budget.polled,
{
    run_laws::lemma_row_called(row, procedure, args, yields, predicate, span, outcome, env, spent);
}

pub(crate) broadcast proof fn polls_feed_called_from(
    rows: Seq<Map<u32, ValueView>>,
    i: int,
    procedure: ProcedureDefView,
    args: Seq<BoundExprView>,
    yields: Seq<(Seq<char>, VarId)>,
    predicate: Option<BoundExprView>,
    span: Span,
    outcome: Outcome,
    env: Env,
    spent: Spent,
    out: Seq<Map<u32, ValueView>>,
)
    ensures
        ({
            let x = #[trigger] feed::called_from(
                rows,
                i,
                procedure,
                args,
                yields,
                predicate,
                span,
                outcome,
                env,
                spent,
                out,
            );
            &&& x.spent.budget.polled >= spent.budget.polled
            &&& !(i < 0 || i >= rows.len()) ==> ({
                let r = feed::row_called(
                    rows[i],
                    procedure,
                    args,
                    yields,
                    predicate,
                    span,
                    outcome,
                    env,
                    spent,
                );
                &&& x.spent.budget.polled >= r.spent.budget.polled
                &&& r.result matches Ok(found)
                        ==> x.spent.budget.polled
                            >= walk::appended_from(found, 0, out, r.spent).spent.budget.polled
            })
        }),
{
    run_laws::lemma_called(
        rows,
        i,
        procedure,
        args,
        yields,
        predicate,
        span,
        outcome,
        env,
        spent,
        out,
    );
}

pub(crate) broadcast proof fn polls_create_properties_of(
    properties: Option<BoundExprView>,
    row: Map<u32, ValueView>,
    env: Env,
    span: Span,
    spent: Spent,
)
    ensures
        (
            #[trigger] create::properties_of(properties, row, env, span, spent)
        ).spent.budget.polled >= spent.budget.polled,
{
    run_laws::lemma_properties_of(properties, row, env, span, spent);
}

pub(crate) broadcast proof fn polls_create_node_made(
    p: BoundNodePatternView,
    row: Map<u32, ValueView>,
    o: OverlayView,
    given: Given,
    spent: Spent,
)
    ensures
        (
            #[trigger] create::node_made(p, row, o, given, spent)
        ).spent.budget.polled >= spent.budget.polled,
{
    run_laws::lemma_node_made(p, row, o, given, spent);
}

pub(crate) broadcast proof fn polls_create_steps_made(
    steps: Seq<(BoundRelPatternView, BoundNodePatternView)>,
    at: int,
    from: NodeValueView,
    path: PathValueView,
    row: Map<u32, ValueView>,
    o: OverlayView,
    given: Given,
    spent: Spent,
)
    ensures
        ({
            let x = #[trigger] create::steps_made(steps, at, from, path, row, o, given, spent);
            &&& x.spent.budget.polled >= spent.budget.polled
            &&& !(at < 0 || at >= steps.len()) ==> ({
                let n = create::node_made(steps[at].1, row, o, given, spent);
                &&& x.spent.budget.polled >= n.spent.budget.polled
                &&& n.result matches Ok(t)
                        ==> x.spent.budget.polled
                            >= create::properties_of(
                                steps[at].0.properties,
                                t.1,
                                given.env(t.2.graph()),
                                steps[at].0.span,
                                n.spent,
                            ).spent.budget.polled
            })
        }),
{
    run_laws::lemma_steps_made(steps, at, from, path, row, o, given, spent);
}

pub(crate) broadcast proof fn polls_create_path_made(
    p: BoundPathPatternView,
    row: Map<u32, ValueView>,
    o: OverlayView,
    given: Given,
    spent: Spent,
)
    ensures
        (
            #[trigger] create::path_made(p, row, o, given, spent)
        ).spent.budget.polled >= spent.budget.polled,
{
    run_laws::lemma_path_made(p, row, o, given, spent);
}

pub(crate) broadcast proof fn polls_create_paths_made(
    patterns: Seq<BoundPathPatternView>,
    k: int,
    row: Map<u32, ValueView>,
    o: OverlayView,
    given: Given,
    spent: Spent,
)
    ensures
        ({
            let x = #[trigger] create::paths_made(patterns, k, row, o, given, spent);
            &&& x.spent.budget.polled >= spent.budget.polled
            &&& !(k < 0 || k >= patterns.len()) ==> x.spent.budget.polled >= create::path_made(
                patterns[k],
                row,
                o,
                given,
                spent,
            ).spent.budget.polled
        }),
{
    run_laws::lemma_paths_made(patterns, k, row, o, given, spent);
}

pub(crate) broadcast proof fn polls_create_created_from(
    rows: Seq<Map<u32, ValueView>>,
    i: int,
    patterns: Seq<BoundPathPatternView>,
    o: OverlayView,
    given: Given,
    spent: Spent,
    out: Seq<Map<u32, ValueView>>,
)
    ensures
        ({
            let x = #[trigger] create::created_from(rows, i, patterns, o, given, spent, out);
            &&& x.spent.budget.polled >= spent.budget.polled
            &&& !(i < 0 || i >= rows.len()) ==> x.spent.budget.polled >= create::paths_made(
                patterns,
                0,
                rows[i],
                o,
                given,
                spent,
            ).spent.budget.polled
        }),
{
    run_laws::lemma_created(rows, i, patterns, o, given, spent, out);
}

pub(crate) broadcast proof fn polls_change_item_set(
    item: BoundSetItemView,
    row: Map<u32, ValueView>,
    o: OverlayView,
    given: Given,
    spent: Spent,
)
    ensures
        (
            #[trigger] change::item_set(item, row, o, given, spent)
        ).spent.budget.polled >= spent.budget.polled,
{
    run_laws::lemma_item_set(item, row, o, given, spent);
}

pub(crate) broadcast proof fn polls_change_items_set(
    items: Seq<BoundSetItemView>,
    k: int,
    row: Map<u32, ValueView>,
    o: OverlayView,
    given: Given,
    spent: Spent,
)
    ensures
        ({
            let x = #[trigger] change::items_set(items, k, row, o, given, spent);
            &&& x.spent.budget.polled >= spent.budget.polled
            &&& !(k < 0 || k >= items.len()) ==> x.spent.budget.polled >= change::item_set(
                items[k],
                refresh::refreshed_row(row, o),
                o,
                given,
                spent,
            ).spent.budget.polled
        }),
{
    run_laws::lemma_items_set(items, k, row, o, given, spent);
}

pub(crate) broadcast proof fn polls_change_set_from(
    rows: Seq<Map<u32, ValueView>>,
    i: int,
    items: Seq<BoundSetItemView>,
    o: OverlayView,
    given: Given,
    spent: Spent,
    out: Seq<Map<u32, ValueView>>,
)
    ensures
        ({
            let x = #[trigger] change::set_from(rows, i, items, o, given, spent, out);
            &&& x.spent.budget.polled >= spent.budget.polled
            &&& !(i < 0 || i >= rows.len()) ==> x.spent.budget.polled >= change::items_set(
                items,
                0,
                rows[i],
                o,
                given,
                spent,
            ).spent.budget.polled
        }),
{
    run_laws::lemma_set(rows, i, items, o, given, spent, out);
}

pub(crate) broadcast proof fn polls_delete_targets_marked(
    targets: Seq<BoundExprView>,
    k: int,
    row: Map<u32, ValueView>,
    env: Env,
    spent: Spent,
    d: Doomed,
)
    ensures
        ({
            let x = #[trigger] delete::targets_marked(targets, k, row, env, spent, d);
            &&& x.spent.budget.polled >= spent.budget.polled
            &&& !(k < 0 || k >= targets.len()) ==> x.spent.budget.polled >= semantics::value_of(
                targets[k],
                row,
                env,
                spent,
            ).spent.budget.polled
        }),
{
    run_laws::lemma_targets(targets, k, row, env, spent, d);
}

pub(crate) broadcast proof fn polls_delete_rows_marked(
    targets: Seq<BoundExprView>,
    rows: Seq<Map<u32, ValueView>>,
    i: int,
    env: Env,
    spent: Spent,
    d: Doomed,
)
    ensures
        ({
            let x = #[trigger] delete::rows_marked(targets, rows, i, env, spent, d);
            &&& x.spent.budget.polled >= spent.budget.polled
            &&& !(i < 0 || i >= rows.len()) ==> x.spent.budget.polled >= delete::targets_marked(
                targets,
                0,
                rows[i],
                env,
                spent,
                d,
            ).spent.budget.polled
        }),
{
    run_laws::lemma_marked(targets, rows, i, env, spent, d);
}

pub(crate) broadcast proof fn polls_delete_deleted(
    detach: bool,
    targets: Seq<BoundExprView>,
    span: Span,
    rows: Seq<Map<u32, ValueView>>,
    o: OverlayView,
    given: Given,
    spent: Spent,
)
    ensures
        (
            #[trigger] delete::deleted(detach, targets, span, rows, o, given, spent)
        ).spent.budget.polled >= spent.budget.polled,
{
    run_laws::lemma_deleted(detach, targets, span, rows, o, given, spent);
}

pub(crate) broadcast proof fn polls_merge_matches_set(
    states: Seq<Matched>,
    i: int,
    items: Seq<BoundSetItemView>,
    o: OverlayView,
    given: Given,
    spent: Spent,
    out: Seq<Map<u32, ValueView>>,
)
    ensures
        ({
            let x = #[trigger] merge::matches_set(states, i, items, o, given, spent, out);
            &&& x.spent.budget.polled >= spent.budget.polled
            &&& !(i < 0 || i >= states.len()) ==> ({
                let m = change::items_set(items, 0, states[i].row, o, given, spent);
                &&& x.spent.budget.polled >= m.spent.budget.polled
                &&& m.result is Ok
                        ==> x.spent.budget.polled >= m.spent.budget.row(out.len()).budget.polled
            })
        }),
{
    run_laws::lemma_matches_set(states, i, items, o, given, spent, out);
}

pub(crate) broadcast proof fn polls_merge_row_merged(
    row: Map<u32, ValueView>,
    pattern: BoundPathPatternView,
    on_create: Seq<BoundSetItemView>,
    on_match: Seq<BoundSetItemView>,
    o: OverlayView,
    given: Given,
    spent: Spent,
    out: Seq<Map<u32, ValueView>>,
)
    ensures
        (
            #[trigger] merge::row_merged(row, pattern, on_create, on_match, o, given, spent, out)
        ).spent.budget.polled >= spent.budget.polled,
{
    run_laws::lemma_row_merged(row, pattern, on_create, on_match, o, given, spent, out);
}

pub(crate) broadcast proof fn polls_merge_merged_from(
    rows: Seq<Map<u32, ValueView>>,
    i: int,
    pattern: BoundPathPatternView,
    on_create: Seq<BoundSetItemView>,
    on_match: Seq<BoundSetItemView>,
    o: OverlayView,
    given: Given,
    spent: Spent,
    out: Seq<Map<u32, ValueView>>,
)
    ensures
        ({
            let x = #[trigger] merge::merged_from(
                rows,
                i,
                pattern,
                on_create,
                on_match,
                o,
                given,
                spent,
                out,
            );
            &&& x.spent.budget.polled >= spent.budget.polled
            &&& !(i < 0 || i >= rows.len()) ==> x.spent.budget.polled >= merge::row_merged(
                rows[i],
                pattern,
                on_create,
                on_match,
                o,
                given,
                spent,
                out,
            ).spent.budget.polled
        }),
{
    run_laws::lemma_merged(rows, i, pattern, on_create, on_match, o, given, spent, out);
}

pub(crate) broadcast proof fn polls_run_clause_run(
    clause: BoundClauseView,
    last: bool,
    s: Progress,
    given: Given,
    world: World,
    spent: Spent,
)
    ensures
        (
            #[trigger] run::clause_run(clause, last, s, given, world, spent)
        ).spent.budget.polled >= spent.budget.polled,
{
    run_laws::lemma_clause(clause, last, s, given, world, spent);
}

pub(crate) broadcast proof fn polls_run_ran_from(
    clauses: Seq<BoundClauseView>,
    k: int,
    s: Progress,
    given: Given,
    world: World,
    spent: Spent,
)
    ensures
        ({
            let x = #[trigger] run::ran_from(clauses, k, s, given, world, spent);
            &&& x.spent.budget.polled >= spent.budget.polled
            &&& !(k < 0 || k >= clauses.len()) ==> x.spent.budget.polled >= run::clause_run(
                clauses[k],
                k == clauses.len() - 1,
                s,
                given,
                world,
                spent,
            ).spent.budget.polled
        }),
{
    run_laws::lemma_ran(clauses, k, s, given, world, spent);
}

/// That no work takes a reading of the clock back.
pub(crate) broadcast group group_polls {
    polls_arith_binary_of,
    polls_functions_applied,
    polls_semantics_evaluated,
    polls_semantics_arguments_from,
    polls_semantics_items_from,
    polls_semantics_entries_from,
    polls_semantics_case_from,
    polls_semantics_comprehended_from,
    polls_semantics_comprehended_element,
    polls_semantics_quantified_from,
    polls_semantics_reduced_from,
    polls_projection_model_gathered_from,
    polls_projection_model_accumulated,
    polls_projection_model_slots_from,
    polls_projection_model_evaluated_over,
    polls_projection_model_key_from,
    polls_projection_model_groups_from,
    polls_projection_model_projected_items_from,
    polls_projection_model_grouped_items_from,
    polls_projection_model_plain_rows_from,
    polls_projection_model_group_rows_from,
    polls_projection_model_merged_rows,
    polls_walk_passes,
    polls_projection_model_filtered_from,
    polls_projection_model_sort_key_from,
    polls_projection_model_keyed_from,
    polls_projection_model_ordered_rows,
    polls_projection_model_page_bound,
    polls_projection_model_paged_rows,
    polls_projection_model_projected,
    polls_walk_properties_fit,
    polls_walk_node_fits,
    polls_walk_way_fits,
    polls_walk_walked,
    polls_walk_walked_over,
    polls_walk_hopped,
    polls_walk_hopped_over,
    polls_walk_anchored_from,
    polls_walk_continued_from,
    polls_walk_patterns_from,
    polls_walk_kept_from,
    polls_walk_appended_from,
    polls_walk_row_matches,
    polls_walk_matched_from,
    polls_semantics_value_of,
    polls_feed_row_unwound,
    polls_feed_unwound_from,
    polls_feed_row_called,
    polls_feed_called_from,
    polls_create_properties_of,
    polls_create_node_made,
    polls_create_steps_made,
    polls_create_path_made,
    polls_create_paths_made,
    polls_create_created_from,
    polls_change_item_set,
    polls_change_items_set,
    polls_change_set_from,
    polls_delete_targets_marked,
    polls_delete_rows_marked,
    polls_delete_deleted,
    polls_merge_matches_set,
    polls_merge_row_merged,
    polls_merge_merged_from,
    polls_run_clause_run,
    polls_run_ran_from,
}

} // verus!
