//! What projecting does to the budget, and how many rows it makes.

use vstd::prelude::*;

use crate::bind::bound::{BoundExprView, BoundProjectionItemView, BoundProjectionView};
use crate::exec::budget_laws;
use crate::exec::projection_laws;
use crate::exec::projection_model::{self, Group, Keyed};
use crate::exec::semantics::{self, Env, Spent};
use crate::exec::value::ValueView;
use crate::exec::walk;

verus! {

pub(crate) proof fn lemma_gathered(
    arg: Option<Box<BoundExprView>>,
    group: Seq<Map<u32, ValueView>>,
    i: int,
    env: Env,
    spent: Spent,
    before: Seq<ValueView>,
)
    ensures
        ({
            let x = projection_model::gathered_from(arg, group, i, env, spent, before);
            &&& budget_laws::follows(spent.budget, x.spent.budget, x.result is Ok)
            &&& !(i < 0 || i >= group.len()) && arg is Some
                ==> x.spent.budget.polled
                    >= semantics::evaluated(*arg->0, group[i], env, spent).spent.budget.polled
        }),
    decreases group.len() - i,
{
    reveal(projection_model::gathered_from);
    if !(i < 0 || i >= group.len()) {
        match arg {
            None => {
                lemma_gathered(arg, group, i + 1, env, spent, before.push(ValueView::Int(1)));
            },
            Some(e) => {
                let x = semantics::evaluated(*e, group[i], env, spent);
                budget_laws::evaluation_only_charges(*e, group[i], env, spent);
                if let Ok(v) = x.result {
                    let next = if v is Null {
                        before
                    } else {
                        before.push(v)
                    };
                    lemma_gathered(arg, group, i + 1, env, x.spent, next);
                }
            },
        }
    }
}

pub(crate) proof fn lemma_accumulated(
    e: BoundExprView,
    group: Seq<Map<u32, ValueView>>,
    env: Env,
    spent: Spent,
)
    ensures
        ({
            let x = projection_model::accumulated(e, group, env, spent);
            budget_laws::follows(spent.budget, x.spent.budget, x.result is Ok)
        }),
{
    reveal(projection_model::accumulated);
    if let BoundExprView::Aggregate { def, distinct, arg, span } = e {
        lemma_gathered(arg, group, 0, env, spent, seq![]);
    }
}

pub(crate) proof fn lemma_slots(
    aggregates: Seq<BoundExprView>,
    i: int,
    group: Seq<Map<u32, ValueView>>,
    env: Env,
    spent: Spent,
    before: Seq<ValueView>,
)
    ensures
        ({
            let x = projection_model::slots_from(aggregates, i, group, env, spent, before);
            &&& budget_laws::follows(spent.budget, x.spent.budget, x.result is Ok)
            &&& !(i < 0 || i >= aggregates.len())
                ==> x.spent.budget.polled
                    >= projection_model::accumulated(
                        aggregates[i],
                        group,
                        env,
                        spent,
                    ).spent.budget.polled
        }),
    decreases aggregates.len() - i,
{
    reveal(projection_model::slots_from);
    if !(i < 0 || i >= aggregates.len()) {
        let x = projection_model::accumulated(aggregates[i], group, env, spent);
        lemma_accumulated(aggregates[i], group, env, spent);
        if let Ok(v) = x.result {
            lemma_slots(aggregates, i + 1, group, env, x.spent, before.push(v));
        }
    }
}

pub(crate) proof fn lemma_over(
    e: BoundExprView,
    group: Seq<Map<u32, ValueView>>,
    representative: Map<u32, ValueView>,
    env: Env,
    spent: Spent,
)
    ensures
        ({
            let x = projection_model::evaluated_over(e, group, representative, env, spent);
            budget_laws::follows(spent.budget, x.spent.budget, x.result is Ok)
        }),
{
    reveal(projection_model::evaluated_over);
    let inside = projection_model::aggregates_in(e);
    let s = projection_model::slots_from(inside, 0, group, env, spent, seq![]);
    lemma_slots(inside, 0, group, env, spent, seq![]);
    if let Ok(slots) = s.result {
        budget_laws::evaluation_only_charges(
            e,
            representative,
            Env { slots: Some(slots), ..env },
            Spent { cursor: 0, ..s.spent },
        );
    }
}

pub(crate) proof fn lemma_key(
    items: Seq<BoundProjectionItemView>,
    indices: Seq<usize>,
    i: int,
    row: Map<u32, ValueView>,
    env: Env,
    spent: Spent,
    before: Seq<ValueView>,
)
    ensures
        ({
            let x = projection_model::key_from(items, indices, i, row, env, spent, before);
            &&& budget_laws::follows(spent.budget, x.spent.budget, x.result is Ok)
            &&& !(i < 0 || i >= indices.len()) ==> x.spent.budget.polled >= semantics::evaluated(
                items[indices[i] as int].expr,
                row,
                env,
                spent,
            ).spent.budget.polled
        }),
    decreases indices.len() - i,
{
    reveal(projection_model::key_from);
    if !(i < 0 || i >= indices.len()) {
        let x = semantics::evaluated(items[indices[i] as int].expr, row, env, spent);
        budget_laws::evaluation_only_charges(items[indices[i] as int].expr, row, env, spent);
        if let Ok(v) = x.result {
            lemma_key(items, indices, i + 1, row, env, x.spent, before.push(v));
        }
    }
}

pub(crate) proof fn lemma_groups(
    items: Seq<BoundProjectionItemView>,
    indices: Seq<usize>,
    rows: Seq<Map<u32, ValueView>>,
    i: int,
    env: Env,
    spent: Spent,
    before: Seq<Group>,
)
    ensures
        ({
            let x = projection_model::groups_from(items, indices, rows, i, env, spent, before);
            &&& budget_laws::follows(spent.budget, x.spent.budget, x.result is Ok)
            &&& !(i < 0 || i >= rows.len()) ==> x.spent.budget.polled >= projection_model::key_from(
                items,
                indices,
                0,
                rows[i],
                env,
                spent,
                seq![],
            ).spent.budget.polled
        }),
    decreases rows.len() - i,
{
    reveal(projection_model::groups_from);
    if !(i < 0 || i >= rows.len()) {
        let x = projection_model::key_from(items, indices, 0, rows[i], env, spent, seq![]);
        lemma_key(items, indices, 0, rows[i], env, spent, seq![]);
        if let Ok(key) = x.result {
            lemma_groups(
                items,
                indices,
                rows,
                i + 1,
                env,
                x.spent,
                projection_model::with_row(before, key, rows[i], 0),
            );
        }
    }
}

pub(crate) proof fn lemma_projected_items(
    items: Seq<BoundProjectionItemView>,
    i: int,
    row: Map<u32, ValueView>,
    env: Env,
    spent: Spent,
    out: Map<u32, ValueView>,
)
    ensures
        ({
            let x = projection_model::projected_items_from(items, i, row, env, spent, out);
            &&& budget_laws::follows(spent.budget, x.spent.budget, x.result is Ok)
            &&& !(i < 0 || i >= items.len()) ==> x.spent.budget.polled >= semantics::evaluated(
                items[i].expr,
                row,
                env,
                spent,
            ).spent.budget.polled
        }),
    decreases items.len() - i,
{
    reveal(projection_model::projected_items_from);
    if !(i < 0 || i >= items.len()) {
        let x = semantics::evaluated(items[i].expr, row, env, spent);
        budget_laws::evaluation_only_charges(items[i].expr, row, env, spent);
        if let Ok(v) = x.result {
            lemma_projected_items(items, i + 1, row, env, x.spent, out.insert(items[i].var.0, v));
        }
    }
}

pub(crate) proof fn lemma_grouped_items(
    items: Seq<BoundProjectionItemView>,
    i: int,
    group: Seq<Map<u32, ValueView>>,
    representative: Map<u32, ValueView>,
    env: Env,
    spent: Spent,
    out: Map<u32, ValueView>,
)
    ensures
        ({
            let x = projection_model::grouped_items_from(
                items,
                i,
                group,
                representative,
                env,
                spent,
                out,
            );
            &&& budget_laws::follows(spent.budget, x.spent.budget, x.result is Ok)
            &&& !(i < 0 || i >= items.len())
                ==> x.spent.budget.polled
                    >= projection_model::evaluated_over(
                        items[i].expr,
                        group,
                        representative,
                        env,
                        spent,
                    ).spent.budget.polled
        }),
    decreases items.len() - i,
{
    reveal(projection_model::grouped_items_from);
    if !(i < 0 || i >= items.len()) {
        let x = projection_model::evaluated_over(items[i].expr, group, representative, env, spent);
        lemma_over(items[i].expr, group, representative, env, spent);
        if let Ok(v) = x.result {
            lemma_grouped_items(
                items,
                i + 1,
                group,
                representative,
                env,
                x.spent,
                out.insert(items[i].var.0, v),
            );
        }
    }
}

pub(crate) proof fn lemma_plain_rows(
    items: Seq<BoundProjectionItemView>,
    rows: Seq<Map<u32, ValueView>>,
    i: int,
    env: Env,
    spent: Spent,
    out: Seq<Map<u32, ValueView>>,
)
    ensures
        ({
            let x = projection_model::plain_rows_from(items, rows, i, env, spent, out);
            &&& budget_laws::follows(spent.budget, x.spent.budget, x.result is Ok)
            &&& out.len() <= spent.budget.limits.max_result_rows ==> (
                x.result matches Ok(all) ==> all.len() <= spent.budget.limits.max_result_rows
            )
            &&& !(i < 0 || i >= rows.len()) ==> ({
                let made = projection_model::projected_items_from(
                    items,
                    0,
                    rows[i],
                    env,
                    spent,
                    rows[i],
                );
                &&& x.spent.budget.polled >= made.spent.budget.polled
                &&& x.spent.budget.polled >= projection_model::pushed(made, out).spent.budget.polled
            })
        }),
    decreases rows.len() - i,
{
    reveal(projection_model::plain_rows_from);
    if !(i < 0 || i >= rows.len()) {
        let made = projection_model::projected_items_from(items, 0, rows[i], env, spent, rows[i]);
        lemma_projected_items(items, 0, rows[i], env, spent, rows[i]);
        budget_laws::charges_follow(made.spent.budget, 0, out.len());
        let p = projection_model::pushed(made, out);
        if let Ok(all) = p.result {
            lemma_plain_rows(items, rows, i + 1, env, p.spent, all);
        }
    }
}

pub(crate) proof fn lemma_group_rows(
    items: Seq<BoundProjectionItemView>,
    groups: Seq<Group>,
    i: int,
    env: Env,
    spent: Spent,
    out: Seq<Map<u32, ValueView>>,
)
    ensures
        ({
            let x = projection_model::group_rows_from(items, groups, i, env, spent, out);
            &&& budget_laws::follows(spent.budget, x.spent.budget, x.result is Ok)
            &&& out.len() <= spent.budget.limits.max_result_rows ==> (
                x.result matches Ok(all) ==> all.len() <= spent.budget.limits.max_result_rows
            )
            &&& !(i < 0 || i >= groups.len()) ==> ({
                let first = projection_model::representative_of(groups[i]);
                let made = projection_model::grouped_items_from(
                    items,
                    0,
                    groups[i].rows,
                    first,
                    env,
                    spent,
                    first,
                );
                &&& x.spent.budget.polled >= made.spent.budget.polled
                &&& x.spent.budget.polled >= projection_model::pushed(made, out).spent.budget.polled
            })
        }),
    decreases groups.len() - i,
{
    reveal(projection_model::group_rows_from);
    if !(i < 0 || i >= groups.len()) {
        let first = projection_model::representative_of(groups[i]);
        let made = projection_model::grouped_items_from(
            items,
            0,
            groups[i].rows,
            first,
            env,
            spent,
            first,
        );
        lemma_grouped_items(items, 0, groups[i].rows, first, env, spent, first);
        budget_laws::charges_follow(made.spent.budget, 0, out.len());
        let p = projection_model::pushed(made, out);
        if let Ok(all) = p.result {
            lemma_group_rows(items, groups, i + 1, env, p.spent, all);
        }
    }
}

pub(crate) proof fn lemma_merged(
    p: BoundProjectionView,
    rows: Seq<Map<u32, ValueView>>,
    env: Env,
    spent: Spent,
)
    ensures
        ({
            let x = projection_model::merged_rows(p, rows, env, spent);
            budget_laws::follows(spent.budget, x.spent.budget, x.result is Ok) && (x.result matches Ok(all)
                ==> all.len() <= spent.budget.limits.max_result_rows)
        }),
{
    reveal(projection_model::merged_rows);
    if p.aggregating {
        let g = projection_model::groups_from(
            p.items,
            p.grouping_items,
            rows,
            0,
            env,
            spent,
            seq![],
        );
        lemma_groups(p.items, p.grouping_items, rows, 0, env, spent, seq![]);
        if let Ok(groups) = g.result {
            lemma_group_rows(
                p.items,
                projection_model::or_one_group(groups, p.grouping_items),
                0,
                env,
                g.spent,
                seq![],
            );
        }
    } else {
        lemma_plain_rows(p.items, rows, 0, env, spent, seq![]);
    }
}

pub(crate) proof fn lemma_passes(
    predicate: Option<BoundExprView>,
    row: Map<u32, ValueView>,
    env: Env,
    spent: Spent,
)
    ensures
        ({
            let x = walk::passes(predicate, row, env, spent);
            budget_laws::follows(spent.budget, x.spent.budget, x.result is Ok)
        }),
{
    reveal(walk::passes);
    if let Some(e) = predicate {
        budget_laws::evaluation_only_charges(e, row, env, spent);
    }
}

pub(crate) proof fn lemma_filtered(
    rows: Seq<Map<u32, ValueView>>,
    i: int,
    predicate: Option<BoundExprView>,
    env: Env,
    spent: Spent,
    kept: Seq<Map<u32, ValueView>>,
)
    ensures
        ({
            let x = projection_model::filtered_from(rows, i, predicate, env, spent, kept);
            &&& budget_laws::follows(spent.budget, x.spent.budget, x.result is Ok)
            &&& 0 <= i <= rows.len() ==> (
                x.result matches Ok(all) ==> all.len() <= kept.len() + rows.len() - i
            )
            &&& !(i < 0 || i >= rows.len()) ==> x.spent.budget.polled >= walk::passes(
                predicate,
                rows[i],
                env,
                spent,
            ).spent.budget.polled
        }),
    decreases rows.len() - i,
{
    reveal(projection_model::filtered_from);
    if 0 <= i < rows.len() {
        let t = walk::passes(predicate, rows[i], env, spent);
        lemma_passes(predicate, rows[i], env, spent);
        if let Ok(b) = t.result {
            let next = if b {
                kept.push(rows[i])
            } else {
                kept
            };
            lemma_filtered(rows, i + 1, predicate, env, t.spent, next);
        }
    }
}

pub(crate) proof fn lemma_distinct(
    items: Seq<BoundProjectionItemView>,
    rows: Seq<Map<u32, ValueView>>,
    n: nat,
)
    ensures
        projection_model::distinct_rows(items, rows, n).len() <= n,
    decreases n,
{
    if !(n == 0 || n > rows.len()) {
        lemma_distinct(items, rows, (n - 1) as nat);
    }
}

pub(crate) proof fn lemma_sorted(rows: Seq<Keyed>, descending: Seq<bool>, n: nat)
    requires
        n <= rows.len(),
    ensures
        projection_model::sorted_rows(rows, descending, n).len() == n,
{
    projection_laws::sorting_keeps_every_row(rows, descending, n);
    broadcast use vstd::seq_lib::group_to_multiset_ensures;
    assert(rows.take(n as int).len() == n);
    assert(projection_model::sorted_rows(rows, descending, n).to_multiset().len() == n);
}

pub(crate) proof fn lemma_sort_key(
    order_by: Seq<(BoundExprView, bool)>,
    i: int,
    row: Map<u32, ValueView>,
    env: Env,
    spent: Spent,
    before: Seq<ValueView>,
)
    ensures
        ({
            let x = projection_model::sort_key_from(order_by, i, row, env, spent, before);
            &&& budget_laws::follows(spent.budget, x.spent.budget, x.result is Ok)
            &&& !(i < 0 || i >= order_by.len()) ==> x.spent.budget.polled >= semantics::evaluated(
                order_by[i].0,
                row,
                env,
                spent,
            ).spent.budget.polled
        }),
    decreases order_by.len() - i,
{
    reveal(projection_model::sort_key_from);
    if !(i < 0 || i >= order_by.len()) {
        let x = semantics::evaluated(order_by[i].0, row, env, spent);
        budget_laws::evaluation_only_charges(order_by[i].0, row, env, spent);
        if let Ok(v) = x.result {
            lemma_sort_key(order_by, i + 1, row, env, x.spent, before.push(v));
        }
    }
}

pub(crate) proof fn lemma_keyed(
    order_by: Seq<(BoundExprView, bool)>,
    rows: Seq<Map<u32, ValueView>>,
    i: int,
    env: Env,
    spent: Spent,
    before: Seq<Keyed>,
)
    ensures
        ({
            let x = projection_model::keyed_from(order_by, rows, i, env, spent, before);
            &&& budget_laws::follows(spent.budget, x.spent.budget, x.result is Ok)
            &&& 0 <= i <= rows.len() ==> (
                x.result matches Ok(all) ==> all.len() == before.len() + rows.len() - i
            )
            &&& !(i < 0 || i >= rows.len())
                ==> x.spent.budget.polled
                    >= projection_model::sort_key_from(
                        order_by,
                        0,
                        rows[i],
                        env,
                        spent,
                        seq![],
                    ).spent.budget.polled
        }),
    decreases rows.len() - i,
{
    reveal(projection_model::keyed_from);
    if 0 <= i < rows.len() {
        let k = projection_model::sort_key_from(order_by, 0, rows[i], env, spent, seq![]);
        lemma_sort_key(order_by, 0, rows[i], env, spent, seq![]);
        if let Ok(key) = k.result {
            lemma_keyed(
                order_by,
                rows,
                i + 1,
                env,
                k.spent,
                before.push(Keyed { key, row: rows[i] }),
            );
        }
    }
}

pub(crate) proof fn lemma_ordered(
    order_by: Seq<(BoundExprView, bool)>,
    rows: Seq<Map<u32, ValueView>>,
    env: Env,
    spent: Spent,
)
    ensures
        ({
            let x = projection_model::ordered_rows(order_by, rows, env, spent);
            budget_laws::follows(spent.budget, x.spent.budget, x.result is Ok) && (x.result matches Ok(all)
                ==> all.len() == rows.len())
        }),
{
    reveal(projection_model::ordered_rows);
    if order_by.len() > 0 {
        let k = projection_model::keyed_from(order_by, rows, 0, env, spent, seq![]);
        lemma_keyed(order_by, rows, 0, env, spent, seq![]);
        if let Ok(keyed) = k.result {
            lemma_sorted(keyed, projection_model::directions(order_by), keyed.len());
        }
    }
}

pub(crate) proof fn lemma_page_bound(count: Option<BoundExprView>, env: Env, spent: Spent)
    ensures
        ({
            let x = projection_model::page_bound(count, env, spent);
            budget_laws::follows(spent.budget, x.spent.budget, x.result is Ok)
        }),
{
    reveal(projection_model::page_bound);
    if let Some(e) = count {
        budget_laws::evaluation_only_charges(e, Map::empty(), env, spent);
    }
}

pub(crate) proof fn lemma_paged(
    skip: Option<BoundExprView>,
    limit: Option<BoundExprView>,
    rows: Seq<Map<u32, ValueView>>,
    env: Env,
    spent: Spent,
)
    ensures
        ({
            let x = projection_model::paged_rows(skip, limit, rows, env, spent);
            budget_laws::follows(spent.budget, x.spent.budget, x.result is Ok) && (x.result matches Ok(all)
                ==> all.len() <= rows.len())
        }),
{
    reveal(projection_model::paged_rows);
    let s = projection_model::page_bound(skip, env, spent);
    lemma_page_bound(skip, env, spent);
    if s.result is Ok {
        lemma_page_bound(limit, env, s.spent);
    }
}

/// A projection charges the budget and nothing else, stays within the caps where
/// it succeeds, and makes no more rows than the cap on result rows.
pub proof fn projections_stay_within_the_row_cap(
    p: BoundProjectionView,
    is_with: bool,
    rows: Seq<Map<u32, ValueView>>,
    env: Env,
    spent: Spent,
)
    ensures
        ({
            let x = projection_model::projected(p, is_with, rows, env, spent);
            budget_laws::follows(spent.budget, x.spent.budget, x.result is Ok) && (x.result matches Ok(all)
                ==> all.len() <= spent.budget.limits.max_result_rows)
        }),
{
    reveal(projection_model::projected);
    let m = projection_model::merged_rows(p, rows, env, spent);
    lemma_merged(p, rows, env, spent);
    if let Ok(merged) = m.result {
        let f = if is_with {
            projection_model::filtered_from(merged, 0, p.where_clause, env, m.spent, seq![])
        } else {
            m
        };
        if is_with {
            lemma_filtered(merged, 0, p.where_clause, env, m.spent, seq![]);
        }
        if let Ok(kept) = f.result {
            let unique = if p.distinct {
                projection_model::distinct_rows(p.items, kept, kept.len())
            } else {
                kept
            };
            lemma_distinct(p.items, kept, kept.len());
            let o = projection_model::ordered_rows(p.order_by, unique, env, f.spent);
            lemma_ordered(p.order_by, unique, env, f.spent);
            if let Ok(ordered) = o.result {
                lemma_paged(p.skip, p.limit, ordered, env, o.spent);
            }
        }
    }
}

} // verus!
