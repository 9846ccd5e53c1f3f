//! What `WITH` and `RETURN` project: grouping, aggregation, filtering,
//! distinctness, sorting and paging.

use vstd::prelude::*;

use crate::bind::bound::{BoundExprView, BoundProjectionItemView, BoundProjectionView};
use crate::exec::arith;
use crate::exec::compare;
use crate::exec::fault::{ExecErrorView, FloatOp, FloatRequestView};
use crate::exec::float::{self, FloatAnswerView};
use crate::exec::inspect;
use crate::exec::operators;
use crate::exec::render;
use crate::exec::row;
use crate::exec::semantics::{self, Env, Evaluated, EvaluatedAll, Spent};
use crate::exec::value::{self, Order, ValueView};
use crate::exec::walk::{self, Produced};
use crate::span::Span;

verus! {

// --- Aggregates ---------------------------------------------------------------------------------

/// The aggregates in an expression, in the order in which evaluation comes to
/// them, whether it evaluates them or passes over them. Arguments of aggregates hold none.
pub open spec fn aggregates_in(e: BoundExprView) -> Seq<BoundExprView>
    decreases e, 1int, 0int,
{
    match e {
        BoundExprView::Aggregate { .. } => seq![e],
        BoundExprView::Property { base, .. } => aggregates_in(*base),
        BoundExprView::Unary { operand, .. } => aggregates_in(*operand),
        BoundExprView::IsNull { operand, .. } => aggregates_in(*operand),
        BoundExprView::Binary { lhs, rhs, .. } => aggregates_in(*lhs) + aggregates_in(*rhs),
        BoundExprView::Function { args, .. } => aggregates_in_all(args, args.len()),
        BoundExprView::Case { operand, whens, else_expr, .. } => {
            let first = match operand {
                Some(o) => aggregates_in(*o),
                None => seq![],
            };
            let last = match else_expr {
                Some(o) => aggregates_in(*o),
                None => seq![],
            };
            first + aggregates_in_whens(whens, whens.len()) + last
        },
        BoundExprView::ListLiteral { items, .. } => aggregates_in_all(items, items.len()),
        BoundExprView::ListComprehension { list, where_clause, map, .. } => {
            let filter = match where_clause {
                Some(o) => aggregates_in(*o),
                None => seq![],
            };
            let element = match map {
                Some(o) => aggregates_in(*o),
                None => seq![],
            };
            aggregates_in(*list) + filter + element
        },
        BoundExprView::Quantifier { list, predicate, .. } => aggregates_in(*list)
            + aggregates_in(*predicate),
        BoundExprView::Reduce { init, list, expr, .. } => aggregates_in(*list) + aggregates_in(
            *init,
        ) + aggregates_in(*expr),
        BoundExprView::MapLiteral { entries, .. } => aggregates_in_entries(
            entries,
            entries.len(),
        ),
        BoundExprView::Index { base, index, .. } => aggregates_in(*base) + aggregates_in(*index),
        BoundExprView::Slice { base, from, to, .. } => {
            let start = match from {
                Some(o) => aggregates_in(*o),
                None => seq![],
            };
            let end = match to {
                Some(o) => aggregates_in(*o),
                None => seq![],
            };
            aggregates_in(*base) + start + end
        },
        _ => seq![],
    }
}

pub open spec fn aggregates_in_all(items: Seq<BoundExprView>, n: nat) -> Seq<BoundExprView>
    decreases items, 0int, n,
{
    if n == 0 || n > items.len() {
        seq![]
    } else {
        aggregates_in_all(items, (n - 1) as nat) + aggregates_in(items[n - 1])
    }
}

pub open spec fn aggregates_in_whens(
    whens: Seq<(BoundExprView, BoundExprView)>,
    n: nat,
) -> Seq<BoundExprView>
    decreases whens, 0int, n,
{
    if n == 0 || n > whens.len() {
        seq![]
    } else {
        aggregates_in_whens(whens, (n - 1) as nat) + aggregates_in(whens[n - 1].0)
            + aggregates_in(whens[n - 1].1)
    }
}

pub open spec fn aggregates_in_entries(
    entries: Seq<(Seq<char>, BoundExprView)>,
    n: nat,
) -> Seq<BoundExprView>
    decreases entries, 0int, n,
{
    if n == 0 || n > entries.len() {
        seq![]
    } else {
        aggregates_in_entries(entries, (n - 1) as nat) + aggregates_in(entries[n - 1].1)
    }
}

/// The argument of an aggregate over `group` from `i` on, behind `before`:
/// nulls are ignored, and `count(*)` counts rows.
#[verifier::opaque]
pub open spec fn gathered_from(
    arg: Option<Box<BoundExprView>>,
    group: Seq<Map<u32, ValueView>>,
    i: int,
    env: Env,
    spent: Spent,
    before: Seq<ValueView>,
) -> EvaluatedAll
    decreases group.len() - i,
{
    if i < 0 || i >= group.len() {
        EvaluatedAll { result: Ok(before), spent }
    } else {
        match arg {
            None => gathered_from(
                arg,
                group,
                i + 1,
                env,
                spent,
                before.push(ValueView::Int(1)),
            ),
            Some(e) => {
                let x = semantics::evaluated(*e, group[i], env, spent);
                match x.result {
                    Err(e) => EvaluatedAll { result: Err(e), spent: x.spent },
                    Ok(v) => gathered_from(
                        arg,
                        group,
                        i + 1,
                        env,
                        x.spent,
                        if v is Null {
                            before
                        } else {
                            before.push(v)
                        },
                    ),
                }
            },
        }
    }
}

/// Whether `v` is equivalent to one of `seen`.
pub open spec fn seen_before(seen: Seq<ValueView>, v: ValueView) -> bool {
    exists|i: int| 0 <= i < seen.len() && compare::sort_order(#[trigger] seen[i], v) == Order::Equal
}

/// The first `n` values without those equivalent to an earlier one.
pub open spec fn unique(values: Seq<ValueView>, n: nat) -> Seq<ValueView>
    decreases n,
{
    if n == 0 || n > values.len() {
        seq![]
    } else {
        let before = unique(values, (n - 1) as nat);
        if seen_before(before, values[n - 1]) {
            before
        } else {
            before.push(values[n - 1])
        }
    }
}

/// A running sum: of the integers, of the floats, and whether there were any.
pub struct Sum {
    pub ints: i64,
    pub floats: u64,
    pub any_float: bool,
}

pub open spec fn float_sum(
    a: u64,
    b: u64,
    span: Span,
    table: Seq<(FloatRequestView, FloatAnswerView)>,
) -> Result<u64, ExecErrorView> {
    float::number_for(table, FloatRequestView::Binary { op: FloatOp::Add, a, b }, span)
}

/// The sum of the first `n` values.
pub open spec fn summed(
    values: Seq<ValueView>,
    n: nat,
    span: Span,
    table: Seq<(FloatRequestView, FloatAnswerView)>,
) -> Result<Sum, ExecErrorView>
    decreases n,
{
    if n == 0 || n > values.len() {
        Ok(Sum { ints: 0, floats: 0, any_float: false })
    } else {
        match summed(values, (n - 1) as nat, span, table) {
            Err(e) => Err(e),
            Ok(s) => match values[n - 1] {
                ValueView::Int(k) => match s.ints.checked_add(k) {
                    Some(ints) => Ok(Sum { ints, ..s }),
                    None => Err(ExecErrorView::Overflow { span }),
                },
                ValueView::Float(x) => match float_sum(s.floats, x, span, table) {
                    Ok(floats) => Ok(Sum { floats, any_float: true, ..s }),
                    Err(e) => Err(e),
                },
                other => Err(
                    operators::type_error(
                        "sum() needs numbers, got "@ + inspect::type_label_of(other),
                        span,
                    ),
                ),
            },
        }
    }
}

pub open spec fn sum_value(
    values: Seq<ValueView>,
    span: Span,
    table: Seq<(FloatRequestView, FloatAnswerView)>,
) -> Result<ValueView, ExecErrorView> {
    match summed(values, values.len(), span, table) {
        Err(e) => Err(e),
        Ok(s) => if s.any_float {
            arith::number_result(
                float_sum(s.floats, float::of_int(s.ints as int) as u64, span, table),
            )
        } else {
            Ok(ValueView::Int(s.ints))
        },
    }
}

/// The sum, as a float, of the first `n` values.
pub open spec fn totalled(
    values: Seq<ValueView>,
    n: nat,
    span: Span,
    table: Seq<(FloatRequestView, FloatAnswerView)>,
) -> Result<u64, ExecErrorView>
    decreases n,
{
    if n == 0 || n > values.len() {
        Ok(0)
    } else {
        match totalled(values, (n - 1) as nat, span, table) {
            Err(e) => Err(e),
            Ok(total) => if compare::is_number(values[n - 1]) {
                float_sum(total, compare::number_bits(values[n - 1]), span, table)
            } else {
                Err(
                    operators::type_error(
                        "avg() needs numbers, got "@ + inspect::type_label_of(values[n - 1]),
                        span,
                    ),
                )
            },
        }
    }
}

pub open spec fn average_value(
    values: Seq<ValueView>,
    span: Span,
    table: Seq<(FloatRequestView, FloatAnswerView)>,
) -> Result<ValueView, ExecErrorView> {
    if values.len() == 0 {
        Ok(ValueView::Null)
    } else {
        match totalled(values, values.len(), span, table) {
            Err(e) => Err(e),
            Ok(total) => arith::number_result(
                float::number_for(
                    table,
                    FloatRequestView::Binary {
                        op: FloatOp::Div,
                        a: total,
                        b: float::of_int((values.len() as i64) as int) as u64,
                    },
                    span,
                ),
            ),
        }
    }
}

/// The first of the least of the first `n` values, in the global sort order.
pub open spec fn least(values: Seq<ValueView>, n: nat) -> ValueView
    decreases n,
{
    if n == 0 || n > values.len() {
        ValueView::Null
    } else if n == 1 {
        values[0]
    } else {
        let before = least(values, (n - 1) as nat);
        if compare::sort_order(values[n - 1], before) == Order::Less {
            values[n - 1]
        } else {
            before
        }
    }
}

/// The last of the greatest of the first `n` values, in the global sort order.
pub open spec fn greatest(values: Seq<ValueView>, n: nat) -> ValueView
    decreases n,
{
    if n == 0 || n > values.len() {
        ValueView::Null
    } else if n == 1 {
        values[0]
    } else {
        let before = greatest(values, (n - 1) as nat);
        if compare::sort_order(values[n - 1], before) == Order::Less {
            before
        } else {
            values[n - 1]
        }
    }
}

pub open spec fn all_nestable(values: Seq<ValueView>) -> bool {
    forall|i: int| 0 <= i < values.len() ==> arith::nestable(#[trigger] values[i])
}

/// What the aggregate called `name` makes of the gathered `values`.
pub open spec fn aggregated(
    name: Seq<char>,
    values: Seq<ValueView>,
    span: Span,
    table: Seq<(FloatRequestView, FloatAnswerView)>,
) -> Result<ValueView, ExecErrorView> {
    if name == "count"@ {
        Ok(ValueView::Int(values.len() as i64))
    } else if name == "collect"@ {
        if all_nestable(values) {
            Ok(ValueView::List(values))
        } else {
            Err(arith::too_deep(span))
        }
    } else if name == "sum"@ {
        sum_value(values, span, table)
    } else if name == "avg"@ {
        average_value(values, span, table)
    } else if name == "min"@ {
        Ok(least(values, values.len()))
    } else if name == "max"@ {
        Ok(greatest(values, values.len()))
    } else {
        Err(ExecErrorView::Unsupported { feature: "aggregate"@, span })
    }
}

/// What an aggregate comes to over a group.
#[verifier::opaque]
pub open spec fn accumulated(
    e: BoundExprView,
    group: Seq<Map<u32, ValueView>>,
    env: Env,
    spent: Spent,
) -> Evaluated {
    match e {
        BoundExprView::Aggregate { def, distinct, arg, span } => {
            let g = gathered_from(arg, group, 0, env, spent, seq![]);
            match g.result {
                Err(e) => semantics::failed(e, g.spent),
                Ok(values) => semantics::done(
                    aggregated(
                        def.name,
                        if distinct {
                            unique(values, values.len())
                        } else {
                            values
                        },
                        span,
                        env.floats,
                    ),
                    g.spent,
                ),
            }
        },
        _ => semantics::done(Ok(ValueView::Null), spent),
    }
}

/// What `aggregates` from `i` on come to over a group, behind `before`.
#[verifier::opaque]
pub open spec fn slots_from(
    aggregates: Seq<BoundExprView>,
    i: int,
    group: Seq<Map<u32, ValueView>>,
    env: Env,
    spent: Spent,
    before: Seq<ValueView>,
) -> EvaluatedAll
    decreases aggregates.len() - i,
{
    if i < 0 || i >= aggregates.len() {
        EvaluatedAll { result: Ok(before), spent }
    } else {
        let a = accumulated(aggregates[i], group, env, spent);
        match a.result {
            Err(e) => EvaluatedAll { result: Err(e), spent: a.spent },
            Ok(v) => slots_from(aggregates, i + 1, group, env, a.spent, before.push(v)),
        }
    }
}

/// A projection item over a group: aggregates are accumulated across the
/// group's rows and the rest reads a representative row.
#[verifier::opaque]
pub open spec fn evaluated_over(
    e: BoundExprView,
    group: Seq<Map<u32, ValueView>>,
    representative: Map<u32, ValueView>,
    env: Env,
    spent: Spent,
) -> Evaluated {
    let s = slots_from(aggregates_in(e), 0, group, env, spent, seq![]);
    match s.result {
        Err(e) => semantics::failed(e, s.spent),
        Ok(slots) => semantics::evaluated(
            e,
            representative,
            Env { slots: Some(slots), ..env },
            Spent { cursor: 0, ..s.spent },
        ),
    }
}

// --- Grouping -------------------------------------------------------------------------------------

/// The lexicographic order of two keys that agree before `i`.
pub open spec fn keys_order(a: Seq<ValueView>, b: Seq<ValueView>, i: int) -> Order
    decreases a.len() - i,
{
    if i < 0 || i >= a.len() || i >= b.len() {
        value::int_order(a.len() as int, b.len() as int)
    } else {
        match compare::sort_order(a[i], b[i]) {
            Order::Equal => keys_order(a, b, i + 1),
            other => other,
        }
    }
}

/// Rows with equivalent keys.
pub struct Group {
    pub key: Seq<ValueView>,
    pub rows: Seq<Map<u32, ValueView>>,
}

/// `groups`, which are in the order of their keys, with a row put into its
/// group, which does not stand before `i`.
pub open spec fn with_row(
    groups: Seq<Group>,
    key: Seq<ValueView>,
    row: Map<u32, ValueView>,
    i: int,
) -> Seq<Group>
    decreases groups.len() - i,
{
    if i < 0 || i >= groups.len() {
        groups.push(Group { key, rows: seq![row] })
    } else {
        match keys_order(groups[i].key, key, 0) {
            Order::Less => with_row(groups, key, row, i + 1),
            Order::Equal => groups.update(
                i,
                Group { key: groups[i].key, rows: groups[i].rows.push(row) },
            ),
            Order::Greater => groups.insert(i, Group { key, rows: seq![row] }),
        }
    }
}

/// The values of the items `indices` from `i` on, over `row`, behind `before`.
#[verifier::opaque]
pub open spec fn key_from(
    items: Seq<BoundProjectionItemView>,
    indices: Seq<usize>,
    i: int,
    row: Map<u32, ValueView>,
    env: Env,
    spent: Spent,
    before: Seq<ValueView>,
) -> EvaluatedAll
    decreases indices.len() - i,
{
    if i < 0 || i >= indices.len() {
        EvaluatedAll { result: Ok(before), spent }
    } else {
        let x = semantics::evaluated(items[indices[i] as int].expr, row, env, spent);
        match x.result {
            Err(e) => EvaluatedAll { result: Err(e), spent: x.spent },
            Ok(v) => key_from(items, indices, i + 1, row, env, x.spent, before.push(v)),
        }
    }
}

/// What grouping comes to.
pub struct Grouped {
    pub result: Result<Seq<Group>, ExecErrorView>,
    pub spent: Spent,
}

/// The groups of `rows` from `i` on, together with `before`.
#[verifier::opaque]
pub open spec fn groups_from(
    items: Seq<BoundProjectionItemView>,
    indices: Seq<usize>,
    rows: Seq<Map<u32, ValueView>>,
    i: int,
    env: Env,
    spent: Spent,
    before: Seq<Group>,
) -> Grouped
    decreases rows.len() - i,
{
    if i < 0 || i >= rows.len() {
        Grouped { result: Ok(before), spent }
    } else {
        let k = key_from(items, indices, 0, rows[i], env, spent, seq![]);
        match k.result {
            Err(e) => Grouped { result: Err(e), spent: k.spent },
            Ok(key) => groups_from(
                items,
                indices,
                rows,
                i + 1,
                env,
                k.spent,
                with_row(before, key, rows[i], 0),
            ),
        }
    }
}

/// The groups to aggregate over. Aggregating over no rows with no grouping
/// keys still has one, empty group.
pub open spec fn or_one_group(groups: Seq<Group>, indices: Seq<usize>) -> Seq<Group> {
    if groups.len() == 0 && indices.len() == 0 {
        seq![Group { key: seq![], rows: seq![] }]
    } else {
        groups
    }
}

/// What projecting one row comes to.
pub struct RowMade {
    pub result: Result<Map<u32, ValueView>, ExecErrorView>,
    pub spent: Spent,
}

/// The row `out` with the items from `i` on evaluated over `row`.
#[verifier::opaque]
pub open spec fn projected_items_from(
    items: Seq<BoundProjectionItemView>,
    i: int,
    row: Map<u32, ValueView>,
    env: Env,
    spent: Spent,
    out: Map<u32, ValueView>,
) -> RowMade
    decreases items.len() - i,
{
    if i < 0 || i >= items.len() {
        RowMade { result: Ok(out), spent }
    } else {
        let x = semantics::evaluated(items[i].expr, row, env, spent);
        match x.result {
            Err(e) => RowMade { result: Err(e), spent: x.spent },
            Ok(v) => projected_items_from(
                items,
                i + 1,
                row,
                env,
                x.spent,
                out.insert(items[i].var.0, v),
            ),
        }
    }
}

/// The row `out` with the items from `i` on evaluated over a group.
#[verifier::opaque]
pub open spec fn grouped_items_from(
    items: Seq<BoundProjectionItemView>,
    i: int,
    group: Seq<Map<u32, ValueView>>,
    representative: Map<u32, ValueView>,
    env: Env,
    spent: Spent,
    out: Map<u32, ValueView>,
) -> RowMade
    decreases items.len() - i,
{
    if i < 0 || i >= items.len() {
        RowMade { result: Ok(out), spent }
    } else {
        let x = evaluated_over(items[i].expr, group, representative, env, spent);
        match x.result {
            Err(e) => RowMade { result: Err(e), spent: x.spent },
            Ok(v) => grouped_items_from(
                items,
                i + 1,
                group,
                representative,
                env,
                x.spent,
                out.insert(items[i].var.0, v),
            ),
        }
    }
}

/// The first row of a group, an empty one where it has none.
pub open spec fn representative_of(group: Group) -> Map<u32, ValueView> {
    if group.rows.len() > 0 {
        group.rows[0]
    } else {
        Map::empty()
    }
}

/// A row pushed behind `out`, charged.
pub open spec fn pushed(
    made: RowMade,
    out: Seq<Map<u32, ValueView>>,
) -> Produced {
    match made.result {
        Err(e) => Produced { result: Err(e), spent: made.spent },
        Ok(row) => {
            let c = made.spent.budget.row(out.len());
            let after = semantics::with_budget(made.spent, c.budget);
            match c.result {
                Err(e) => Produced { result: Err(e), spent: after },
                Ok(_) => Produced { result: Ok(out.push(row)), spent: after },
            }
        },
    }
}

/// One row for each of `groups` from `i` on, behind `out`.
#[verifier::opaque]
pub open spec fn group_rows_from(
    items: Seq<BoundProjectionItemView>,
    groups: Seq<Group>,
    i: int,
    env: Env,
    spent: Spent,
    out: Seq<Map<u32, ValueView>>,
) -> Produced
    decreases groups.len() - i,
{
    if i < 0 || i >= groups.len() {
        Produced { result: Ok(out), spent }
    } else {
        let first = representative_of(groups[i]);
        let p = pushed(
            grouped_items_from(items, 0, groups[i].rows, first, env, spent, first),
            out,
        );
        match p.result {
            Err(e) => p,
            Ok(all) => group_rows_from(items, groups, i + 1, env, p.spent, all),
        }
    }
}

/// One row for each of `rows` from `i` on, behind `out`.
#[verifier::opaque]
pub open spec fn plain_rows_from(
    items: Seq<BoundProjectionItemView>,
    rows: Seq<Map<u32, ValueView>>,
    i: int,
    env: Env,
    spent: Spent,
    out: Seq<Map<u32, ValueView>>,
) -> Produced
    decreases rows.len() - i,
{
    if i < 0 || i >= rows.len() {
        Produced { result: Ok(out), spent }
    } else {
        let p = pushed(projected_items_from(items, 0, rows[i], env, spent, rows[i]), out);
        match p.result {
            Err(e) => p,
            Ok(all) => plain_rows_from(items, rows, i + 1, env, p.spent, all),
        }
    }
}

/// The projected rows, in which the pre-projection slots are still visible.
#[verifier::opaque]
pub open spec fn merged_rows(
    p: BoundProjectionView,
    rows: Seq<Map<u32, ValueView>>,
    env: Env,
    spent: Spent,
) -> Produced {
    if p.aggregating {
        let g = groups_from(p.items, p.grouping_items, rows, 0, env, spent, seq![]);
        match g.result {
            Err(e) => Produced { result: Err(e), spent: g.spent },
            Ok(groups) => group_rows_from(
                p.items,
                or_one_group(groups, p.grouping_items),
                0,
                env,
                g.spent,
                seq![],
            ),
        }
    } else {
        plain_rows_from(p.items, rows, 0, env, spent, seq![])
    }
}

// --- Filtering, distinctness, sorting, paging ---------------------------------------------------------

/// Those of `rows` from `i` on of which `predicate` is true, behind `kept`.
#[verifier::opaque]
pub open spec fn filtered_from(
    rows: Seq<Map<u32, ValueView>>,
    i: int,
    predicate: Option<BoundExprView>,
    env: Env,
    spent: Spent,
    kept: Seq<Map<u32, ValueView>>,
) -> Produced
    decreases rows.len() - i,
{
    if i < 0 || i >= rows.len() {
        Produced { result: Ok(kept), spent }
    } else {
        let t = walk::passes(predicate, rows[i], env, spent);
        match t.result {
            Err(e) => Produced { result: Err(e), spent: t.spent },
            Ok(b) => filtered_from(
                rows,
                i + 1,
                predicate,
                env,
                t.spent,
                if b {
                    kept.push(rows[i])
                } else {
                    kept
                },
            ),
        }
    }
}

/// The projected values of a row.
pub open spec fn output_of(
    items: Seq<BoundProjectionItemView>,
    row: Map<u32, ValueView>,
) -> Seq<ValueView> {
    Seq::new(items.len(), |i: int| row::row_get(row, items[i].var))
}

/// Whether a row projects to values equivalent to those of one of `kept`.
pub open spec fn repeats(
    items: Seq<BoundProjectionItemView>,
    kept: Seq<Map<u32, ValueView>>,
    row: Map<u32, ValueView>,
) -> bool {
    exists|i: int|
        0 <= i < kept.len() && keys_order(
            output_of(items, #[trigger] kept[i]),
            output_of(items, row),
            0,
        ) == Order::Equal
}

/// The first `n` rows without those that project to values equivalent to an
/// earlier one's.
pub open spec fn distinct_rows(
    items: Seq<BoundProjectionItemView>,
    rows: Seq<Map<u32, ValueView>>,
    n: nat,
) -> Seq<Map<u32, ValueView>>
    decreases n,
{
    if n == 0 || n > rows.len() {
        seq![]
    } else {
        let before = distinct_rows(items, rows, (n - 1) as nat);
        if repeats(items, before, rows[n - 1]) {
            before
        } else {
            before.push(rows[n - 1])
        }
    }
}

/// A row with the values it is sorted by.
pub struct Keyed {
    pub key: Seq<ValueView>,
    pub row: Map<u32, ValueView>,
}

/// The order of two sort keys that agree before `i`, each component turned
/// around where it is descending.
pub open spec fn sort_keys_order(
    a: Seq<ValueView>,
    b: Seq<ValueView>,
    descending: Seq<bool>,
    i: int,
) -> Order
    decreases descending.len() - i,
{
    if i < 0 || i >= descending.len() || i >= a.len() || i >= b.len() {
        Order::Equal
    } else {
        let o = compare::sort_order(a[i], b[i]);
        let turned = if descending[i] {
            o.flipped()
        } else {
            o
        };
        if turned == Order::Equal {
            sort_keys_order(a, b, descending, i + 1)
        } else {
            turned
        }
    }
}

/// Where a key goes among the first `n` of `sorted`: behind those that do not
/// come after it.
pub open spec fn slot_for(
    sorted: Seq<Keyed>,
    key: Seq<ValueView>,
    descending: Seq<bool>,
    n: nat,
) -> int
    decreases n,
{
    if n == 0 || n > sorted.len() {
        0
    } else if sort_keys_order(sorted[n - 1].key, key, descending, 0) == Order::Greater {
        slot_for(sorted, key, descending, (n - 1) as nat)
    } else {
        n as int
    }
}

/// The first `n` rows in the order of their keys, rows of equal keys in the
/// order they came in.
pub open spec fn sorted_rows(rows: Seq<Keyed>, descending: Seq<bool>, n: nat) -> Seq<Keyed>
    decreases n,
{
    if n == 0 || n > rows.len() {
        seq![]
    } else {
        let before = sorted_rows(rows, descending, (n - 1) as nat);
        before.insert(slot_for(before, rows[n - 1].key, descending, before.len()), rows[n - 1])
    }
}

pub open spec fn directions(order_by: Seq<(BoundExprView, bool)>) -> Seq<bool> {
    Seq::new(order_by.len(), |i: int| order_by[i].1)
}

/// The sort key of a row, from the `i`-th expression on, behind `before`.
#[verifier::opaque]
pub open spec fn sort_key_from(
    order_by: Seq<(BoundExprView, bool)>,
    i: int,
    row: Map<u32, ValueView>,
    env: Env,
    spent: Spent,
    before: Seq<ValueView>,
) -> EvaluatedAll
    decreases order_by.len() - i,
{
    if i < 0 || i >= order_by.len() {
        EvaluatedAll { result: Ok(before), spent }
    } else {
        let x = semantics::evaluated(order_by[i].0, row, env, spent);
        match x.result {
            Err(e) => EvaluatedAll { result: Err(e), spent: x.spent },
            Ok(v) => sort_key_from(order_by, i + 1, row, env, x.spent, before.push(v)),
        }
    }
}

/// What keying rows comes to.
pub struct AllKeyed {
    pub result: Result<Seq<Keyed>, ExecErrorView>,
    pub spent: Spent,
}

/// `rows` from `i` on with their sort keys, behind `before`.
#[verifier::opaque]
pub open spec fn keyed_from(
    order_by: Seq<(BoundExprView, bool)>,
    rows: Seq<Map<u32, ValueView>>,
    i: int,
    env: Env,
    spent: Spent,
    before: Seq<Keyed>,
) -> AllKeyed
    decreases rows.len() - i,
{
    if i < 0 || i >= rows.len() {
        AllKeyed { result: Ok(before), spent }
    } else {
        let k = sort_key_from(order_by, 0, rows[i], env, spent, seq![]);
        match k.result {
            Err(e) => AllKeyed { result: Err(e), spent: k.spent },
            Ok(key) => keyed_from(
                order_by,
                rows,
                i + 1,
                env,
                k.spent,
                before.push(Keyed { key, row: rows[i] }),
            ),
        }
    }
}

pub open spec fn rows_of(keyed: Seq<Keyed>) -> Seq<Map<u32, ValueView>> {
    Seq::new(keyed.len(), |i: int| keyed[i].row)
}

/// The rows in the order that `ORDER BY` asks for.
#[verifier::opaque]
pub open spec fn ordered_rows(
    order_by: Seq<(BoundExprView, bool)>,
    rows: Seq<Map<u32, ValueView>>,
    env: Env,
    spent: Spent,
) -> Produced {
    if order_by.len() == 0 {
        Produced { result: Ok(rows), spent }
    } else {
        let k = keyed_from(order_by, rows, 0, env, spent, seq![]);
        match k.result {
            Err(e) => Produced { result: Err(e), spent: k.spent },
            Ok(keyed) => Produced {
                result: Ok(rows_of(sorted_rows(keyed, directions(order_by), keyed.len()))),
                spent: k.spent,
            },
        }
    }
}

/// What the count of a `SKIP` or `LIMIT` comes to.
pub struct Counted {
    pub result: Result<Option<u64>, ExecErrorView>,
    pub spent: Spent,
}

/// The count of a `SKIP` or `LIMIT`, where there is one: a constant or a
/// parameter that is a non-negative integer.
#[verifier::opaque]
pub open spec fn page_bound(count: Option<BoundExprView>, env: Env, spent: Spent) -> Counted {
    match count {
        None => Counted { result: Ok(None), spent },
        Some(e) => {
            let x = semantics::evaluated(e, Map::empty(), env, spent);
            let result: Result<Option<u64>, ExecErrorView> = match x.result {
                Err(e) => Err(e),
                Ok(ValueView::Int(n)) => if n >= 0 {
                    Ok(Some(n as u64))
                } else {
                    refused_bound(ValueView::Int(n), semantics::bound_place(e), env.floats)
                },
                Ok(other) => refused_bound(other, semantics::bound_place(e), env.floats),
            };
            Counted { result, spent: x.spent }
        },
    }
}

pub open spec fn refused_bound(
    v: ValueView,
    span: Span,
    table: Seq<(FloatRequestView, FloatAnswerView)>,
) -> Result<Option<u64>, ExecErrorView> {
    match render::formatted(table, v, span) {
        Err(e) => Err(e),
        Ok(text) => Err(
            ExecErrorView::InvalidArgument {
                message: "SKIP/LIMIT needs a non-negative integer, got "@ + text,
                span,
            },
        ),
    }
}

/// `n`, but no more than `len`.
pub open spec fn no_more_than(n: u64, len: nat) -> int {
    if n as int > len {
        len as int
    } else {
        n as int
    }
}

/// The rows behind a `SKIP` and before a `LIMIT`.
#[verifier::opaque]
pub open spec fn paged_rows(
    skip: Option<BoundExprView>,
    limit: Option<BoundExprView>,
    rows: Seq<Map<u32, ValueView>>,
    env: Env,
    spent: Spent,
) -> Produced {
    let s = page_bound(skip, env, spent);
    match s.result {
        Err(e) => Produced { result: Err(e), spent: s.spent },
        Ok(first) => {
            let rest = match first {
                None => rows,
                Some(n) => rows.skip(no_more_than(n, rows.len())),
            };
            let l = page_bound(limit, env, s.spent);
            match l.result {
                Err(e) => Produced { result: Err(e), spent: l.spent },
                Ok(most) => Produced {
                    result: Ok(
                        match most {
                            None => rest,
                            Some(n) => rest.take(no_more_than(n, rest.len())),
                        },
                    ),
                    spent: l.spent,
                },
            }
        },
    }
}

/// The rows that a `WITH` or `RETURN` makes of `rows`.
#[verifier::opaque]
pub open spec fn projected(
    p: BoundProjectionView,
    is_with: bool,
    rows: Seq<Map<u32, ValueView>>,
    env: Env,
    spent: Spent,
) -> Produced {
    let m = merged_rows(p, rows, env, spent);
    match m.result {
        Err(e) => m,
        Ok(merged) => {
            let f = if is_with {
                filtered_from(merged, 0, p.where_clause, env, m.spent, seq![])
            } else {
                m
            };
            match f.result {
                Err(e) => f,
                Ok(kept) => {
                    let unique = if p.distinct {
                        distinct_rows(p.items, kept, kept.len())
                    } else {
                        kept
                    };
                    let o = ordered_rows(p.order_by, unique, env, f.spent);
                    match o.result {
                        Err(e) => o,
                        Ok(ordered) => paged_rows(p.skip, p.limit, ordered, env, o.spent),
                    }
                },
            }
        },
    }
}

/// The column names of a projection.
pub open spec fn column_names(items: Seq<BoundProjectionItemView>) -> Seq<Seq<char>> {
    Seq::new(items.len(), |i: int| items[i].name)
}

/// Whether the grouping keys of a projection are items of it.
pub open spec fn grouping_is_sound(p: BoundProjectionView) -> bool {
    forall|i: int|
        0 <= i < p.grouping_items.len() ==> (#[trigger] p.grouping_items[i]) < p.items.len()
}

} // verus!
