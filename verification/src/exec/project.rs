//! Projection (`WITH` / `RETURN`).

use vstd::prelude::*;
use vstd::string::*;

use crate::bind::bound::{self, BoundExpr, BoundProjection, BoundProjectionItem};
use crate::exec::aggregate;
use crate::exec::eval::{self, EvalCtx, EvalState};
use crate::exec::fault::{ExecError, ExecErrorView};
use crate::exec::float::FloatTable;
use crate::exec::governor;
use crate::exec::matching;
use crate::exec::projection_model::{self, Group, Grouped, Keyed, RowMade};
use crate::exec::row::{self, Row};
use crate::exec::semantics::Spent;
use crate::exec::source::GraphSource;
use crate::exec::value::{self, Order, Value, ValueView};
use crate::span::Span;
use crate::text;

verus! {

// --- Grouping ---------------------------------------------------------------------------------------

/// Rows with equivalent keys.
struct RowGroup {
    key: Vec<Value>,
    rows: Vec<Row>,
}

impl RowGroup {
    spec fn view(&self) -> Group {
        Group { key: value::values_view(self.key@), rows: row::rows_view(self.rows@) }
    }
}

spec fn groups_view(v: Seq<RowGroup>) -> Seq<Group> {
    Seq::new(v.len(), |i: int| v[i]@)
}

fn order_keys(a: &Vec<Value>, b: &Vec<Value>) -> (r: Order)
    ensures
        r == projection_model::keys_order(value::values_view(a@), value::values_view(b@), 0),
{
    let ghost x = value::values_view(a@);
    let ghost y = value::values_view(b@);
    let mut i: usize = 0;
    while i < a.len() && i < b.len()
        invariant
            i <= a.len(),
            i <= b.len(),
            x == value::values_view(a@),
            y == value::values_view(b@),
            projection_model::keys_order(x, y, 0) == projection_model::keys_order(x, y, i as int),
        decreases a.len() - i,
    {
        assert(x[i as int] == a@[i as int]@);
        assert(y[i as int] == b@[i as int]@);
        match a[i].sorted_against(&b[i]) {
            Order::Equal => {},
            other => {
                return other;
            },
        }
        i += 1;
    }
    value::order_sizes(a.len(), b.len())
}

fn put_row(groups: &mut Vec<RowGroup>, key: Vec<Value>, row: Row)
    ensures
        groups_view(final(groups)@) == projection_model::with_row(
            groups_view(old(groups)@),
            value::values_view(key@),
            row@,
            0,
        ),
{
    let ghost before = groups_view(groups@);
    let ghost k = value::values_view(key@);
    let mut i: usize = 0;
    while i < groups.len()
        invariant
            i <= groups.len(),
            k == value::values_view(key@),
            before == groups_view(groups@),
            before == groups_view(old(groups)@),
            projection_model::with_row(before, k, row@, 0) == projection_model::with_row(
                before,
                k,
                row@,
                i as int,
            ),
        decreases groups.len() - i,
    {
        assert(before[i as int] == groups@[i as int]@);
        match order_keys(&groups[i].key, &key) {
            Order::Less => {},
            Order::Equal => {
                let ghost old_rows = groups@[i as int].rows@;
                let ghost grown = Group {
                    key: before[i as int].key,
                    rows: before[i as int].rows.push(row@),
                };
                groups[i].rows.push(row);
                assert(
                    row::rows_view(groups@[i as int].rows@) =~= row::rows_view(old_rows).push(row@)
                );
                assert(groups_view(groups@) =~= before.update(i as int, grown));
                return;
            },
            Order::Greater => {
                let mut rows: Vec<Row> = Vec::new();
                rows.push(row);
                assert(row::rows_view(rows@) =~= seq![row@]);
                let group = RowGroup { key, rows };
                groups.insert(i, group);
                assert(groups_view(groups@) =~= before.insert(i as int, group@));
                return;
            },
        }
        i += 1;
    }
    let mut rows: Vec<Row> = Vec::new();
    rows.push(row);
    assert(row::rows_view(rows@) =~= seq![row@]);
    let group = RowGroup { key, rows };
    groups.push(group);
    assert(groups_view(groups@) =~= before.push(group@));
}

fn grouping_key<G: GraphSource>(
    items: &Vec<BoundProjectionItem>,
    indices: &Vec<usize>,
    row: &Row,
    ctx: &EvalCtx<G>,
    st: &mut EvalState,
) -> (r: Result<Vec<Value>, ExecError>)
    requires
        forall|i: int| 0 <= i < indices@.len() ==> (#[trigger] indices@[i]) < items@.len(),
    ensures
        eval::evaluates_all(
            r,
            old(st)@,
            final(st)@,
            projection_model::key_from(
                bound::bound_projection_items_view(items@),
                indices@,
                0,
                row@,
                ctx@,
                old(st)@,
                seq![],
            ),
        ),
{
    broadcast use crate::exec::poll_laws::group_polls;

    let ghost all = bound::bound_projection_items_view(items@);
    let ghost model = projection_model::key_from(all, indices@, 0, row@, ctx@, st@, seq![]);
    let mut out: Vec<Value> = Vec::new();
    assert(value::values_view(out@) =~= seq![]);
    let mut i: usize = 0;
    while i < indices.len()
        invariant
            i <= indices.len(),
            all == bound::bound_projection_items_view(items@),
            forall|k: int| 0 <= k < indices@.len() ==> (#[trigger] indices@[k]) < items@.len(),
            st@.budget.timed == old(st)@.budget.timed,
            st@.budget.polled >= old(st)@.budget.polled,
            model == projection_model::key_from(all, indices@, 0, row@, ctx@, old(st)@, seq![]),
            model == projection_model::key_from(
                all,
                indices@,
                i as int,
                row@,
                ctx@,
                st@,
                value::values_view(out@),
            ),
        decreases indices.len() - i,
    {
        broadcast use crate::exec::poll_laws::group_polls;

        reveal(projection_model::key_from);
        let at: usize = indices[i];
        assert(all[at as int] == items@[at as int]@);
        match eval::eval(&items[at].expr, row, ctx, st) {
            Err(e) => {
                return Err(e);
            },
            Ok(v) => {
                assert(value::values_view(out@.push(v)) =~= value::values_view(out@).push(v@));
                out.push(v);
            },
        }
        i += 1;
    }
    reveal(projection_model::key_from);
    Ok(out)
}

spec fn groups_made(
    r: Result<Vec<RowGroup>, ExecError>,
    before: Spent,
    after: Spent,
    model: Grouped,
) -> bool {
    &&& after.budget.timed == before.budget.timed
    &&& after.budget.polled >= before.budget.polled
    &&& governor::timed_out(before.budget, model.spent.budget, r) || (match r {
        Ok(groups) => model.result == Ok::<_, ExecErrorView>(groups_view(groups@)),
        Err(e) => model.result == Err::<Seq<Group>, _>(e@),
    } && after == model.spent)
}

fn group_rows<G: GraphSource>(
    items: &Vec<BoundProjectionItem>,
    indices: &Vec<usize>,
    rows: &Vec<Row>,
    ctx: &EvalCtx<G>,
    st: &mut EvalState,
) -> (r: Result<Vec<RowGroup>, ExecError>)
    requires
        forall|i: int| 0 <= i < indices@.len() ==> (#[trigger] indices@[i]) < items@.len(),
    ensures
        groups_made(
            r,
            old(st)@,
            final(st)@,
            projection_model::groups_from(
                bound::bound_projection_items_view(items@),
                indices@,
                row::rows_view(rows@),
                0,
                ctx@,
                old(st)@,
                seq![],
            ),
        ),
{
    broadcast use crate::exec::poll_laws::group_polls;

    let ghost all = bound::bound_projection_items_view(items@);
    let ghost rv = row::rows_view(rows@);
    let ghost model = projection_model::groups_from(all, indices@, rv, 0, ctx@, st@, seq![]);
    let mut groups: Vec<RowGroup> = Vec::new();
    assert(groups_view(groups@) =~= seq![]);
    let mut i: usize = 0;
    while i < rows.len()
        invariant
            i <= rows.len(),
            all == bound::bound_projection_items_view(items@),
            rv == row::rows_view(rows@),
            forall|k: int| 0 <= k < indices@.len() ==> (#[trigger] indices@[k]) < items@.len(),
            st@.budget.timed == old(st)@.budget.timed,
            st@.budget.polled >= old(st)@.budget.polled,
            model == projection_model::groups_from(all, indices@, rv, 0, ctx@, old(st)@, seq![]),
            model == projection_model::groups_from(
                all,
                indices@,
                rv,
                i as int,
                ctx@,
                st@,
                groups_view(groups@),
            ),
        decreases rows.len() - i,
    {
        broadcast use crate::exec::poll_laws::group_polls;

        reveal(projection_model::groups_from);
        assert(rv[i as int] == rows@[i as int]@);
        match grouping_key(items, indices, &rows[i], ctx, st) {
            Err(e) => {
                return Err(e);
            },
            Ok(key) => put_row(&mut groups, key, rows[i].dup()),
        }
        i += 1;
    }
    reveal(projection_model::groups_from);
    Ok(groups)
}

spec fn row_made(
    r: Result<Row, ExecError>,
    before: Spent,
    after: Spent,
    model: RowMade,
) -> bool {
    &&& after.budget.timed == before.budget.timed
    &&& after.budget.polled >= before.budget.polled
    &&& governor::timed_out(before.budget, model.spent.budget, r) || (match r {
        Ok(row) => model.result == Ok::<_, ExecErrorView>(row@),
        Err(e) => model.result == Err::<Map<u32, ValueView>, _>(e@),
    } && after == model.spent)
}

fn project_group<G: GraphSource>(
    items: &Vec<BoundProjectionItem>,
    group: &Vec<Row>,
    representative: &Row,
    ctx: &EvalCtx<G>,
    st: &mut EvalState,
) -> (r: Result<Row, ExecError>)
    ensures
        row_made(
            r,
            old(st)@,
            final(st)@,
            projection_model::grouped_items_from(
                bound::bound_projection_items_view(items@),
                0,
                row::rows_view(group@),
                representative@,
                ctx@,
                old(st)@,
                representative@,
            ),
        ),
{
    broadcast use crate::exec::poll_laws::group_polls;

    let ghost all = bound::bound_projection_items_view(items@);
    let ghost g = row::rows_view(group@);
    let ghost first = representative@;
    let ghost model = projection_model::grouped_items_from(all, 0, g, first, ctx@, st@, first);
    let mut out = representative.dup();
    let mut i: usize = 0;
    while i < items.len()
        invariant
            i <= items.len(),
            all == bound::bound_projection_items_view(items@),
            g == row::rows_view(group@),
            first == representative@,
            st@.budget.timed == old(st)@.budget.timed,
            st@.budget.polled >= old(st)@.budget.polled,
            model == projection_model::grouped_items_from(all, 0, g, first, ctx@, old(st)@, first),
            model == projection_model::grouped_items_from(all, i as int, g, first, ctx@, st@, out@),
        decreases items.len() - i,
    {
        broadcast use crate::exec::poll_laws::group_polls;

        reveal(projection_model::grouped_items_from);
        assert(all[i as int] == items@[i as int]@);
        match aggregate::eval_with_group(&items[i].expr, group, representative, ctx, st) {
            Err(e) => {
                return Err(e);
            },
            Ok(v) => out.set(items[i].var, v),
        }
        i += 1;
    }
    reveal(projection_model::grouped_items_from);
    Ok(out)
}

fn project_row<G: GraphSource>(
    items: &Vec<BoundProjectionItem>,
    row: &Row,
    ctx: &EvalCtx<G>,
    st: &mut EvalState,
) -> (r: Result<Row, ExecError>)
    ensures
        row_made(
            r,
            old(st)@,
            final(st)@,
            projection_model::projected_items_from(
                bound::bound_projection_items_view(items@),
                0,
                row@,
                ctx@,
                old(st)@,
                row@,
            ),
        ),
{
    broadcast use crate::exec::poll_laws::group_polls;

    let ghost all = bound::bound_projection_items_view(items@);
    let ghost model = projection_model::projected_items_from(all, 0, row@, ctx@, st@, row@);
    let mut out = row.dup();
    let mut i: usize = 0;
    while i < items.len()
        invariant
            i <= items.len(),
            all == bound::bound_projection_items_view(items@),
            st@.budget.timed == old(st)@.budget.timed,
            st@.budget.polled >= old(st)@.budget.polled,
            model == projection_model::projected_items_from(all, 0, row@, ctx@, old(st)@, row@),
            model == projection_model::projected_items_from(all, i as int, row@, ctx@, st@, out@),
        decreases items.len() - i,
    {
        broadcast use crate::exec::poll_laws::group_polls;

        reveal(projection_model::projected_items_from);
        assert(all[i as int] == items@[i as int]@);
        match eval::eval(&items[i].expr, row, ctx, st) {
            Err(e) => {
                return Err(e);
            },
            Ok(v) => out.set(items[i].var, v),
        }
        i += 1;
    }
    reveal(projection_model::projected_items_from);
    Ok(out)
}

fn push_row(row: Row, out: &mut Vec<Row>, st: &mut EvalState) -> (r: Result<(), ExecError>)
    ensures
        matching::appends(
            r,
            old(st)@,
            final(st)@,
            final(out)@,
            projection_model::pushed(
                RowMade { result: Ok(row@), spent: old(st)@ },
                row::rows_view(old(out)@),
            ),
        ),
{
    broadcast use crate::exec::poll_laws::group_polls;

    if let Err(e) = st.governor.row(out.len()) {
        return Err(e);
    }
    assert(row::rows_view(out@.push(row)) =~= row::rows_view(out@).push(row@));
    out.push(row);
    Ok(())
}

fn project_groups<G: GraphSource>(
    items: &Vec<BoundProjectionItem>,
    groups: &Vec<RowGroup>,
    ctx: &EvalCtx<G>,
    st: &mut EvalState,
) -> (r: Result<Vec<Row>, ExecError>)
    ensures
        matching::produces(
            r,
            old(st)@,
            final(st)@,
            projection_model::group_rows_from(
                bound::bound_projection_items_view(items@),
                groups_view(groups@),
                0,
                ctx@,
                old(st)@,
                seq![],
            ),
        ),
{
    broadcast use crate::exec::poll_laws::group_polls;

    let ghost all = bound::bound_projection_items_view(items@);
    let ghost gs = groups_view(groups@);
    let ghost model = projection_model::group_rows_from(all, gs, 0, ctx@, st@, seq![]);
    let mut out: Vec<Row> = Vec::new();
    assert(row::rows_view(out@) =~= seq![]);
    let mut i: usize = 0;
    while i < groups.len()
        invariant
            i <= groups.len(),
            all == bound::bound_projection_items_view(items@),
            gs == groups_view(groups@),
            st@.budget.timed == old(st)@.budget.timed,
            st@.budget.polled >= old(st)@.budget.polled,
            model == projection_model::group_rows_from(all, gs, 0, ctx@, old(st)@, seq![]),
            model == projection_model::group_rows_from(
                all,
                gs,
                i as int,
                ctx@,
                st@,
                row::rows_view(out@),
            ),
        decreases groups.len() - i,
    {
        broadcast use crate::exec::poll_laws::group_polls;

        reveal(projection_model::group_rows_from);
        assert(gs[i as int] == groups@[i as int]@);
        let representative = if groups[i].rows.len() > 0 {
            groups[i].rows[0].dup()
        } else {
            Row::new()
        };
        assert(representative@ == projection_model::representative_of(gs[i as int]));
        match project_group(items, &groups[i].rows, &representative, ctx, st) {
            Err(e) => {
                return Err(e);
            },
            Ok(row) => {
                if let Err(e) = push_row(row, &mut out, st) {
                    return Err(e);
                }
            },
        }
        i += 1;
    }
    reveal(projection_model::group_rows_from);
    Ok(out)
}

fn project_plain<G: GraphSource>(
    items: &Vec<BoundProjectionItem>,
    rows: &Vec<Row>,
    ctx: &EvalCtx<G>,
    st: &mut EvalState,
) -> (r: Result<Vec<Row>, ExecError>)
    ensures
        matching::produces(
            r,
            old(st)@,
            final(st)@,
            projection_model::plain_rows_from(
                bound::bound_projection_items_view(items@),
                row::rows_view(rows@),
                0,
                ctx@,
                old(st)@,
                seq![],
            ),
        ),
{
    broadcast use crate::exec::poll_laws::group_polls;

    let ghost all = bound::bound_projection_items_view(items@);
    let ghost rv = row::rows_view(rows@);
    let ghost model = projection_model::plain_rows_from(all, rv, 0, ctx@, st@, seq![]);
    let mut out: Vec<Row> = Vec::new();
    assert(row::rows_view(out@) =~= seq![]);
    let mut i: usize = 0;
    while i < rows.len()
        invariant
            i <= rows.len(),
            all == bound::bound_projection_items_view(items@),
            rv == row::rows_view(rows@),
            st@.budget.timed == old(st)@.budget.timed,
            st@.budget.polled >= old(st)@.budget.polled,
            model == projection_model::plain_rows_from(all, rv, 0, ctx@, old(st)@, seq![]),
            model == projection_model::plain_rows_from(
                all,
                rv,
                i as int,
                ctx@,
                st@,
                row::rows_view(out@),
            ),
        decreases rows.len() - i,
    {
        broadcast use crate::exec::poll_laws::group_polls;

        reveal(projection_model::plain_rows_from);
        assert(rv[i as int] == rows@[i as int]@);
        match project_row(items, &rows[i], ctx, st) {
            Err(e) => {
                return Err(e);
            },
            Ok(row) => {
                if let Err(e) = push_row(row, &mut out, st) {
                    return Err(e);
                }
            },
        }
        i += 1;
    }
    reveal(projection_model::plain_rows_from);
    Ok(out)
}

fn merge_rows<G: GraphSource>(
    p: &BoundProjection,
    rows: &Vec<Row>,
    ctx: &EvalCtx<G>,
    st: &mut EvalState,
) -> (r: Result<Vec<Row>, ExecError>)
    requires
        projection_model::grouping_is_sound(p@),
    ensures
        matching::produces(
            r,
            old(st)@,
            final(st)@,
            projection_model::merged_rows(p@, row::rows_view(rows@), ctx@, old(st)@),
        ),
{
    broadcast use crate::exec::poll_laws::group_polls;

    reveal(projection_model::merged_rows);
    if p.aggregating {
        assert(forall|i: int|
            0 <= i < p.grouping_items@.len() ==> (#[trigger] p@.grouping_items[i])
                < p@.items.len());
        // Group by the non-aggregating items' values.
        let mut groups = match group_rows(&p.items, &p.grouping_items, rows, ctx, st) {
            Err(e) => {
                return Err(e);
            },
            Ok(groups) => groups,
        };
        let ghost gs = groups_view(groups@);
        // Aggregating over zero rows with no grouping keys still yields one
        // output row (count(*) = 0 and friends).
        if groups.len() == 0 && p.grouping_items.len() == 0 {
            let group = RowGroup { key: Vec::new(), rows: Vec::new() };
            assert(group@.key =~= seq![]);
            assert(group@.rows =~= seq![]);
            groups.push(group);
        }
        assert(groups_view(groups@) =~= projection_model::or_one_group(gs, p@.grouping_items));
        project_groups(&p.items, &groups, ctx, st)
    } else {
        project_plain(&p.items, rows, ctx, st)
    }
}

// --- Filtering, distinctness, sorting, paging --------------------------------------------------------

pub(crate) fn filter_rows<G: GraphSource>(
    rows: &Vec<Row>,
    predicate: &Option<BoundExpr>,
    ctx: &EvalCtx<G>,
    st: &mut EvalState,
) -> (r: Result<Vec<Row>, ExecError>)
    ensures
        matching::produces(
            r,
            old(st)@,
            final(st)@,
            projection_model::filtered_from(
                row::rows_view(rows@),
                0,
                matching::optional_expr(*predicate),
                ctx@,
                old(st)@,
                seq![],
            ),
        ),
{
    broadcast use crate::exec::poll_laws::group_polls;

    let ghost rv = row::rows_view(rows@);
    let ghost p = matching::optional_expr(*predicate);
    let ghost model = projection_model::filtered_from(rv, 0, p, ctx@, st@, seq![]);
    let mut kept: Vec<Row> = Vec::new();
    assert(row::rows_view(kept@) =~= seq![]);
    let mut i: usize = 0;
    while i < rows.len()
        invariant
            i <= rows.len(),
            p == matching::optional_expr(*predicate),
            rv == row::rows_view(rows@),
            st@.budget.timed == old(st)@.budget.timed,
            st@.budget.polled >= old(st)@.budget.polled,
            model == projection_model::filtered_from(rv, 0, p, ctx@, old(st)@, seq![]),
            model == projection_model::filtered_from(
                rv,
                i as int,
                p,
                ctx@,
                st@,
                row::rows_view(kept@),
            ),
        decreases rows.len() - i,
    {
        broadcast use crate::exec::poll_laws::group_polls;

        reveal(projection_model::filtered_from);
        assert(rv[i as int] == rows@[i as int]@);
        match matching::row_passes(predicate, &rows[i], ctx, st) {
            Err(e) => {
                return Err(e);
            },
            Ok(false) => {},
            Ok(true) => {
                let row = rows[i].dup();
                assert(row::rows_view(kept@.push(row)) =~= row::rows_view(kept@).push(row@));
                kept.push(row);
            },
        }
        i += 1;
    }
    reveal(projection_model::filtered_from);
    Ok(kept)
}

/// The projected values of a row.
pub(crate) fn output_values(items: &Vec<BoundProjectionItem>, row: &Row) -> (r: Vec<Value>)
    ensures
        value::values_view(r@) == projection_model::output_of(
            bound::bound_projection_items_view(items@),
            row@,
        ),
{
    let ghost all = bound::bound_projection_items_view(items@);
    let mut out: Vec<Value> = Vec::new();
    let mut i: usize = 0;
    while i < items.len()
        invariant
            i <= items.len(),
            all == bound::bound_projection_items_view(items@),
            out@.len() == i,
            forall|k: int| 0 <= k < i ==> (#[trigger] out@[k])@ == row::row_get(row@, all[k].var),
        decreases items.len() - i,
    {
        assert(all[i as int] == items@[i as int]@);
        out.push(row.get(items[i].var));
        i += 1;
    }
    assert(value::values_view(out@) =~= projection_model::output_of(all, row@));
    out
}

fn is_repeat(items: &Vec<BoundProjectionItem>, kept: &Vec<Row>, row: &Row) -> (r: bool)
    ensures
        r == projection_model::repeats(
            bound::bound_projection_items_view(items@),
            row::rows_view(kept@),
            row@,
        ),
{
    let ghost all = bound::bound_projection_items_view(items@);
    let ghost ks = row::rows_view(kept@);
    let wanted = output_values(items, row);
    let mut i: usize = 0;
    while i < kept.len()
        invariant
            i <= kept.len(),
            all == bound::bound_projection_items_view(items@),
            ks == row::rows_view(kept@),
            value::values_view(wanted@) == projection_model::output_of(all, row@),
            forall|k: int|
                0 <= k < i ==> projection_model::keys_order(
                    projection_model::output_of(all, #[trigger] ks[k]),
                    projection_model::output_of(all, row@),
                    0,
                ) != Order::Equal,
        decreases kept.len() - i,
    {
        assert(ks[i as int] == kept@[i as int]@);
        let have = output_values(items, &kept[i]);
        if order_keys(&have, &wanted) == Order::Equal {
            assert(projection_model::keys_order(projection_model::output_of(all, ks[i as int]), projection_model::output_of(all, row@), 0)
                == Order::Equal);
            return true;
        }
        i += 1;
    }
    false
}

fn keep_distinct(items: &Vec<BoundProjectionItem>, rows: &Vec<Row>) -> (r: Vec<Row>)
    ensures
        row::rows_view(r@) == projection_model::distinct_rows(
            bound::bound_projection_items_view(items@),
            row::rows_view(rows@),
            rows@.len(),
        ),
{
    let ghost all = bound::bound_projection_items_view(items@);
    let ghost rv = row::rows_view(rows@);
    let mut kept: Vec<Row> = Vec::new();
    assert(row::rows_view(kept@) =~= projection_model::distinct_rows(all, rv, 0));
    let mut i: usize = 0;
    while i < rows.len()
        invariant
            i <= rows.len(),
            all == bound::bound_projection_items_view(items@),
            rv == row::rows_view(rows@),
            row::rows_view(kept@) == projection_model::distinct_rows(all, rv, i as nat),
        decreases rows.len() - i,
    {
        assert(rv[i as int] == rows@[i as int]@);
        if !is_repeat(items, &kept, &rows[i]) {
            let row = rows[i].dup();
            assert(row::rows_view(kept@.push(row)) =~= row::rows_view(kept@).push(row@));
            kept.push(row);
        }
        i += 1;
    }
    kept
}

/// A row with the values it is sorted by.
struct SortedRow {
    key: Vec<Value>,
    row: Row,
}

impl SortedRow {
    spec fn view(&self) -> Keyed {
        Keyed { key: value::values_view(self.key@), row: self.row@ }
    }
}

spec fn sorted_view(v: Seq<SortedRow>) -> Seq<Keyed> {
    Seq::new(v.len(), |i: int| v[i]@)
}

fn sort_key<G: GraphSource>(
    order_by: &Vec<(BoundExpr, bool)>,
    row: &Row,
    ctx: &EvalCtx<G>,
    st: &mut EvalState,
) -> (r: Result<Vec<Value>, ExecError>)
    ensures
        eval::evaluates_all(
            r,
            old(st)@,
            final(st)@,
            projection_model::sort_key_from(
                bound::bound_expr_bools_view(order_by@),
                0,
                row@,
                ctx@,
                old(st)@,
                seq![],
            ),
        ),
{
    broadcast use crate::exec::poll_laws::group_polls;

    let ghost all = bound::bound_expr_bools_view(order_by@);
    let ghost model = projection_model::sort_key_from(all, 0, row@, ctx@, st@, seq![]);
    let mut out: Vec<Value> = Vec::new();
    assert(value::values_view(out@) =~= seq![]);
    let mut i: usize = 0;
    while i < order_by.len()
        invariant
            i <= order_by.len(),
            all == bound::bound_expr_bools_view(order_by@),
            st@.budget.timed == old(st)@.budget.timed,
            st@.budget.polled >= old(st)@.budget.polled,
            model == projection_model::sort_key_from(all, 0, row@, ctx@, old(st)@, seq![]),
            model == projection_model::sort_key_from(
                all,
                i as int,
                row@,
                ctx@,
                st@,
                value::values_view(out@),
            ),
        decreases order_by.len() - i,
    {
        broadcast use crate::exec::poll_laws::group_polls;

        reveal(projection_model::sort_key_from);
        assert(all[i as int] == (order_by@[i as int].0@, order_by@[i as int].1));
        match eval::eval(&order_by[i].0, row, ctx, st) {
            Err(e) => {
                return Err(e);
            },
            Ok(v) => {
                assert(value::values_view(out@.push(v)) =~= value::values_view(out@).push(v@));
                out.push(v);
            },
        }
        i += 1;
    }
    reveal(projection_model::sort_key_from);
    Ok(out)
}

fn order_sort_keys(
    a: &Vec<Value>,
    b: &Vec<Value>,
    order_by: &Vec<(BoundExpr, bool)>,
) -> (r: Order)
    ensures
        r == projection_model::sort_keys_order(
            value::values_view(a@),
            value::values_view(b@),
            projection_model::directions(bound::bound_expr_bools_view(order_by@)),
            0,
        ),
{
    let ghost x = value::values_view(a@);
    let ghost y = value::values_view(b@);
    let ghost d = projection_model::directions(bound::bound_expr_bools_view(order_by@));
    let mut i: usize = 0;
    while i < order_by.len() && i < a.len() && i < b.len()
        invariant
            i <= order_by.len(),
            i <= a.len(),
            i <= b.len(),
            x == value::values_view(a@),
            y == value::values_view(b@),
            d == projection_model::directions(bound::bound_expr_bools_view(order_by@)),
            projection_model::sort_keys_order(x, y, d, 0) == projection_model::sort_keys_order(x, y, d, i as int),
        decreases order_by.len() - i,
    {
        assert(x[i as int] == a@[i as int]@);
        assert(y[i as int] == b@[i as int]@);
        assert(d[i as int] == order_by@[i as int].1);
        let order = a[i].sorted_against(&b[i]);
        let turned = if order_by[i].1 {
            order.flip()
        } else {
            order
        };
        if turned != Order::Equal {
            return turned;
        }
        i += 1;
    }
    Order::Equal
}

fn put_sorted(sorted: &mut Vec<SortedRow>, item: SortedRow, order_by: &Vec<(BoundExpr, bool)>)
    ensures
        sorted_view(final(sorted)@) == sorted_view(old(sorted)@).insert(
            projection_model::slot_for(
                sorted_view(old(sorted)@),
                item@.key,
                projection_model::directions(bound::bound_expr_bools_view(order_by@)),
                old(sorted)@.len(),
            ),
            item@,
        ),
{
    let ghost before = sorted_view(sorted@);
    let ghost d = projection_model::directions(bound::bound_expr_bools_view(order_by@));
    let mut n: usize = sorted.len();
    while n > 0 && order_sort_keys(&sorted[n - 1].key, &item.key, order_by) == Order::Greater
        invariant
            n <= sorted.len(),
            sorted@ == old(sorted)@,
            before == sorted_view(sorted@),
            d == projection_model::directions(bound::bound_expr_bools_view(order_by@)),
            projection_model::slot_for(before, item@.key, d, sorted@.len()) == projection_model::slot_for(
                before,
                item@.key,
                d,
                n as nat,
            ),
        decreases n,
    {
        assert(before[n - 1] == sorted@[n - 1]@);
        n -= 1;
    }
    proof {
        if n > 0 {
            assert(before[n - 1] == sorted@[n - 1]@);
        }
    }
    sorted.insert(n, item);
    assert(sorted_view(sorted@) =~= before.insert(n as int, item@));
}

fn order_rows<G: GraphSource>(
    order_by: &Vec<(BoundExpr, bool)>,
    rows: Vec<Row>,
    ctx: &EvalCtx<G>,
    st: &mut EvalState,
) -> (r: Result<Vec<Row>, ExecError>)
    ensures
        matching::produces(
            r,
            old(st)@,
            final(st)@,
            projection_model::ordered_rows(
                bound::bound_expr_bools_view(order_by@),
                row::rows_view(rows@),
                ctx@,
                old(st)@,
            ),
        ),
{
    broadcast use crate::exec::poll_laws::group_polls;

    let ghost all = bound::bound_expr_bools_view(order_by@);
    let ghost rv = row::rows_view(rows@);
    let ghost d = projection_model::directions(all);
    reveal(projection_model::ordered_rows);
    if order_by.len() == 0 {
        return Ok(rows);
    }
    let ghost model = projection_model::keyed_from(all, rv, 0, ctx@, st@, seq![]);
    let mut keyed: Vec<SortedRow> = Vec::new();
    assert(sorted_view(keyed@) =~= seq![]);
    let mut i: usize = 0;
    while i < rows.len()
        invariant
            i <= rows.len(),
            order_by.len() > 0,
            all == bound::bound_expr_bools_view(order_by@),
            rv == row::rows_view(rows@),
            keyed@.len() == i,
            st@.budget.timed == old(st)@.budget.timed,
            st@.budget.polled >= old(st)@.budget.polled,
            model == projection_model::keyed_from(all, rv, 0, ctx@, old(st)@, seq![]),
            model == projection_model::keyed_from(
                all,
                rv,
                i as int,
                ctx@,
                st@,
                sorted_view(keyed@),
            ),
        decreases rows.len() - i,
    {
        broadcast use crate::exec::poll_laws::group_polls;

        reveal(projection_model::keyed_from);
        reveal(projection_model::ordered_rows);
        assert(rv[i as int] == rows@[i as int]@);
        match sort_key(order_by, &rows[i], ctx, st) {
            Err(e) => {
                return Err(e);
            },
            Ok(key) => {
                let item = SortedRow { key, row: rows[i].dup() };
                assert(sorted_view(keyed@.push(item)) =~= sorted_view(keyed@).push(item@));
                keyed.push(item);
            },
        }
        i += 1;
    }
    reveal(projection_model::keyed_from);
    let ghost ks = sorted_view(keyed@);
    let mut sorted: Vec<SortedRow> = Vec::new();
    assert(sorted_view(sorted@) =~= projection_model::sorted_rows(ks, d, 0));
    let mut j: usize = 0;
    while j < keyed.len()
        invariant
            j <= keyed.len(),
            all == bound::bound_expr_bools_view(order_by@),
            d == projection_model::directions(all),
            ks == sorted_view(keyed@),
            sorted_view(sorted@) == projection_model::sorted_rows(ks, d, j as nat),
        decreases keyed.len() - j,
    {
        assert(ks[j as int] == keyed@[j as int]@);
        let item = SortedRow { key: value::dup_values(&keyed[j].key), row: keyed[j].row.dup() };
        put_sorted(&mut sorted, item, order_by);
        j += 1;
    }
    let ghost ss = sorted_view(sorted@);
    let mut out: Vec<Row> = Vec::new();
    let mut k: usize = 0;
    while k < sorted.len()
        invariant
            k <= sorted.len(),
            ss == sorted_view(sorted@),
            out@.len() == k,
            forall|x: int| 0 <= x < k ==> (#[trigger] out@[x])@ == ss[x].row,
        decreases sorted.len() - k,
    {
        assert(ss[k as int] == sorted@[k as int]@);
        out.push(sorted[k].row.dup());
        k += 1;
    }
    assert(row::rows_view(out@) =~= projection_model::rows_of(ss));
    Ok(out)
}

fn bound_count<G: GraphSource>(count: &Option<BoundExpr>, ctx: &EvalCtx<G>, st: &mut EvalState) -> (r:
    Result<Option<u64>, ExecError>)
    ensures
        final(st)@.budget.timed == old(st)@.budget.timed,
        final(st)@.budget.polled >= old(st)@.budget.polled,
        ({
            let model = projection_model::page_bound(
                matching::optional_expr(*count),
                ctx@,
                old(st)@,
            );
            governor::timed_out(old(st)@.budget, model.spent.budget, r) || (match r {
                Ok(n) => model.result == Ok::<_, ExecErrorView>(n),
                Err(e) => model.result == Err::<Option<u64>, _>(e@),
            } && final(st)@ == model.spent)
        }),
{
    broadcast use crate::exec::poll_laws::group_polls;

    reveal(projection_model::page_bound);
    match count {
        None => Ok(None),
        Some(expr) => {
            let constant = Row::new();
            match eval::eval(expr, &constant, ctx, st) {
                Err(e) => Err(e),
                Ok(v) => match usize_bound(&v, expr.span(), ctx.floats) {
                    Ok(n) => Ok(Some(n)),
                    Err(e) => Err(e),
                },
            }
        },
    }
}

/// A non-negative integer.
fn usize_bound(value: &Value, span: Span, table: &FloatTable) -> (r: Result<u64, ExecError>)
    ensures
        r matches Ok(n) ==> value@ matches ValueView::Int(k) && k == n,
        r matches Err(e) ==> (value@ matches ValueView::Int(k) ==> k < 0) && projection_model::refused_bound(
            value@,
            span,
            table@,
        ) == Err::<Option<u64>, _>(e@),
{
    if let Value::Int(n) = value {
        if *n >= 0 {
            return Ok(*n as u64);
        }
    }
    match value.format(table, span) {
        Err(e) => Err(e),
        Ok(text) => Err(
            ExecError::InvalidArgument {
                message: text::join2(
                    "SKIP/LIMIT needs a non-negative integer, got ",
                    text.as_str(),
                ),
                span,
            },
        ),
    }
}

fn rows_between(rows: &Vec<Row>, from: usize, to: usize) -> (r: Vec<Row>)
    requires
        from <= to <= rows@.len(),
    ensures
        row::rows_view(r@) == row::rows_view(rows@).subrange(from as int, to as int),
{
    let ghost rv = row::rows_view(rows@);
    let mut out: Vec<Row> = Vec::new();
    let mut i: usize = from;
    while i < to
        invariant
            from <= i <= to <= rows.len(),
            rv == row::rows_view(rows@),
            out@.len() == i - from,
            forall|k: int| 0 <= k < i - from ==> (#[trigger] out@[k])@ == rv[from + k],
        decreases to - i,
    {
        assert(rv[i as int] == rows@[i as int]@);
        out.push(rows[i].dup());
        i += 1;
    }
    assert(row::rows_view(out@) =~= rv.subrange(from as int, to as int));
    out
}

fn capped(n: u64, len: usize) -> (r: usize)
    ensures
        r == projection_model::no_more_than(n, len as nat),
{
    if n > len as u64 {
        len
    } else {
        n as usize
    }
}

fn page_rows<G: GraphSource>(
    skip: &Option<BoundExpr>,
    limit: &Option<BoundExpr>,
    rows: Vec<Row>,
    ctx: &EvalCtx<G>,
    st: &mut EvalState,
) -> (r: Result<Vec<Row>, ExecError>)
    ensures
        matching::produces(
            r,
            old(st)@,
            final(st)@,
            projection_model::paged_rows(
                matching::optional_expr(*skip),
                matching::optional_expr(*limit),
                row::rows_view(rows@),
                ctx@,
                old(st)@,
            ),
        ),
{
    broadcast use crate::exec::poll_laws::group_polls;

    reveal(projection_model::paged_rows);
    let ghost rv = row::rows_view(rows@);
    let rest = match bound_count(skip, ctx, st) {
        Err(e) => {
            return Err(e);
        },
        Ok(None) => rows,
        Ok(Some(n)) => {
            let from: usize = capped(n, rows.len());
            let ghost skipped = rv.skip(from as int);
            assert(skipped =~= rv.subrange(from as int, rv.len() as int));
            rows_between(&rows, from, rows.len())
        },
    };
    let ghost rest_view = row::rows_view(rest@);
    match bound_count(limit, ctx, st) {
        Err(e) => Err(e),
        Ok(None) => Ok(rest),
        Ok(Some(n)) => {
            let to: usize = capped(n, rest.len());
            let ghost taken = rest_view.take(to as int);
            assert(taken =~= rest_view.subrange(0, to as int));
            Ok(rows_between(&rest, 0, to))
        },
    }
}

/// The rows that a `WITH` or `RETURN` makes of `rows`.
pub(crate) fn project<G: GraphSource>(
    rows: &Vec<Row>,
    p: &BoundProjection,
    is_with: bool,
    ctx: &EvalCtx<G>,
    st: &mut EvalState,
) -> (r: Result<Vec<Row>, ExecError>)
    requires
        projection_model::grouping_is_sound(p@),
    ensures
        matching::produces(
            r,
            old(st)@,
            final(st)@,
            projection_model::projected(p@, is_with, row::rows_view(rows@), ctx@, old(st)@),
        ),
{
    broadcast use crate::exec::poll_laws::group_polls;

    reveal(projection_model::projected);
    let mut merged = match merge_rows(p, rows, ctx, st) {
        Err(e) => {
            return Err(e);
        },
        Ok(merged) => merged,
    };
    // WITH ... WHERE filters in the union scope.
    if is_with {
        merged = match filter_rows(&merged, &p.where_clause, ctx, st) {
            Err(e) => {
                return Err(e);
            },
            Ok(kept) => kept,
        };
    }
    // DISTINCT over the projected values.
    if p.distinct {
        merged = keep_distinct(&p.items, &merged);
    }
    // ORDER BY in the union scope, on the global sort order.
    merged = match order_rows(&p.order_by, merged, ctx, st) {
        Err(e) => {
            return Err(e);
        },
        Ok(ordered) => ordered,
    };
    // SKIP / LIMIT (constants or parameters).
    page_rows(&p.skip, &p.limit, merged, ctx, st)
}

} // verus!
