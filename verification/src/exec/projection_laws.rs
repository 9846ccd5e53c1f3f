//! What `WITH` and `RETURN` keep: sorting orders and loses nothing, `DISTINCT`
//! keeps one of each, paging bounds, grouping covers every row.

use vstd::prelude::*;

use crate::bind::bound::{BoundExprView, BoundProjectionItemView};
use crate::exec::order_laws;
use crate::exec::projection_model::{self, Group, Keyed};
use crate::exec::semantics::{Env, Spent};
use crate::exec::value::{Order, ValueView};

verus! {

// --- Sorting ----------------------------------------------------------------------------------------

/// Whether the row at `i` is not after its successor.
pub open spec fn in_order_at(rows: Seq<Keyed>, descending: Seq<bool>, i: int) -> bool {
    projection_model::sort_keys_order(rows[i].key, rows[i + 1].key, descending, 0) != Order::Greater
}

/// Whether each row but the last is not after its successor.
pub open spec fn neighbours_in_order(rows: Seq<Keyed>, descending: Seq<bool>) -> bool {
    forall|i: int| 0 <= i < rows.len() - 1 ==> #[trigger] in_order_at(rows, descending, i)
}

proof fn lemma_sort_keys_flip(
    a: Seq<ValueView>,
    b: Seq<ValueView>,
    descending: Seq<bool>,
    i: int,
)
    requires
        0 <= i,
    ensures
        projection_model::sort_keys_order(b, a, descending, i) == projection_model::sort_keys_order(a, b, descending, i).flipped(),
    decreases descending.len() - i,
{
    if i < descending.len() && i < a.len() && i < b.len() {
        order_laws::sort_order_is_antisymmetric(a[i], b[i]);
        lemma_sort_keys_flip(a, b, descending, i + 1);
    }
}

proof fn lemma_slot(sorted: Seq<Keyed>, key: Seq<ValueView>, descending: Seq<bool>, n: nat)
    requires
        n <= sorted.len(),
    ensures
        0 <= projection_model::slot_for(sorted, key, descending, n) <= n,
        projection_model::slot_for(sorted, key, descending, n) > 0 ==> projection_model::sort_keys_order(
            sorted[projection_model::slot_for(sorted, key, descending, n) - 1].key,
            key,
            descending,
            0,
        ) != Order::Greater,
        projection_model::slot_for(sorted, key, descending, n) < n ==> projection_model::sort_keys_order(
            sorted[projection_model::slot_for(sorted, key, descending, n)].key,
            key,
            descending,
            0,
        ) == Order::Greater,
    decreases n,
{
    if n > 0 && projection_model::sort_keys_order(
        sorted[n - 1].key,
        key,
        descending,
        0,
    ) == Order::Greater {
        lemma_slot(sorted, key, descending, (n - 1) as nat);
    }
}

/// Sorted rows are in order: no row comes after its successor.
pub proof fn sorting_puts_rows_in_order(rows: Seq<Keyed>, descending: Seq<bool>, n: nat)
    requires
        n <= rows.len(),
    ensures
        neighbours_in_order(projection_model::sorted_rows(rows, descending, n), descending),
    decreases n,
{
    if n > 0 {
        sorting_puts_rows_in_order(rows, descending, (n - 1) as nat);
        let before = projection_model::sorted_rows(rows, descending, (n - 1) as nat);
        let key = rows[n - 1].key;
        let at = projection_model::slot_for(before, key, descending, before.len());
        let after = projection_model::sorted_rows(rows, descending, n);
        lemma_slot(before, key, descending, before.len());
        assert(after == before.insert(at, rows[n - 1]));
        assert forall|i: int| 0 <= i < after.len() - 1 implies #[trigger] in_order_at(
            after,
            descending,
            i,
        ) by {
            if i + 1 < at {
                assert(after[i] == before[i]);
                assert(after[i + 1] == before[i + 1]);
                assert(in_order_at(before, descending, i));
            } else if i + 1 == at {
                assert(after[i] == before[at - 1]);
            } else if i == at {
                assert(after[i + 1] == before[at]);
                lemma_sort_keys_flip(before[at].key, key, descending, 0);
            } else {
                assert(after[i] == before[i - 1]);
                assert(after[i + 1] == before[i]);
                assert(in_order_at(before, descending, i - 1));
            }
        }
    }
}

proof fn lemma_inserted_multiset<T>(s: Seq<T>, at: int, x: T)
    requires
        0 <= at <= s.len(),
    ensures
        s.insert(at, x).to_multiset() == s.to_multiset().insert(x),
{
    let after = s.insert(at, x);
    broadcast use vstd::seq_lib::group_to_multiset_ensures;
    assert(after.remove(at) =~= s);
    assert(after[at] == x);
    assert(after.contains(x));
    vstd::seq_lib::to_multiset_remove(after, at);
    assert(after.to_multiset().count(x) > 0);
    assert(after.to_multiset() =~= s.to_multiset().insert(x));
}

/// Sorting neither loses nor invents a row.
pub proof fn sorting_keeps_every_row(rows: Seq<Keyed>, descending: Seq<bool>, n: nat)
    requires
        n <= rows.len(),
    ensures
        projection_model::sorted_rows(rows, descending, n).to_multiset() == rows.take(n as int).to_multiset(),
    decreases n,
{
    if n == 0 {
        assert(rows.take(0) =~= projection_model::sorted_rows(rows, descending, 0));
    } else {
        sorting_keeps_every_row(rows, descending, (n - 1) as nat);
        let before = projection_model::sorted_rows(rows, descending, (n - 1) as nat);
        let at = projection_model::slot_for(before, rows[n - 1].key, descending, before.len());
        lemma_slot(before, rows[n - 1].key, descending, before.len());
        lemma_inserted_multiset(before, at, rows[n - 1]);
        assert(rows.take(n as int) =~= rows.take(n - 1).push(rows[n - 1]));
        vstd::seq_lib::to_multiset_build(rows.take(n - 1), rows[n - 1]);
    }
}

/// Sorting is stable: rows that are in order, rows of equal keys among them, stay
/// as they are.
pub proof fn sorting_leaves_ordered_rows_alone(rows: Seq<Keyed>, descending: Seq<bool>, n: nat)
    requires
        n <= rows.len(),
        neighbours_in_order(rows, descending),
    ensures
        projection_model::sorted_rows(rows, descending, n) == rows.take(n as int),
    decreases n,
{
    if n == 0 {
        assert(rows.take(0) =~= projection_model::sorted_rows(rows, descending, 0));
    } else {
        sorting_leaves_ordered_rows_alone(rows, descending, (n - 1) as nat);
        let before = rows.take(n - 1);
        if n >= 2 {
            assert(before[n - 2] == rows[n - 2]);
            assert(in_order_at(rows, descending, n - 2));
        }
        assert(
            projection_model::slot_for(before, rows[n - 1].key, descending, before.len()) == n - 1
        );
        assert(before.insert(n - 1, rows[n - 1]) =~= rows.take(n as int));
    }
}

/// Sorting again changes nothing.
pub proof fn sorting_again_changes_nothing(rows: Seq<Keyed>, descending: Seq<bool>)
    ensures
        ({
            let once = projection_model::sorted_rows(rows, descending, rows.len());
            projection_model::sorted_rows(once, descending, once.len()) == once
        }),
{
    let once = projection_model::sorted_rows(rows, descending, rows.len());
    sorting_puts_rows_in_order(rows, descending, rows.len());
    sorting_leaves_ordered_rows_alone(once, descending, once.len());
    assert(once.take(once.len() as int) =~= once);
}

// --- Distinctness -----------------------------------------------------------------------------------

/// Whether two rows project to equivalent values.
pub open spec fn project_alike(
    items: Seq<BoundProjectionItemView>,
    a: Map<u32, ValueView>,
    b: Map<u32, ValueView>,
) -> bool {
    projection_model::keys_order(
        projection_model::output_of(items, a),
        projection_model::output_of(items, b),
        0,
    ) == Order::Equal
}

/// No two rows that `DISTINCT` keeps are alike, and every row is alike one that
/// is kept.
pub proof fn distinct_rows_are_one_of_each(
    items: Seq<BoundProjectionItemView>,
    rows: Seq<Map<u32, ValueView>>,
    n: nat,
)
    requires
        n <= rows.len(),
    ensures
        forall|i: int, j: int|
            0 <= i < j < projection_model::distinct_rows(items, rows, n).len() ==> !project_alike(
                items,
                #[trigger] projection_model::distinct_rows(items, rows, n)[i],
                #[trigger] projection_model::distinct_rows(items, rows, n)[j],
            ),
        forall|k: int|
            0 <= k < n ==> projection_model::repeats(
                items,
                projection_model::distinct_rows(items, rows, n),
                #[trigger] rows[k],
            ),
        forall|i: int|
            0 <= i < projection_model::distinct_rows(items, rows, n).len() ==> rows.contains(
                #[trigger] projection_model::distinct_rows(items, rows, n)[i],
            ),
    decreases n,
{
    if n > 0 {
        distinct_rows_are_one_of_each(items, rows, (n - 1) as nat);
        let before = projection_model::distinct_rows(items, rows, (n - 1) as nat);
        let after = projection_model::distinct_rows(items, rows, n);
        let row = rows[n - 1];
        if !projection_model::repeats(items, before, row) {
            assert(after == before.push(row));
            assert forall|i: int, j: int| 0 <= i < j < after.len() implies !project_alike(
                items,
                #[trigger] after[i],
                #[trigger] after[j],
            ) by {
                assert(after[i] == before[i]);
                if j < before.len() {
                    assert(after[j] == before[j]);
                }
            }
            lemma_alike_itself(projection_model::output_of(items, row), 0);
            assert forall|k: int| 0 <= k < n implies projection_model::repeats(
                items,
                after,
                #[trigger] rows[k],
            ) by {
                if k < n - 1 {
                    assert(projection_model::repeats(items, before, rows[k]));
                    let i = choose|i: int|
                        0 <= i < before.len() && projection_model::keys_order(
                            projection_model::output_of(items, #[trigger] before[i]),
                            projection_model::output_of(items, rows[k]),
                            0,
                        ) == Order::Equal;
                    assert(after[i] == before[i]);
                } else {
                    assert(after[before.len() as int] == row);
                }
            }
            assert forall|i: int| 0 <= i < after.len() implies rows.contains(
                #[trigger] after[i],
            ) by {
                if i < before.len() {
                    assert(after[i] == before[i]);
                } else {
                    assert(after[i] == rows[n - 1]);
                }
            }
        }
    }
}

proof fn lemma_alike_itself(key: Seq<ValueView>, i: int)
    requires
        0 <= i,
    ensures
        projection_model::keys_order(key, key, i) == Order::Equal,
    decreases key.len() - i,
{
    if i < key.len() {
        order_laws::a_value_is_equivalent_to_itself(key[i]);
        lemma_alike_itself(key, i + 1);
    }
}

// --- Paging -----------------------------------------------------------------------------------------

/// A page is a stretch of the rows: nothing of what is skipped, and no more than
/// the limit.
pub proof fn a_page_is_a_stretch_of_the_rows(
    skip: Option<BoundExprView>,
    limit: Option<BoundExprView>,
    rows: Seq<Map<u32, ValueView>>,
    env: Env,
    spent: Spent,
)
    requires
        projection_model::paged_rows(skip, limit, rows, env, spent).result is Ok,
    ensures
        ({
            let page = projection_model::paged_rows(skip, limit, rows, env, spent).result->Ok_0;
            let first = projection_model::page_bound(skip, env, spent);
            let most = projection_model::page_bound(limit, env, first.spent);
            let from = match first.result->Ok_0 {
                Some(n) => projection_model::no_more_than(n, rows.len()),
                None => 0,
            };
            &&& first.result is Ok
            &&& most.result is Ok
            &&& from + page.len() <= rows.len()
            &&& page == rows.subrange(from, from + page.len())
            &&& most.result->Ok_0 matches Some(n) ==> page.len() <= n
        }),
{
    reveal(projection_model::paged_rows);
    let page = projection_model::paged_rows(skip, limit, rows, env, spent).result->Ok_0;
    let first = projection_model::page_bound(skip, env, spent);
    let from = match first.result->Ok_0 {
        Some(n) => projection_model::no_more_than(n, rows.len()),
        None => 0,
    };
    assert(page =~= rows.subrange(from, from + page.len()));
}

// --- Grouping ---------------------------------------------------------------------------------------

/// How many rows there are in the first `n` groups.
pub open spec fn rows_in(groups: Seq<Group>, n: nat) -> nat
    decreases n,
{
    if n == 0 || n > groups.len() {
        0
    } else {
        rows_in(groups, (n - 1) as nat) + groups[n - 1].rows.len()
    }
}

/// Whether no group is empty.
pub open spec fn none_is_empty(groups: Seq<Group>) -> bool {
    forall|i: int| 0 <= i < groups.len() ==> (#[trigger] groups[i]).rows.len() > 0
}

proof fn lemma_rows_in_same(a: Seq<Group>, b: Seq<Group>, n: nat)
    requires
        n <= a.len(),
        n <= b.len(),
        forall|i: int| 0 <= i < n ==> a[i] == b[i],
    ensures
        rows_in(a, n) == rows_in(b, n),
    decreases n,
{
    if n > 0 {
        lemma_rows_in_same(a, b, (n - 1) as nat);
    }
}

proof fn lemma_rows_in_updated(groups: Seq<Group>, at: int, g: Group, n: nat)
    requires
        0 <= at < n <= groups.len(),
    ensures
        rows_in(groups.update(at, g), n) == rows_in(groups, n) - groups[at].rows.len()
            + g.rows.len(),
    decreases n,
{
    if n - 1 == at {
        lemma_rows_in_same(groups.update(at, g), groups, at as nat);
    } else {
        lemma_rows_in_updated(groups, at, g, (n - 1) as nat);
    }
}

proof fn lemma_rows_in_inserted(groups: Seq<Group>, at: int, g: Group, n: nat)
    requires
        0 <= at <= n <= groups.len(),
    ensures
        rows_in(groups.insert(at, g), n + 1) == rows_in(groups, n) + g.rows.len(),
    decreases n,
{
    let after = groups.insert(at, g);
    if n == at {
        lemma_rows_in_same(after, groups, n);
        assert(after[n as int] == g);
    } else {
        lemma_rows_in_inserted(groups, at, g, (n - 1) as nat);
        assert(after[n as int] == groups[n - 1]);
    }
}

proof fn lemma_with_row(groups: Seq<Group>, key: Seq<ValueView>, row: Map<u32, ValueView>, i: int)
    requires
        0 <= i <= groups.len(),
        none_is_empty(groups),
    ensures
        rows_in(projection_model::with_row(groups, key, row, i), projection_model::with_row(groups, key, row, i).len()) == rows_in(
            groups,
            groups.len(),
        ) + 1,
        none_is_empty(projection_model::with_row(groups, key, row, i)),
    decreases groups.len() - i,
{
    let fresh = Group { key, rows: seq![row] };
    if i >= groups.len() {
        assert(groups.push(fresh) =~= groups.insert(groups.len() as int, fresh));
        lemma_rows_in_inserted(groups, groups.len() as int, fresh, groups.len());
    } else {
        match projection_model::keys_order(groups[i].key, key, 0) {
            Order::Less => {
                lemma_with_row(groups, key, row, i + 1);
            },
            Order::Equal => {
                let g = Group { key: groups[i].key, rows: groups[i].rows.push(row) };
                lemma_rows_in_updated(groups, i, g, groups.len());
            },
            Order::Greater => {
                lemma_rows_in_inserted(groups, i, fresh, groups.len());
            },
        }
    }
}

/// Grouping puts every row into one group, and makes no empty group.
pub proof fn grouping_covers_every_row(
    items: Seq<BoundProjectionItemView>,
    indices: Seq<usize>,
    rows: Seq<Map<u32, ValueView>>,
    i: int,
    env: Env,
    spent: Spent,
    before: Seq<Group>,
)
    requires
        0 <= i <= rows.len(),
        none_is_empty(before),
        projection_model::groups_from(items, indices, rows, i, env, spent, before).result is Ok,
    ensures
        ({
            let groups = projection_model::groups_from(
                items,
                indices,
                rows,
                i,
                env,
                spent,
                before,
            ).result->Ok_0;
            &&& rows_in(groups, groups.len()) == rows_in(before, before.len()) + rows.len() - i
            &&& none_is_empty(groups)
        }),
    decreases rows.len() - i,
{
    reveal(projection_model::groups_from);
    if i < rows.len() {
        let k = projection_model::key_from(items, indices, 0, rows[i], env, spent, seq![]);
        lemma_with_row(before, k.result->Ok_0, rows[i], 0);
        grouping_covers_every_row(
            items,
            indices,
            rows,
            i + 1,
            env,
            k.spent,
            projection_model::with_row(before, k.result->Ok_0, rows[i], 0),
        );
    }
}

/// Without aggregation a projection makes one row for each.
pub proof fn projecting_makes_one_row_for_each(
    items: Seq<BoundProjectionItemView>,
    rows: Seq<Map<u32, ValueView>>,
    i: int,
    env: Env,
    spent: Spent,
    out: Seq<Map<u32, ValueView>>,
)
    requires
        0 <= i <= rows.len(),
        projection_model::plain_rows_from(items, rows, i, env, spent, out).result is Ok,
    ensures
        projection_model::plain_rows_from(
            items,
            rows,
            i,
            env,
            spent,
            out,
        ).result->Ok_0.len() == out.len()
            + rows.len() - i,
    decreases rows.len() - i,
{
    reveal(projection_model::plain_rows_from);
    if i < rows.len() {
        let p = projection_model::pushed(
            projection_model::projected_items_from(items, 0, rows[i], env, spent, rows[i]),
            out,
        );
        projecting_makes_one_row_for_each(items, rows, i + 1, env, p.spent, p.result->Ok_0);
    }
}

/// With aggregation a projection makes one row for each group.
pub proof fn aggregating_makes_one_row_for_each_group(
    items: Seq<BoundProjectionItemView>,
    groups: Seq<Group>,
    i: int,
    env: Env,
    spent: Spent,
    out: Seq<Map<u32, ValueView>>,
)
    requires
        0 <= i <= groups.len(),
        projection_model::group_rows_from(items, groups, i, env, spent, out).result is Ok,
    ensures
        projection_model::group_rows_from(
            items,
            groups,
            i,
            env,
            spent,
            out,
        ).result->Ok_0.len() == out.len()
            + groups.len() - i,
    decreases groups.len() - i,
{
    reveal(projection_model::group_rows_from);
    if i < groups.len() {
        let first = projection_model::representative_of(groups[i]);
        let p = projection_model::pushed(
            projection_model::grouped_items_from(
                items,
                0,
                groups[i].rows,
                first,
                env,
                spent,
                first,
            ),
            out,
        );
        aggregating_makes_one_row_for_each_group(
            items,
            groups,
            i + 1,
            env,
            p.spent,
            p.result->Ok_0,
        );
    }
}

} // verus!
