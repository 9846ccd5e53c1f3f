//! What the order of values makes of groups and of sorted rows as a whole.

use vstd::prelude::*;

use crate::bind::bound::BoundProjectionItemView;
use crate::exec::order_laws;
use crate::exec::projection_laws;
use crate::exec::projection_model::{self, Group, Keyed};
use crate::exec::semantics::{Env, Spent};
use crate::exec::value::{Order, ValueView};

verus! {

// --- Groups -----------------------------------------------------------------------------------------

proof fn lemma_keys_flip(a: Seq<ValueView>, b: Seq<ValueView>, i: int)
    requires
        0 <= i,
    ensures
        projection_model::keys_order(b, a, i) == projection_model::keys_order(a, b, i).flipped(),
    decreases a.len() - i,
{
    if i < a.len() && i < b.len() {
        order_laws::sort_order_is_antisymmetric(a[i], b[i]);
        lemma_keys_flip(a, b, i + 1);
    }
}

proof fn lemma_keys_compose(a: Seq<ValueView>, b: Seq<ValueView>, c: Seq<ValueView>, i: int)
    requires
        0 <= i <= a.len(),
        i <= b.len(),
        i <= c.len(),
    ensures
        order_laws::composes(
            projection_model::keys_order(a, b, i),
            projection_model::keys_order(b, c, i),
            projection_model::keys_order(a, c, i),
        ),
    decreases a.len() - i,
{
    if i < a.len() && i < b.len() && i < c.len() {
        order_laws::sort_order_is_transitive(a[i], b[i], c[i]);
        lemma_keys_compose(a, b, c, i + 1);
    }
}

/// Whether one grouping key comes before another.
#[verifier::opaque]
pub open spec fn comes_before(a: Seq<ValueView>, b: Seq<ValueView>) -> bool {
    projection_model::keys_order(a, b, 0) == Order::Less
}

proof fn lemma_comes_before(a: Seq<ValueView>, b: Seq<ValueView>, c: Seq<ValueView>)
    requires
        comes_before(a, b),
        comes_before(b, c),
    ensures
        comes_before(a, c),
{
    reveal(comes_before);
    lemma_keys_compose(a, b, c, 0);
}

/// Whether each group's key comes before those of the groups behind it, so that
/// no two groups have equivalent keys.
pub open spec fn keys_ascend(groups: Seq<Group>) -> bool {
    forall|i: int, j: int|
        0 <= i < j < groups.len() ==> comes_before(
            (#[trigger] groups[i]).key,
            (#[trigger] groups[j]).key,
        )
}

proof fn lemma_inserted_ascends(groups: Seq<Group>, fresh: Group, i: int)
    requires
        0 <= i <= groups.len(),
        keys_ascend(groups),
        forall|k: int| 0 <= k < i ==> comes_before((#[trigger] groups[k]).key, fresh.key),
        i < groups.len() ==> comes_before(fresh.key, groups[i].key),
    ensures
        keys_ascend(groups.insert(i, fresh)),
{
    let after = groups.insert(i, fresh);
    assert forall|j: int, k: int| 0 <= j < k < after.len() implies comes_before(
        (#[trigger] after[j]).key,
        (#[trigger] after[k]).key,
    ) by {
        if k < i {
            assert(after[j] == groups[j] && after[k] == groups[k]);
        } else if k == i {
            assert(after[j] == groups[j] && after[k] == fresh);
        } else {
            assert(after[k] == groups[k - 1]);
            if j < i {
                assert(after[j] == groups[j]);
            } else if j == i {
                assert(after[j] == fresh);
                if k - 1 > i {
                    lemma_comes_before(fresh.key, groups[i].key, groups[k - 1].key);
                }
            } else {
                assert(after[j] == groups[j - 1]);
            }
        }
    }
}

proof fn lemma_found(groups: Seq<Group>, key: Seq<ValueView>, i: int)
    requires
        0 <= i < groups.len(),
    ensures
        projection_model::keys_order(groups[i].key, key, 0) == Order::Less ==> comes_before(
            groups[i].key,
            key,
        ),
        projection_model::keys_order(groups[i].key, key, 0) == Order::Greater ==> comes_before(
            key,
            groups[i].key,
        ),
{
    reveal(comes_before);
    lemma_keys_flip(groups[i].key, key, 0);
}

proof fn lemma_with_row_ascends(
    groups: Seq<Group>,
    key: Seq<ValueView>,
    row: Map<u32, ValueView>,
    i: int,
)
    requires
        0 <= i <= groups.len(),
        keys_ascend(groups),
        forall|k: int| 0 <= k < i ==> comes_before((#[trigger] groups[k]).key, key),
    ensures
        keys_ascend(projection_model::with_row(groups, key, row, i)),
    decreases groups.len() - i,
{
    let fresh = Group { key, rows: seq![row] };
    let after = projection_model::with_row(groups, key, row, i);
    if i < groups.len() {
        lemma_found(groups, key, i);
        match projection_model::keys_order(groups[i].key, key, 0) {
            Order::Less => {
                lemma_with_row_ascends(groups, key, row, i + 1);
            },
            Order::Equal => {
                assert forall|j: int, k: int| 0 <= j < k < after.len() implies comes_before(
                    (#[trigger] after[j]).key,
                    (#[trigger] after[k]).key,
                ) by {
                    assert(after[j].key == groups[j].key);
                    assert(after[k].key == groups[k].key);
                }
            },
            Order::Greater => {
                lemma_inserted_ascends(groups, fresh, i);
            },
        }
    } else {
        lemma_inserted_ascends(groups, fresh, i);
        assert(groups.insert(i, fresh) =~= groups.push(fresh));
    }
}

/// Grouping keeps the groups in the order of their keys, one group for each: rows
/// with equivalent keys are in one group, whatever order they come in.
pub proof fn groups_have_different_keys(
    items: Seq<BoundProjectionItemView>,
    indices: Seq<usize>,
    rows: Seq<Map<u32, ValueView>>,
    i: int,
    env: Env,
    spent: Spent,
    before: Seq<Group>,
)
    requires
        0 <= i <= rows.len(),
        keys_ascend(before),
        projection_model::groups_from(items, indices, rows, i, env, spent, before).result is Ok,
    ensures
        keys_ascend(
            projection_model::groups_from(items, indices, rows, i, env, spent, before).result->Ok_0,
        ),
    decreases rows.len() - i,
{
    reveal(projection_model::groups_from);
    if i < rows.len() {
        let k = projection_model::key_from(items, indices, 0, rows[i], env, spent, seq![]);
        lemma_with_row_ascends(before, k.result->Ok_0, rows[i], 0);
        groups_have_different_keys(
            items,
            indices,
            rows,
            i + 1,
            env,
            k.spent,
            projection_model::with_row(before, k.result->Ok_0, rows[i], 0),
        );
    }
}

// --- Sorted rows ------------------------------------------------------------------------------------

proof fn lemma_sort_keys_compose(
    a: Seq<ValueView>,
    b: Seq<ValueView>,
    c: Seq<ValueView>,
    descending: Seq<bool>,
    i: int,
)
    requires
        0 <= i,
        a.len() == descending.len(),
        b.len() == descending.len(),
        c.len() == descending.len(),
    ensures
        order_laws::composes(
            projection_model::sort_keys_order(a, b, descending, i),
            projection_model::sort_keys_order(b, c, descending, i),
            projection_model::sort_keys_order(a, c, descending, i),
        ),
    decreases descending.len() - i,
{
    if i < descending.len() {
        order_laws::sort_order_is_transitive(a[i], b[i], c[i]);
        lemma_sort_keys_compose(a, b, c, descending, i + 1);
    }
}

/// No row of sorted rows comes before a row behind it, however far.
pub proof fn sorting_orders_every_pair(
    rows: Seq<Keyed>,
    descending: Seq<bool>,
    n: nat,
    i: int,
    j: int,
)
    requires
        n <= rows.len(),
        forall|k: int| 0 <= k < rows.len() ==> (#[trigger] rows[k]).key.len() == descending.len(),
        0 <= i < j < projection_model::sorted_rows(rows, descending, n).len(),
    ensures
        ({
            let sorted = projection_model::sorted_rows(rows, descending, n);
            projection_model::sort_keys_order(sorted[i].key, sorted[j].key, descending, 0)
                != Order::Greater
        }),
    decreases j - i,
{
    let sorted = projection_model::sorted_rows(rows, descending, n);
    projection_laws::sorting_puts_rows_in_order(rows, descending, n);
    lemma_key_lengths(rows, descending, n);
    assert(projection_laws::in_order_at(sorted, descending, j - 1));
    if i + 1 < j {
        sorting_orders_every_pair(rows, descending, n, i, j - 1);
        lemma_sort_keys_compose(sorted[i].key, sorted[j - 1].key, sorted[j].key, descending, 0);
    }
}

proof fn lemma_key_lengths(rows: Seq<Keyed>, descending: Seq<bool>, n: nat)
    requires
        n <= rows.len(),
        forall|k: int| 0 <= k < rows.len() ==> (#[trigger] rows[k]).key.len() == descending.len(),
    ensures
        forall|k: int|
            0 <= k < projection_model::sorted_rows(rows, descending, n).len() ==> (
            #[trigger] projection_model::sorted_rows(rows, descending, n)[k]).key.len()
                == descending.len(),
{
    projection_laws::sorting_keeps_every_row(rows, descending, n);
    broadcast use vstd::seq_lib::group_to_multiset_ensures;

    let sorted = projection_model::sorted_rows(rows, descending, n);
    assert forall|k: int| 0 <= k < sorted.len() implies (#[trigger] sorted[k]).key.len()
        == descending.len() by {
        assert(sorted.contains(sorted[k]));
        assert(sorted.to_multiset().count(sorted[k]) > 0);
        assert(rows.take(n as int).contains(sorted[k]));
        let at = rows.take(n as int).index_of(sorted[k]);
        assert(rows[at] == sorted[k]);
    }
}

} // verus!
