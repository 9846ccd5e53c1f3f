//! What `WITH` and `RETURN` are for: which rows come out, with which values and in
//! which order.

use vstd::prelude::*;

use crate::bind::bound::{BoundExprView, BoundProjectionItemView, BoundProjectionView};
use crate::exec::compare;
use crate::exec::exact;
use crate::exec::expression_laws;
use crate::exec::fault::ExecErrorView;
use crate::exec::group_laws;
use crate::exec::inspect;
use crate::exec::operator_laws;
use crate::exec::projection_laws;
use crate::exec::projection_model::{self, Keyed};
use crate::exec::semantics::{self, Env, Spent};
use crate::exec::value::{Order, ValueView};
use crate::exec::walk;

verus! {

// --- Order ------------------------------------------------------------------------------------------

/// Integers sort by value, texts by their first difference, truth values with false
/// first.
pub proof fn values_of_a_kind_sort_by_value(
    m: i64,
    n: i64,
    s: Seq<char>,
    t: Seq<char>,
    a: bool,
    b: bool,
)
    ensures
        compare::sort_order(ValueView::Int(m), ValueView::Int(n)) == Order::Less <==> m < n,
        compare::sort_order(ValueView::Int(m), ValueView::Int(n)) == Order::Equal <==> m == n,
        compare::sort_order(ValueView::String(s), ValueView::String(t)) == Order::Less
            <==> operator_laws::text_before(s, t),
        compare::sort_order(ValueView::String(s), ValueView::String(t)) == Order::Equal <==> s == t,
        compare::sort_order(ValueView::Bool(a), ValueView::Bool(b)) == Order::Less <==> !a && b,
        compare::sort_order(ValueView::Bool(a), ValueView::Bool(b)) == Order::Equal <==> a == b,
{
    exact::lemma_ints(m as int, n as int);
    inspect::lemma_text_order_equal(s, t);
    assert(s.take(0) =~= t.take(0));
    operator_laws::lemma_text_before(s, t, 0);
    operator_laws::lemma_not_both_before(s, t);
}

/// What comes of which kind: maps, nodes, relationships, lists, paths, texts, truth
/// values, numbers and null, in that order.
pub open spec fn place_of_kind(v: ValueView) -> int {
    match v {
        ValueView::Mapping(_) => 1,
        ValueView::Node(_) => 2,
        ValueView::Relationship(_) => 3,
        ValueView::List(_) => 4,
        ValueView::Path(_) => 5,
        ValueView::String(_) | ValueView::Stored(_) => 6,
        ValueView::Bool(_) => 7,
        ValueView::Int(_) | ValueView::Float(_) => 8,
        ValueView::Null => 9,
    }
}

/// Values of different kinds sort by their kinds.
pub proof fn values_sort_by_kind(a: ValueView, b: ValueView)
    requires
        place_of_kind(a) < place_of_kind(b),
    ensures
        compare::sort_order(a, b) == Order::Less,
        compare::sort_order(b, a) == Order::Greater,
{
}

/// Rows sort by the first of their keys that differ, turned round where the order is
/// descending.
pub proof fn the_first_difference_decides(
    a: Seq<ValueView>,
    b: Seq<ValueView>,
    descending: Seq<bool>,
    i: int,
    k: int,
)
    requires
        a.len() == descending.len(),
        b.len() == descending.len(),
        0 <= i <= k <= descending.len(),
        forall|j: int|
            i <= j < k ==> compare::sort_order(#[trigger] a[j], b[j]) == Order::Equal,
        k < descending.len() ==> compare::sort_order(a[k], b[k]) != Order::Equal,
    ensures
        k == descending.len() ==> projection_model::sort_keys_order(a, b, descending, i)
            == Order::Equal,
        k < descending.len() && !descending[k] ==> (projection_model::sort_keys_order(
            a,
            b,
            descending,
            i,
        ) == Order::Less <==> compare::sort_order(a[k], b[k]) == Order::Less),
        k < descending.len() && descending[k] ==> (projection_model::sort_keys_order(
            a,
            b,
            descending,
            i,
        ) == Order::Less <==> compare::sort_order(a[k], b[k]) == Order::Greater),
    decreases k - i,
{
    if i < k {
        assert(compare::sort_order(a[i], b[i]) == Order::Equal);
        the_first_difference_decides(a, b, descending, i + 1, k);
    }
}

/// Whether an expression comes to a value over a row, whatever was spent before.
#[verifier::opaque]
pub open spec fn can_be(
    e: BoundExprView,
    row: Map<u32, ValueView>,
    env: Env,
    v: ValueView,
) -> bool {
    exists|s: Spent| expression_laws::finding(e, row, env, s) == Ok::<_, ExecErrorView>(v)
}

proof fn lemma_can_be(
    e: BoundExprView,
    row: Map<u32, ValueView>,
    env: Env,
    spent: Spent,
    v: ValueView,
)
    requires
        semantics::evaluated(e, row, env, spent).result == Ok::<_, ExecErrorView>(v),
    ensures
        can_be(e, row, env, v),
{
    reveal(can_be);
    reveal(expression_laws::finding);
    assert(expression_laws::finding(e, row, env, spent) == Ok::<_, ExecErrorView>(v));
}

/// Whether a key is what the expressions of an `ORDER BY` come to over a row.
#[verifier::opaque]
pub open spec fn is_key(
    order_by: Seq<(BoundExprView, bool)>,
    row: Map<u32, ValueView>,
    env: Env,
    key: Seq<ValueView>,
) -> bool {
    &&& key.len() == order_by.len()
    &&& forall|k: int|
        0 <= k < key.len() ==> can_be(order_by[k].0, row, env, #[trigger] key[k])
}

proof fn lemma_key(
    order_by: Seq<(BoundExprView, bool)>,
    i: int,
    row: Map<u32, ValueView>,
    env: Env,
    spent: Spent,
    before: Seq<ValueView>,
)
    requires
        0 <= i <= order_by.len(),
        before.len() == i,
        forall|k: int|
            0 <= k < before.len() ==> can_be(order_by[k].0, row, env, #[trigger] before[k]),
    ensures
        projection_model::sort_key_from(order_by, i, row, env, spent, before).result matches Ok(key)
            ==> is_key(order_by, row, env, key),
    decreases order_by.len() - i,
{
    reveal(projection_model::sort_key_from);
    reveal(is_key);
    if i < order_by.len() {
        let x = semantics::evaluated(order_by[i].0, row, env, spent);
        if let Ok(v) = x.result {
            let more = before.push(v);
            lemma_can_be(order_by[i].0, row, env, spent, v);
            assert forall|k: int| 0 <= k < more.len() implies can_be(
                order_by[k].0,
                row,
                env,
                #[trigger] more[k],
            ) by {
                if k < i {
                    assert(more[k] == before[k]);
                }
            }
            lemma_key(order_by, i + 1, row, env, x.spent, more);
        }
    }
}

spec fn are_keyed(
    order_by: Seq<(BoundExprView, bool)>,
    keyed: Seq<Keyed>,
    rows: Seq<Map<u32, ValueView>>,
    env: Env,
) -> bool {
    &&& keyed.len() <= rows.len()
    &&& forall|k: int|
        0 <= k < keyed.len() ==> (#[trigger] keyed[k]).row == rows[k] && is_key(
            order_by,
            keyed[k].row,
            env,
            keyed[k].key,
        )
}

proof fn lemma_keyed(
    order_by: Seq<(BoundExprView, bool)>,
    rows: Seq<Map<u32, ValueView>>,
    i: int,
    env: Env,
    spent: Spent,
    before: Seq<Keyed>,
)
    requires
        0 <= i <= rows.len(),
        before.len() == i,
        are_keyed(order_by, before, rows, env),
    ensures
        projection_model::keyed_from(order_by, rows, i, env, spent, before).result matches Ok(keyed)
            ==> keyed.len() == rows.len() && are_keyed(order_by, keyed, rows, env),
    decreases rows.len() - i,
{
    reveal(projection_model::keyed_from);
    if i < rows.len() {
        let k = projection_model::sort_key_from(order_by, 0, rows[i], env, spent, seq![]);
        lemma_key(order_by, 0, rows[i], env, spent, seq![]);
        if let Ok(key) = k.result {
            let more = before.push(Keyed { key, row: rows[i] });
            assert forall|j: int| 0 <= j < more.len() implies (#[trigger] more[j]).row == rows[j]
                && is_key(order_by, more[j].row, env, more[j].key) by {
                if j < i {
                    assert(more[j] == before[j]);
                }
            }
            lemma_keyed(order_by, rows, i + 1, env, k.spent, more);
        }
    }
}

/// Whether of two rows the first may stand before the second: their keys are in order.
pub open spec fn may_precede(
    order_by: Seq<(BoundExprView, bool)>,
    first: Map<u32, ValueView>,
    second: Map<u32, ValueView>,
    env: Env,
) -> bool {
    exists|a: Seq<ValueView>, b: Seq<ValueView>|
        {
            &&& #[trigger] is_key(order_by, first, env, a)
            &&& #[trigger] is_key(order_by, second, env, b)
            &&& projection_model::sort_keys_order(
                a,
                b,
                Seq::new(order_by.len(), |k: int| order_by[k].1),
                0,
            ) != Order::Greater
        }
}

/// `ORDER BY` gives back the same rows, each before those whose keys come later.
pub proof fn ordering_puts_rows_in_the_order_of_their_keys(
    order_by: Seq<(BoundExprView, bool)>,
    rows: Seq<Map<u32, ValueView>>,
    env: Env,
    spent: Spent,
    i: int,
    j: int,
)
    requires
        order_by.len() > 0,
    ensures
        projection_model::ordered_rows(order_by, rows, env, spent).result matches Ok(all) ==> {
            &&& all.len() == rows.len()
            &&& 0 <= i < j < all.len() ==> may_precede(order_by, all[i], all[j], env)
            &&& 0 <= i < all.len() ==> rows.contains(all[i])
            &&& 0 <= i < rows.len() ==> all.contains(rows[i])
        },
{
    reveal(projection_model::ordered_rows);
    let k = projection_model::keyed_from(order_by, rows, 0, env, spent, seq![]);
    lemma_keyed(order_by, rows, 0, env, spent, seq![]);
    if let Ok(keyed) = k.result {
        let turned = projection_model::directions(order_by);
        assert(turned =~= Seq::new(order_by.len(), |k: int| order_by[k].1));
        let sorted = projection_model::sorted_rows(keyed, turned, keyed.len());
        let all = projection_model::rows_of(sorted);
        projection_laws::sorting_keeps_every_row(keyed, turned, keyed.len());
        assert(keyed.take(keyed.len() as int) =~= keyed);
        assert(sorted.to_multiset() == keyed.to_multiset());
        sorted.to_multiset_ensures();
        keyed.to_multiset_ensures();
        assert(sorted.len() == keyed.len());
        reveal(is_key);
        assert forall|x: int| 0 <= x < sorted.len() implies keyed.contains(#[trigger] sorted[x]) by {
            assert(sorted.to_multiset().count(sorted[x]) > 0);
        }
        assert forall|x: int| 0 <= x < keyed.len() implies (#[trigger] keyed[x]).key.len()
            == turned.len() by {
            assert(is_key(order_by, keyed[x].row, env, keyed[x].key));
        }
        if 0 <= i < all.len() {
            assert(keyed.contains(sorted[i]));
            let x = keyed.index_of(sorted[i]);
            assert(keyed[x] == sorted[i]);
            assert(rows[x] == all[i]);
        }
        if 0 <= i < rows.len() {
            assert(keyed.to_multiset().count(keyed[i]) > 0);
            assert(sorted.contains(keyed[i]));
            let x = sorted.index_of(keyed[i]);
            assert(all[x] == rows[i]);
        }
        if 0 <= i < j < all.len() {
            group_laws::sorting_orders_every_pair(keyed, turned, keyed.len(), i, j);
            let (x, y) = (keyed.index_of(sorted[i]), keyed.index_of(sorted[j]));
            assert(keyed.contains(sorted[j]));
            assert(keyed[x] == sorted[i] && keyed[y] == sorted[j]);
            assert(is_key(order_by, all[i], env, sorted[i].key));
            assert(is_key(order_by, all[j], env, sorted[j].key));
        }
    }
}

// --- Pages ------------------------------------------------------------------------------------------

/// Whether a `SKIP` or `LIMIT` comes to a count, none standing for there being none.
pub open spec fn counts_to(
    count: Option<BoundExprView>,
    env: Env,
    spent: Spent,
    n: Option<nat>,
    after: Spent,
) -> bool {
    match (count, n) {
        (None, None) => after == spent,
        (Some(e), Some(n)) => n <= i64::MAX && expression_laws::becomes(
            e,
            Map::empty(),
            env,
            spent,
            ValueView::Int(n as i64),
            after,
        ),
        _ => false,
    }
}

/// `SKIP` leaves out as many rows as it says and `LIMIT` keeps as many as it says of the
/// rest, as far as there are so many.
pub proof fn a_page_has_as_many_rows_as_it_says(
    skip: Option<BoundExprView>,
    limit: Option<BoundExprView>,
    rows: Seq<Map<u32, ValueView>>,
    env: Env,
    spent: Spent,
    between: Spent,
    after: Spent,
    m: Option<nat>,
    n: Option<nat>,
    i: int,
)
    requires
        counts_to(skip, env, spent, m, between),
        counts_to(limit, env, between, n, after),
    ensures
        projection_model::paged_rows(skip, limit, rows, env, spent).result matches Ok(page) && {
            let first: nat = match m {
                Some(k) => k,
                None => 0,
            };
            &&& first >= rows.len() ==> page.len() == 0
            &&& first <= rows.len() && n is None ==> page.len() == rows.len() - first
            &&& first <= rows.len() ==> (n matches Some(k) ==> page.len() == (if first + k
                <= rows.len() {
                k as int
            } else {
                rows.len() - first
            }))
            &&& 0 <= i < page.len() ==> page[i] == rows[first + i]
        },
{
    reveal(projection_model::paged_rows);
    reveal(projection_model::page_bound);
    reveal(expression_laws::becomes);
}

/// A count that is no integer, or a negative one, is refused.
pub proof fn other_counts_are_refused(
    e: BoundExprView,
    limit: Option<BoundExprView>,
    rows: Seq<Map<u32, ValueView>>,
    env: Env,
    spent: Spent,
    v: ValueView,
)
    requires
        expression_laws::finding(e, Map::empty(), env, spent) == Ok::<_, ExecErrorView>(v),
        v matches ValueView::Int(n) ==> n < 0,
    ensures
        projection_model::paged_rows(Some(e), limit, rows, env, spent).result is Err,
{
    reveal(projection_model::paged_rows);
    reveal(projection_model::page_bound);
    reveal(expression_laws::finding);
}

// --- Values -----------------------------------------------------------------------------------------

/// Whether a row has under the variables of items what they come to over another row.
#[verifier::opaque]
pub open spec fn has_items(
    items: Seq<BoundProjectionItemView>,
    n: int,
    from: Map<u32, ValueView>,
    row: Map<u32, ValueView>,
    env: Env,
) -> bool {
    forall|k: int|
        0 <= k < n ==> row.dom().contains((#[trigger] items[k]).var.0) && can_be(
            items[k].expr,
            from,
            env,
            row[items[k].var.0],
        )
}

/// Whether items have different variables.
pub open spec fn are_different(items: Seq<BoundProjectionItemView>) -> bool {
    forall|j: int, k: int|
        0 <= j < k < items.len() ==> (#[trigger] items[j]).var != (#[trigger] items[k]).var
}

proof fn lemma_items(
    items: Seq<BoundProjectionItemView>,
    i: int,
    row: Map<u32, ValueView>,
    env: Env,
    spent: Spent,
    out: Map<u32, ValueView>,
)
    requires
        0 <= i <= items.len(),
        are_different(items),
        has_items(items, i, row, out, env),
    ensures
        projection_model::projected_items_from(items, i, row, env, spent, out).result matches Ok(
            made,
        ) ==> has_items(items, items.len() as int, row, made, env),
    decreases items.len() - i,
{
    reveal(projection_model::projected_items_from);
    if i < items.len() {
        let x = semantics::evaluated(items[i].expr, row, env, spent);
        if let Ok(v) = x.result {
            let more = out.insert(items[i].var.0, v);
            assert(has_items(items, i + 1, row, more, env)) by {
                reveal(has_items);
                lemma_can_be(items[i].expr, row, env, spent, v);
                assert forall|k: int| 0 <= k < i + 1 implies more.dom().contains(
                    (#[trigger] items[k]).var.0,
                ) && can_be(items[k].expr, row, env, more[items[k].var.0]) by {
                    if k < i {
                        assert(items[k].var != items[i].var);
                        assert(more[items[k].var.0] == out[items[k].var.0]);
                        assert(out.dom().contains(items[k].var.0));
                    }
                }
            }
            lemma_items(items, i + 1, row, env, x.spent, more);
        }
    }
}

proof fn lemma_plain(
    items: Seq<BoundProjectionItemView>,
    rows: Seq<Map<u32, ValueView>>,
    i: int,
    env: Env,
    spent: Spent,
    out: Seq<Map<u32, ValueView>>,
)
    requires
        0 <= i <= rows.len(),
        out.len() == i,
        are_different(items),
        forall|j: int|
            0 <= j < i ==> has_items(items, items.len() as int, rows[j], #[trigger] out[j], env),
    ensures
        projection_model::plain_rows_from(items, rows, i, env, spent, out).result matches Ok(all)
            ==> all.len() == rows.len() && forall|j: int|
            0 <= j < rows.len() ==> has_items(
                items,
                items.len() as int,
                rows[j],
                #[trigger] all[j],
                env,
            ),
    decreases rows.len() - i,
{
    reveal(projection_model::plain_rows_from);
    if i < rows.len() {
        assert(has_items(items, 0, rows[i], rows[i], env)) by {
            reveal(has_items);
        }
        lemma_items(items, 0, rows[i], env, spent, rows[i]);
        let made = projection_model::projected_items_from(items, 0, rows[i], env, spent, rows[i]);
        let p = projection_model::pushed(made, out);
        if let Ok(all) = p.result {
            assert forall|j: int| 0 <= j < i + 1 implies has_items(
                items,
                items.len() as int,
                rows[j],
                #[trigger] all[j],
                env,
            ) by {
                if j < i {
                    assert(all[j] == out[j]);
                }
            }
            lemma_plain(items, rows, i + 1, env, p.spent, all);
        }
    }
}

/// Without aggregation each row comes out once, in its place, and has under every item's
/// variable what the item comes to over it.
pub proof fn projecting_evaluates_the_items(
    p: BoundProjectionView,
    rows: Seq<Map<u32, ValueView>>,
    env: Env,
    spent: Spent,
    j: int,
)
    requires
        !p.aggregating,
        are_different(p.items),
    ensures
        projection_model::merged_rows(p, rows, env, spent).result matches Ok(all) ==> all.len()
            == rows.len() && (0 <= j < all.len() ==> has_items(
            p.items,
            p.items.len() as int,
            rows[j],
            all[j],
            env,
        )),
{
    reveal(projection_model::merged_rows);
    lemma_plain(p.items, rows, 0, env, spent, seq![]);
}

// --- Filters ----------------------------------------------------------------------------------------

/// Whether a predicate is true of a row.
pub open spec fn is_true_of(
    predicate: BoundExprView,
    row: Map<u32, ValueView>,
    env: Env,
    s: Spent,
) -> bool {
    expression_laws::finding(predicate, row, env, s) == Ok::<_, ExecErrorView>(
        ValueView::Bool(true),
    )
}

/// The rows that are marked, in their order.
pub open spec fn marked(
    rows: Seq<Map<u32, ValueView>>,
    marks: Seq<bool>,
    n: nat,
) -> Seq<Map<u32, ValueView>>
    decreases n,
{
    if n == 0 || n > rows.len() {
        seq![]
    } else if marks[n - 1] {
        marked(rows, marks, (n - 1) as nat).push(rows[n - 1])
    } else {
        marked(rows, marks, (n - 1) as nat)
    }
}

/// Whether marks tell of which rows a predicate is true.
pub open spec fn tells(
    predicate: BoundExprView,
    rows: Seq<Map<u32, ValueView>>,
    marks: Seq<bool>,
    ss: Seq<Spent>,
    env: Env,
) -> bool {
    &&& marks.len() == ss.len()
    &&& marks.len() <= rows.len()
    &&& forall|i: int|
        0 <= i < marks.len() ==> (#[trigger] marks[i] <==> is_true_of(
            predicate,
            rows[i],
            env,
            ss[i],
        ))
}

proof fn lemma_marked_same(
    rows: Seq<Map<u32, ValueView>>,
    marks: Seq<bool>,
    b: bool,
    n: nat,
)
    requires
        n <= marks.len(),
    ensures
        marked(rows, marks.push(b), n) == marked(rows, marks, n),
    decreases n,
{
    if n > 0 {
        lemma_marked_same(rows, marks, b, (n - 1) as nat);
    }
}

proof fn lemma_filtered(
    rows: Seq<Map<u32, ValueView>>,
    i: int,
    predicate: BoundExprView,
    env: Env,
    spent: Spent,
    marks: Seq<bool>,
    ss: Seq<Spent>,
) -> (all: (Seq<bool>, Seq<Spent>))
    requires
        0 <= i <= rows.len(),
        marks.len() == i,
        tells(predicate, rows, marks, ss, env),
    ensures
        projection_model::filtered_from(
            rows,
            i,
            Some(predicate),
            env,
            spent,
            marked(rows, marks, i as nat),
        ).result matches Ok(kept) ==> all.0.len() == rows.len() && tells(
            predicate,
            rows,
            all.0,
            all.1,
            env,
        ) && kept == marked(rows, all.0, rows.len()),
    decreases rows.len() - i,
{
    reveal(projection_model::filtered_from);
    if i < rows.len() {
        let t = walk::passes(Some(predicate), rows[i], env, spent);
        if let Ok(b) = t.result {
            let (more, at) = (marks.push(b), ss.push(spent));
            assert(b <==> is_true_of(predicate, rows[i], env, spent)) by {
                reveal(walk::passes);
                reveal(expression_laws::finding);
            }
            assert forall|k: int| 0 <= k < more.len() implies (#[trigger] more[k] <==> is_true_of(
                predicate,
                rows[k],
                env,
                at[k],
            )) by {
                if k < i {
                    assert(more[k] == marks[k] && at[k] == ss[k]);
                }
            }
            lemma_marked_same(rows, marks, b, i as nat);
            lemma_filtered(rows, i + 1, predicate, env, t.spent, more, at)
        } else {
            (marks, ss)
        }
    } else {
        (marks, ss)
    }
}

/// `WHERE` keeps just the rows of which its predicate is true, in their order.
pub proof fn a_filter_keeps_what_its_predicate_is_true_of(
    rows: Seq<Map<u32, ValueView>>,
    predicate: BoundExprView,
    env: Env,
    spent: Spent,
)
    ensures
        projection_model::filtered_from(
            rows,
            0,
            Some(predicate),
            env,
            spent,
            seq![],
        ).result matches Ok(kept) ==> exists|marks: Seq<bool>, ss: Seq<Spent>|
            marks.len() == rows.len() && #[trigger] tells(predicate, rows, marks, ss, env) && kept
                == marked(rows, marks, rows.len()),
{
    let all = lemma_filtered(rows, 0, predicate, env, spent, seq![], seq![]);
    assert(marked(rows, seq![], 0) =~= seq![]);
}

// --- Clauses ----------------------------------------------------------------------------------------

/// A projection without its page, its order or its distinctness.
pub open spec fn unpaged(p: BoundProjectionView) -> BoundProjectionView {
    BoundProjectionView { skip: None, limit: None, ..p }
}

pub open spec fn unordered(p: BoundProjectionView) -> BoundProjectionView {
    BoundProjectionView { order_by: seq![], ..unpaged(p) }
}

pub open spec fn repeating(p: BoundProjectionView) -> BoundProjectionView {
    BoundProjectionView { distinct: false, ..unordered(p) }
}

/// A page is taken of the whole result, an order made of all its rows, and distinct rows
/// chosen among all of them.
pub proof fn results_are_made_step_by_step(
    p: BoundProjectionView,
    is_with: bool,
    rows: Seq<Map<u32, ValueView>>,
    env: Env,
    spent: Spent,
)
    ensures
        ({
            let whole = projection_model::projected(unpaged(p), is_with, rows, env, spent);
            whole.result matches Ok(all) ==> projection_model::projected(
                p,
                is_with,
                rows,
                env,
                spent,
            ) == projection_model::paged_rows(p.skip, p.limit, all, env, whole.spent)
        }),
        ({
            let whole = projection_model::projected(unordered(p), is_with, rows, env, spent);
            whole.result matches Ok(all) ==> projection_model::projected(
                unpaged(p),
                is_with,
                rows,
                env,
                spent,
            ).result == projection_model::ordered_rows(p.order_by, all, env, whole.spent).result
        }),
        ({
            let whole = projection_model::projected(repeating(p), is_with, rows, env, spent);
            whole.result matches Ok(all) ==> p.distinct ==> projection_model::projected(
                unordered(p),
                is_with,
                rows,
                env,
                spent,
            ).result == Ok::<_, ExecErrorView>(
                projection_model::distinct_rows(p.items, all, all.len()),
            )
        }),
        ({
            let made = projection_model::merged_rows(p, rows, env, spent);
            let whole = projection_model::projected(repeating(p), is_with, rows, env, spent).result;
            made.result matches Ok(all) ==> {
                &&& !is_with ==> whole == Ok::<_, ExecErrorView>(all)
                &&& is_with && p.where_clause is None ==> whole == Ok::<_, ExecErrorView>(all)
                &&& is_with ==> whole == projection_model::filtered_from(
                    all,
                    0,
                    p.where_clause,
                    env,
                    made.spent,
                    seq![],
                ).result
            }
        }),
{
    reveal(projection_model::projected);
    reveal(projection_model::paged_rows);
    reveal(projection_model::page_bound);
    reveal(projection_model::ordered_rows);
    assert(projection_model::merged_rows(unpaged(p), rows, env, spent)
        == projection_model::merged_rows(p, rows, env, spent)) by {
        reveal(projection_model::merged_rows);
    }
    assert(projection_model::merged_rows(unordered(p), rows, env, spent)
        == projection_model::merged_rows(p, rows, env, spent)) by {
        reveal(projection_model::merged_rows);
    }
    assert(projection_model::merged_rows(repeating(p), rows, env, spent)
        == projection_model::merged_rows(p, rows, env, spent)) by {
        reveal(projection_model::merged_rows);
    }
    let made = projection_model::merged_rows(p, rows, env, spent);
    if let Ok(all) = made.result {
        lemma_unfiltered(all, 0, env, made.spent, seq![]);
        assert(all.skip(0) =~= all);
    }
}

proof fn lemma_unfiltered(
    rows: Seq<Map<u32, ValueView>>,
    i: int,
    env: Env,
    spent: Spent,
    kept: Seq<Map<u32, ValueView>>,
)
    requires
        0 <= i <= rows.len(),
    ensures
        projection_model::filtered_from(rows, i, None, env, spent, kept).result == Ok::<
            _,
            ExecErrorView,
        >(kept + rows.skip(i)),
    decreases rows.len() - i,
{
    reveal(projection_model::filtered_from);
    reveal(walk::passes);
    if i < rows.len() {
        lemma_unfiltered(rows, i + 1, env, spent, kept.push(rows[i]));
        assert(kept.push(rows[i]) + rows.skip(i + 1) =~= kept + rows.skip(i));
    } else {
        assert(kept + rows.skip(i) =~= kept);
    }
}

} // verus!
