//! What the aggregates are for: each as a relation between the values of a group and
//! its result.

use vstd::prelude::*;

use crate::bind::bound::{AggregateDefView, BoundExprView};
use crate::exec::arith;
use crate::exec::compare;
use crate::exec::fault::{ExecErrorView, FloatOp, FloatRequestView};
use crate::exec::float::{self, FloatAnswerView};
use crate::exec::order_laws;
use crate::exec::projection_model::{self, Sum};
use crate::exec::semantics::{self, Env, Spent};
use crate::exec::value::{Order, ValueView};
use crate::span::Span;

verus! {

// --- Values -----------------------------------------------------------------------------------------

/// Whether an expression comes to `each` over the rows of a group, one after the
/// other.
pub open spec fn comes_to_each(
    e: BoundExprView,
    group: Seq<Map<u32, ValueView>>,
    each: Seq<ValueView>,
    states: Seq<Spent>,
    env: Env,
) -> bool {
    &&& each.len() == group.len()
    &&& states.len() == group.len() + 1
    &&& forall|i: int|
        0 <= i < group.len() ==> {
            let x = #[trigger] semantics::evaluated(e, group[i], env, states[i]);
            x.result == Ok::<_, ExecErrorView>(each[i]) && x.spent == states[i + 1]
        }
}

/// Whether a value counts: null does not.
pub open spec fn counts(v: ValueView) -> bool {
    !(v is Null)
}

/// The values that are not null.
pub open spec fn not_null(each: Seq<ValueView>) -> Seq<ValueView> {
    each.filter(|v: ValueView| counts(v))
}

proof fn lemma_filter_next(each: Seq<ValueView>, i: int)
    requires
        0 <= i < each.len(),
    ensures
        not_null(each.take(i + 1)) == (if counts(each[i]) {
            not_null(each.take(i)).push(each[i])
        } else {
            not_null(each.take(i))
        }),
{
    reveal(Seq::filter);
    assert(each.take(i + 1).drop_last() =~= each.take(i));
}

proof fn lemma_gathered(
    e: BoundExprView,
    group: Seq<Map<u32, ValueView>>,
    i: int,
    each: Seq<ValueView>,
    states: Seq<Spent>,
    env: Env,
)
    requires
        comes_to_each(e, group, each, states, env),
        0 <= i <= group.len(),
    ensures
        projection_model::gathered_from(
            Some(Box::new(e)),
            group,
            i,
            env,
            states[i],
            not_null(each.take(i)),
        ).result == Ok::<_, ExecErrorView>(not_null(each)),
    decreases group.len() - i,
{
    reveal(projection_model::gathered_from);
    if i < group.len() {
        let x = semantics::evaluated(e, group[i], env, states[i]);
        assert(x.result == Ok::<_, ExecErrorView>(each[i]));
        lemma_filter_next(each, i);
        lemma_gathered(e, group, i + 1, each, states, env);
    } else {
        assert(each.take(i) =~= each);
    }
}

/// The values of a list, one of each kind of equivalent ones.
pub open spec fn one_of_each(values: Seq<ValueView>) -> Seq<ValueView> {
    projection_model::unique(values, values.len())
}

/// An aggregate is taken over the values that its argument has in the rows of the
/// group and that are not null; with `DISTINCT`, over one of each.
pub proof fn an_aggregate_is_over_the_values_of_the_group(
    def: AggregateDefView,
    distinct: bool,
    e: BoundExprView,
    span: Span,
    group: Seq<Map<u32, ValueView>>,
    each: Seq<ValueView>,
    states: Seq<Spent>,
    env: Env,
)
    requires
        comes_to_each(e, group, each, states, env),
    ensures
        ({
            let whole = BoundExprView::Aggregate { def, distinct, arg: Some(Box::new(e)), span };
            let made = projection_model::accumulated(whole, group, env, states[0]).result;
            &&& !distinct ==> made == projection_model::aggregated(
                def.name,
                not_null(each),
                span,
                env.floats,
            )
            &&& distinct ==> made == projection_model::aggregated(
                def.name,
                one_of_each(not_null(each)),
                span,
                env.floats,
            )
        }),
{
    reveal(projection_model::accumulated);
    reveal(Seq::filter);
    lemma_gathered(e, group, 0, each, states, env);
    assert(not_null(each.take(0)) =~= seq![]);
}

proof fn lemma_rows_gathered(
    group: Seq<Map<u32, ValueView>>,
    i: int,
    env: Env,
    spent: Spent,
    before: Seq<ValueView>,
)
    requires
        0 <= i <= group.len(),
    ensures
        projection_model::gathered_from(None, group, i, env, spent, before).result matches Ok(all)
            && all.len() == before.len() + group.len() - i,
    decreases group.len() - i,
{
    reveal(projection_model::gathered_from);
    if i < group.len() {
        lemma_rows_gathered(group, i + 1, env, spent, before.push(ValueView::Int(1)));
    }
}

/// `count(*)` is the number of rows of the group.
pub proof fn counting_rows_counts_every_row(
    def: AggregateDefView,
    span: Span,
    group: Seq<Map<u32, ValueView>>,
    env: Env,
    spent: Spent,
)
    requires
        def.name == "count"@,
        group.len() <= i64::MAX,
    ensures
        projection_model::accumulated(
            BoundExprView::Aggregate { def, distinct: false, arg: None, span },
            group,
            env,
            spent,
        ).result == Ok::<_, ExecErrorView>(ValueView::Int(group.len() as i64)),
{
    reveal(projection_model::accumulated);
    lemma_rows_gathered(group, 0, env, spent, seq![]);
}

/// What is left of values by `DISTINCT`: values among them, one equivalent to each,
/// and no two of them equivalent.
pub proof fn distinct_values_are_one_of_each(values: Seq<ValueView>, i: int, j: int)
    requires
        0 <= i < values.len(),
    ensures
        exists|k: int|
            0 <= k < one_of_each(values).len() && compare::sort_order(
                #[trigger] one_of_each(values)[k],
                values[i],
            ) == Order::Equal,
        0 <= j < one_of_each(values).len() ==> values.contains(one_of_each(values)[j]),
        forall|k: int|
            0 <= j < k < one_of_each(values).len() ==> compare::sort_order(
                one_of_each(values)[j],
                #[trigger] one_of_each(values)[k],
            ) != Order::Equal,
{
    lemma_unique(values, values.len(), i, j);
}

proof fn lemma_unique(values: Seq<ValueView>, n: nat, i: int, j: int)
    requires
        n <= values.len(),
    ensures
        ({
            let u = projection_model::unique(values, n);
            &&& 0 <= i < n ==> exists|k: int|
                0 <= k < u.len() && compare::sort_order(#[trigger] u[k], values[i]) == Order::Equal
            &&& 0 <= j < u.len() ==> values.contains(u[j])
            &&& forall|k: int|
                0 <= j < k < u.len() ==> compare::sort_order(u[j], #[trigger] u[k]) != Order::Equal
        }),
    decreases n,
{
    if n > 0 {
        let before = projection_model::unique(values, (n - 1) as nat);
        let u = projection_model::unique(values, n);
        lemma_unique(values, (n - 1) as nat, i, j);
        let v = values[n - 1];
        if 0 <= i < n - 1 {
            let k = choose|k: int|
                0 <= k < before.len() && compare::sort_order(#[trigger] before[k], values[i])
                    == Order::Equal;
            assert(u[k] == before[k]);
        } else if i == n - 1 {
            if projection_model::seen_before(before, v) {
                let k = choose|k: int|
                    0 <= k < before.len() && compare::sort_order(#[trigger] before[k], v)
                        == Order::Equal;
                assert(u[k] == before[k]);
            } else {
                order_laws::a_value_is_equivalent_to_itself(v);
                assert(u[before.len() as int] == v);
            }
        }
        if 0 <= j < u.len() {
            if j < before.len() {
                assert(u[j] == before[j]);
            } else {
                assert(values[n - 1] == u[j]);
            }
            assert forall|k: int| j < k < u.len() implies compare::sort_order(u[j], #[trigger] u[k])
                != Order::Equal by {
                assert(u[j] == before[j]);
                if k < before.len() {
                    assert(u[k] == before[k]);
                } else {
                    assert(u[k] == v);
                    assert(!projection_model::seen_before(before, v));
                }
            }
        }
    }
}

// --- Counting and collecting ------------------------------------------------------------------------

/// `count` is the number of values.
pub proof fn count_is_how_many(
    values: Seq<ValueView>,
    span: Span,
    table: Seq<(FloatRequestView, FloatAnswerView)>,
)
    requires
        values.len() <= i64::MAX,
    ensures
        projection_model::aggregated("count"@, values, span, table) == Ok::<_, ExecErrorView>(
            ValueView::Int(values.len() as i64),
        ),
{
}

proof fn lemma_names()
    ensures
        "collect"@ != "count"@,
        "sum"@ != "count"@,
        "sum"@ != "collect"@,
        "avg"@ != "count"@,
        "avg"@ != "collect"@,
        "avg"@ != "sum"@,
        "min"@ != "count"@,
        "min"@ != "collect"@,
        "min"@ != "sum"@,
        "min"@ != "avg"@,
        "max"@ != "count"@,
        "max"@ != "collect"@,
        "max"@ != "sum"@,
        "max"@ != "avg"@,
        "max"@ != "min"@,
{
    reveal_strlit("count");
    reveal_strlit("collect");
    reveal_strlit("sum");
    reveal_strlit("avg");
    reveal_strlit("min");
    reveal_strlit("max");
    assert("collect"@.len() == 7 && "count"@.len() == 5);
    assert("sum"@[0] == 's' && "avg"@[0] == 'a' && "min"@[0] == 'm' && "max"@[0] == 'm');
    assert("min"@[1] == 'i' && "max"@[1] == 'a');
}

/// `collect` gives back the values, in their order.
pub proof fn collect_keeps_the_values(
    values: Seq<ValueView>,
    span: Span,
    table: Seq<(FloatRequestView, FloatAnswerView)>,
)
    ensures
        projection_model::aggregated("collect"@, values, span, table) matches Ok(v) ==> v
            == ValueView::List(values),
        (forall|i: int| 0 <= i < values.len() ==> arith::nestable(#[trigger] values[i]))
            ==> projection_model::aggregated("collect"@, values, span, table) is Ok,
{
    lemma_names();
}

// --- Numbers ----------------------------------------------------------------------------------------

/// Whether a table answers a request with a number.
pub open spec fn gives(
    table: Seq<(FloatRequestView, FloatAnswerView)>,
    op: FloatOp,
    a: u64,
    b: u64,
    z: u64,
) -> bool {
    float::answer(table, FloatRequestView::Binary { op, a, b }) == Some(FloatAnswerView::Bits(z))
}

/// The float that a number is, or is nearest to.
pub open spec fn as_float(v: ValueView) -> u64 {
    match v {
        ValueView::Int(n) => float::of_int(n as int) as u64,
        ValueView::Float(x) => x,
        _ => 0,
    }
}

/// Whether `totals` are the running totals of numbers, from zero on.
pub open spec fn run_up(
    table: Seq<(FloatRequestView, FloatAnswerView)>,
    values: Seq<ValueView>,
    totals: Seq<u64>,
) -> bool {
    &&& totals.len() == values.len() + 1
    &&& totals[0] == 0
    &&& forall|i: int|
        0 <= i < values.len() ==> (values[i] is Int || values[i] is Float) && gives(
            table,
            FloatOp::Add,
            #[trigger] totals[i],
            as_float(values[i]),
            totals[i + 1],
        )
}

proof fn lemma_totalled(
    table: Seq<(FloatRequestView, FloatAnswerView)>,
    values: Seq<ValueView>,
    totals: Seq<u64>,
    n: nat,
    span: Span,
)
    requires
        run_up(table, values, totals),
        n <= values.len(),
    ensures
        projection_model::totalled(values, n, span, table) == Ok::<_, ExecErrorView>(
            totals[n as int],
        ),
    decreases n,
{
    if n > 0 {
        lemma_totalled(table, values, totals, (n - 1) as nat, span);
        assert(gives(
            table,
            FloatOp::Add,
            totals[n - 1],
            as_float(values[n - 1]),
            totals[n as int],
        ));
    }
}

proof fn lemma_totals(
    table: Seq<(FloatRequestView, FloatAnswerView)>,
    values: Seq<ValueView>,
    n: nat,
    span: Span,
) -> (totals: Seq<u64>)
    requires
        n <= values.len(),
        projection_model::totalled(values, n, span, table) is Ok,
    ensures
        run_up(table, values.take(n as int), totals),
    decreases n,
{
    if n > 0 {
        let before = lemma_totals(table, values, (n - 1) as nat, span);
        let z = projection_model::totalled(values, n, span, table)->Ok_0;
        let all = before.push(z);
        let first = values.take(n - 1);
        let more = values.take(n as int);
        lemma_totalled(table, first, before, (n - 1) as nat, span);
        lemma_totalled_take(values, (n - 1) as nat, (n - 1) as nat, span, table);
        assert forall|i: int| 0 <= i < more.len() implies (more[i] is Int || more[i] is Float)
            && gives(table, FloatOp::Add, #[trigger] all[i], as_float(more[i]), all[i + 1]) by {
            if i < n - 1 {
                assert(more[i] == first[i]);
                assert(all[i] == before[i] && all[i + 1] == before[i + 1]);
            } else {
                assert(more[i] == values[n - 1]);
                assert(all[i] == before[n - 1]);
                assert(all[i + 1] == z);
            }
        }
        all
    } else {
        seq![0u64]
    }
}

proof fn lemma_totalled_take(
    values: Seq<ValueView>,
    n: nat,
    m: nat,
    span: Span,
    table: Seq<(FloatRequestView, FloatAnswerView)>,
)
    requires
        n <= m <= values.len(),
    ensures
        projection_model::totalled(values.take(m as int), n, span, table)
            == projection_model::totalled(values, n, span, table),
    decreases n,
{
    if n > 0 {
        lemma_totalled_take(values, (n - 1) as nat, m, span, table);
        assert(values.take(m as int)[n - 1] == values[n - 1]);
    }
}

/// The average of numbers is what the table has for their total divided by how many
/// there are, and there is an average exactly where the table has the totals and
/// that quotient. Nothing has no average.
pub proof fn an_average_is_the_total_by_the_count(
    values: Seq<ValueView>,
    span: Span,
    table: Seq<(FloatRequestView, FloatAnswerView)>,
    z: u64,
)
    requires
        0 < values.len() <= i64::MAX,
    ensures
        projection_model::aggregated("avg"@, values, span, table) == Ok::<_, ExecErrorView>(
            ValueView::Float(z),
        ) <==> exists|totals: Seq<u64>| #[trigger]
            run_up(table, values, totals) && gives(
                table,
                FloatOp::Div,
                totals[values.len() as int],
                float::of_int(values.len() as int) as u64,
                z,
            ),
        projection_model::aggregated("avg"@, values, span, table) matches Ok(v) ==> v is Float,
{
    lemma_names();
    assert(values.take(values.len() as int) =~= values);
    if projection_model::totalled(values, values.len(), span, table) is Ok {
        let totals = lemma_totals(table, values, values.len(), span);
        lemma_totalled(table, values, totals, values.len(), span);
        assert(run_up(table, values, totals));
    }
    assert forall|totals: Seq<u64>| #[trigger]
        run_up(table, values, totals) implies projection_model::totalled(
        values,
        values.len(),
        span,
        table,
    ) == Ok::<_, ExecErrorView>(totals[values.len() as int]) by {
        lemma_totalled(table, values, totals, values.len(), span);
    }
}

/// Where sums and quotients of whole numbers come out whole, the average of `n` times
/// the same integer is that integer.
pub proof fn the_average_of_equals_is_their_value(
    n: nat,
    k: i64,
    span: Span,
    table: Seq<(FloatRequestView, FloatAnswerView)>,
)
    requires
        0 < n <= i64::MAX,
        forall|i: int|
            0 <= i < n ==> gives(
                table,
                FloatOp::Add,
                #[trigger] float::of_int(i * k) as u64,
                float::of_int(k as int) as u64,
                float::of_int((i + 1) * k) as u64,
            ),
        gives(
            table,
            FloatOp::Div,
            float::of_int(n * k) as u64,
            float::of_int(n as int) as u64,
            float::of_int(k as int) as u64,
        ),
    ensures
        projection_model::aggregated(
            "avg"@,
            Seq::new(n, |i: int| ValueView::Int(k)),
            span,
            table,
        ) == Ok::<_, ExecErrorView>(ValueView::Float(float::of_int(k as int) as u64)),
{
    let values = Seq::new(n, |i: int| ValueView::Int(k));
    let totals = Seq::new(n + 1, |i: int| float::of_int(i * k) as u64);
    assert(0 * k == 0);
    assert(totals[0] == 0);
    assert forall|i: int| 0 <= i < n implies (values[i] is Int || values[i] is Float) && gives(
        table,
        FloatOp::Add,
        #[trigger] totals[i],
        as_float(values[i]),
        totals[i + 1],
    ) by {
        assert(totals[i] == float::of_int(i * k) as u64);
    }
    assert(run_up(table, values, totals));
    an_average_is_the_total_by_the_count(values, span, table, float::of_int(k as int) as u64);
}

/// What is no number has no average and no sum; nothing at all has a null average
/// and the sum zero.
pub proof fn only_numbers_add_up(
    values: Seq<ValueView>,
    span: Span,
    table: Seq<(FloatRequestView, FloatAnswerView)>,
    i: int,
)
    requires
        0 <= i < values.len(),
        !(values[i] is Int || values[i] is Float),
    ensures
        projection_model::aggregated("avg"@, values, span, table) is Err,
        projection_model::aggregated("sum"@, values, span, table) is Err,
        projection_model::aggregated("avg"@, seq![], span, table) == Ok::<_, ExecErrorView>(
            ValueView::Null,
        ),
        projection_model::aggregated("sum"@, seq![], span, table) == Ok::<_, ExecErrorView>(
            ValueView::Int(0),
        ),
{
    lemma_names();
    if projection_model::totalled(values, values.len(), span, table) is Ok {
        let totals = lemma_totals(table, values, values.len(), span);
        assert(values.take(values.len() as int) =~= values);
        assert(gives(table, FloatOp::Add, totals[i], as_float(values[i]), totals[i + 1]));
    }
    lemma_sum_fails(values, values.len(), span, table, i);
}

proof fn lemma_sum_fails(
    values: Seq<ValueView>,
    n: nat,
    span: Span,
    table: Seq<(FloatRequestView, FloatAnswerView)>,
    i: int,
)
    requires
        0 <= i < n <= values.len(),
        !(values[i] is Int || values[i] is Float),
    ensures
        projection_model::summed(values, n, span, table) is Err,
    decreases n,
{
    if i < n - 1 {
        lemma_sum_fails(values, (n - 1) as nat, span, table, i);
    }
}

/// Whether `totals` are the running totals of integers, from zero on.
pub open spec fn run_up_whole(values: Seq<ValueView>, totals: Seq<int>) -> bool {
    &&& totals.len() == values.len() + 1
    &&& totals[0] == 0
    &&& forall|i: int|
        0 <= i < values.len() ==> (values[i] matches ValueView::Int(k) && totals[i + 1]
            == #[trigger] totals[i] + k)
}

proof fn lemma_summed_whole(
    values: Seq<ValueView>,
    totals: Seq<int>,
    n: nat,
    span: Span,
    table: Seq<(FloatRequestView, FloatAnswerView)>,
)
    requires
        run_up_whole(values, totals),
        n <= values.len(),
    ensures
        (forall|i: int| 0 <= i <= n ==> i64::MIN <= #[trigger] totals[i] <= i64::MAX)
            ==> projection_model::summed(values, n, span, table) == Ok::<_, ExecErrorView>(
            Sum { ints: totals[n as int] as i64, floats: 0, any_float: false },
        ),
        (exists|i: int| 0 <= i <= n && !(i64::MIN <= #[trigger] totals[i] <= i64::MAX))
            ==> projection_model::summed(values, n, span, table) == Err::<Sum, _>(
            ExecErrorView::Overflow { span },
        ),
    decreases n,
{
    if n > 0 {
        lemma_summed_whole(values, totals, (n - 1) as nat, span, table);
        assert(values[n - 1] is Int && totals[n as int] == totals[n - 1] + values[n - 1]->Int_0);
        if exists|i: int| 0 <= i <= n && !(i64::MIN <= #[trigger] totals[i] <= i64::MAX) {
            if forall|i: int| 0 <= i <= n - 1 ==> i64::MIN <= #[trigger] totals[i] <= i64::MAX {
                assert(!(i64::MIN <= totals[n as int] <= i64::MAX));
            } else {
                let i = choose|i: int|
                    0 <= i <= n - 1 && !(i64::MIN <= #[trigger] totals[i] <= i64::MAX);
                assert(!(i64::MIN <= totals[i] <= i64::MAX));
            }
        }
    }
}

/// The sum of integers is what they add up to; a total on the way that does not fit
/// overflows.
pub proof fn integers_add_up(
    values: Seq<ValueView>,
    totals: Seq<int>,
    span: Span,
    table: Seq<(FloatRequestView, FloatAnswerView)>,
)
    requires
        run_up_whole(values, totals),
    ensures
        (forall|i: int| 0 <= i <= values.len() ==> i64::MIN <= #[trigger] totals[i] <= i64::MAX)
            ==> projection_model::aggregated("sum"@, values, span, table) == Ok::<
            _,
            ExecErrorView,
        >(ValueView::Int(totals[values.len() as int] as i64)),
        (exists|i: int|
            0 <= i <= values.len() && !(i64::MIN <= #[trigger] totals[i] <= i64::MAX))
            ==> projection_model::aggregated("sum"@, values, span, table) == Err::<ValueView, _>(
            ExecErrorView::Overflow { span },
        ),
{
    lemma_names();
    lemma_summed_whole(values, totals, values.len(), span, table);
}

/// Whether running totals add the integers and the floats of values apart.
pub open spec fn run_up_apart(
    table: Seq<(FloatRequestView, FloatAnswerView)>,
    values: Seq<ValueView>,
    ints: Seq<i64>,
    floats: Seq<u64>,
) -> bool {
    &&& ints.len() == values.len() + 1
    &&& floats.len() == values.len() + 1
    &&& ints[0] == 0
    &&& floats[0] == 0
    &&& forall|i: int|
        0 <= i < values.len() ==> match values[i] {
            ValueView::Int(k) => #[trigger] ints[i] + k == ints[i + 1] && floats[i + 1]
                == floats[i],
            ValueView::Float(x) => ints[i + 1] == ints[i] && gives(
                table,
                FloatOp::Add,
                floats[i],
                x,
                floats[i + 1],
            ),
            _ => false,
        }
}

proof fn lemma_summed_apart(
    table: Seq<(FloatRequestView, FloatAnswerView)>,
    values: Seq<ValueView>,
    ints: Seq<i64>,
    floats: Seq<u64>,
    n: nat,
    span: Span,
)
    requires
        run_up_apart(table, values, ints, floats),
        n <= values.len(),
    ensures
        projection_model::summed(values, n, span, table) matches Ok(s) && s.ints == ints[n as int]
            && s.floats == floats[n as int] && (s.any_float <==> exists|i: int|
            0 <= i < n && #[trigger] values[i] is Float),
    decreases n,
{
    if n > 0 {
        lemma_summed_apart(table, values, ints, floats, (n - 1) as nat, span);
        assert(ints[n - 1] == ints[n - 1]);
        if exists|i: int| 0 <= i < n && #[trigger] values[i] is Float {
            let i = choose|i: int| 0 <= i < n && #[trigger] values[i] is Float;
            assert(i < n - 1 || values[n - 1] is Float);
        }
        if values[n - 1] is Float {
            assert(exists|i: int| 0 <= i < n && #[trigger] values[i] is Float);
        }
    }
}

/// Where there are floats, the sum is that of the floats and of the integers' total.
pub proof fn floats_and_integers_add_up_apart(
    table: Seq<(FloatRequestView, FloatAnswerView)>,
    values: Seq<ValueView>,
    ints: Seq<i64>,
    floats: Seq<u64>,
    span: Span,
    at: int,
    z: u64,
)
    requires
        run_up_apart(table, values, ints, floats),
        0 <= at < values.len(),
        values[at] is Float,
    ensures
        projection_model::aggregated("sum"@, values, span, table) == Ok::<_, ExecErrorView>(
            ValueView::Float(z),
        ) <==> gives(
            table,
            FloatOp::Add,
            floats[values.len() as int],
            float::of_int(ints[values.len() as int] as int) as u64,
            z,
        ),
{
    lemma_names();
    lemma_summed_apart(table, values, ints, floats, values.len(), span);
    assert(exists|i: int| 0 <= i < values.len() && #[trigger] values[i] is Float);
}

// --- Extremes ---------------------------------------------------------------------------------------

proof fn lemma_least(values: Seq<ValueView>, n: nat, i: int)
    requires
        0 <= i < n <= values.len(),
    ensures
        compare::sort_order(values[i], projection_model::least(values, n)) != Order::Less,
        exists|k: int| 0 <= k < n && #[trigger] values[k] == projection_model::least(values, n),
    decreases n,
{
    if n == 1 {
        order_laws::a_value_is_equivalent_to_itself(values[0]);
        assert(values[0] == projection_model::least(values, n));
    } else {
        let before = projection_model::least(values, (n - 1) as nat);
        let now = projection_model::least(values, n);
        let last = values[n - 1];
        let j = if i < n - 1 {
            i
        } else {
            0
        };
        lemma_least(values, (n - 1) as nat, j);
        let k = choose|k: int| 0 <= k < n - 1 && #[trigger] values[k] == before;
        assert(values[k] == now || values[n - 1] == now);
        order_laws::a_value_is_equivalent_to_itself(last);
        order_laws::sort_order_is_antisymmetric(values[i], before);
        order_laws::sort_order_is_antisymmetric(last, before);
        order_laws::sort_order_is_antisymmetric(last, values[i]);
        order_laws::sort_order_is_transitive(values[i], last, before);
        order_laws::sort_order_is_transitive(last, before, values[i]);
    }
}

proof fn lemma_greatest(values: Seq<ValueView>, n: nat, i: int)
    requires
        0 <= i < n <= values.len(),
    ensures
        compare::sort_order(projection_model::greatest(values, n), values[i]) != Order::Less,
        exists|k: int| 0 <= k < n && #[trigger] values[k] == projection_model::greatest(values, n),
    decreases n,
{
    if n == 1 {
        order_laws::a_value_is_equivalent_to_itself(values[0]);
        assert(values[0] == projection_model::greatest(values, n));
    } else {
        let before = projection_model::greatest(values, (n - 1) as nat);
        let now = projection_model::greatest(values, n);
        let last = values[n - 1];
        let j = if i < n - 1 {
            i
        } else {
            0
        };
        lemma_greatest(values, (n - 1) as nat, j);
        let k = choose|k: int| 0 <= k < n - 1 && #[trigger] values[k] == before;
        assert(values[k] == now || values[n - 1] == now);
        order_laws::a_value_is_equivalent_to_itself(last);
        order_laws::sort_order_is_antisymmetric(values[i], before);
        order_laws::sort_order_is_antisymmetric(last, before);
        order_laws::sort_order_is_antisymmetric(last, values[i]);
        order_laws::sort_order_is_transitive(last, values[i], before);
        order_laws::sort_order_is_transitive(before, last, values[i]);
        order_laws::sort_order_is_transitive(last, before, values[i]);
    }
}

/// `min` is one of the values, and none of them sorts before it; `max` is one of them,
/// and it sorts before none. Of nothing both are null.
pub proof fn extremes_are_values_at_the_ends(
    values: Seq<ValueView>,
    span: Span,
    table: Seq<(FloatRequestView, FloatAnswerView)>,
    i: int,
)
    requires
        0 <= i < values.len(),
    ensures
        projection_model::aggregated("min"@, values, span, table) matches Ok(v) && values.contains(
            v,
        ) && compare::sort_order(values[i], v) != Order::Less,
        projection_model::aggregated("max"@, values, span, table) matches Ok(v) && values.contains(
            v,
        ) && compare::sort_order(v, values[i]) != Order::Less,
        projection_model::aggregated("min"@, seq![], span, table) == Ok::<_, ExecErrorView>(
            ValueView::Null,
        ),
        projection_model::aggregated("max"@, seq![], span, table) == Ok::<_, ExecErrorView>(
            ValueView::Null,
        ),
{
    lemma_names();
    lemma_least(values, values.len(), i);
    lemma_greatest(values, values.len(), i);
}

} // verus!
