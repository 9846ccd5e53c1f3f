//! What the forms of expressions are for: each as a relation between its parts and
//! its result.

use vstd::prelude::*;

use crate::ast::{LiteralView, QuantifierKind};
use crate::bind::bound::{BoundExprView, FunctionDefView, VarId};
use crate::exec::access;
use crate::exec::arith;
use crate::exec::compare;
use crate::exec::fault::ExecErrorView;
use crate::exec::function_laws::{self, Surroundings};
use crate::exec::inspect;
use crate::exec::semantics::{self, Env, Spent};
use crate::exec::value::{PropertyMapView, ValueView};
use crate::span::Span;

verus! {

/// Whether an expression comes to a value, and what is spent then.
#[verifier::opaque]
pub open spec fn becomes(
    e: BoundExprView,
    row: Map<u32, ValueView>,
    env: Env,
    spent: Spent,
    v: ValueView,
    after: Spent,
) -> bool {
    let x = semantics::evaluated(e, row, env, spent);
    x.result == Ok::<_, ExecErrorView>(v) && x.spent == after
}

/// What an expression comes to.
#[verifier::opaque]
pub open spec fn finding(
    e: BoundExprView,
    row: Map<u32, ValueView>,
    env: Env,
    spent: Spent,
) -> Result<ValueView, ExecErrorView> {
    semantics::evaluated(e, row, env, spent).result
}

// --- Atoms ------------------------------------------------------------------------------------------

/// A variable is what the row has under it, a parameter what is given under its name.
pub proof fn names_stand_for_values(
    id: VarId,
    name: Seq<char>,
    span: Span,
    row: Map<u32, ValueView>,
    env: Env,
    spent: Spent,
)
    ensures
        row.dom().contains(id.0) ==> becomes(
            BoundExprView::Variable { id, span },
            row,
            env,
            spent,
            row[id.0],
            spent,
        ),
        env.parameters.lookup(name) matches Some(v) ==> becomes(
            BoundExprView::Parameter { name, span },
            row,
            env,
            spent,
            v,
            spent,
        ),
        env.parameters.lookup(name) is None ==> finding(
            BoundExprView::Parameter { name, span },
            row,
            env,
            spent,
        ) == Err::<ValueView, _>(ExecErrorView::MissingParameter { name, span }),
{
    reveal(becomes);
    reveal(finding);
}

/// A literal is the value that it writes.
pub proof fn literals_stand_for_themselves(
    b: bool,
    n: i64,
    x: u64,
    s: Seq<char>,
    span: Span,
    row: Map<u32, ValueView>,
    env: Env,
    spent: Spent,
)
    ensures
        finding(BoundExprView::Literal { value: LiteralView::Null, span }, row, env, spent) == Ok::<
            _,
            ExecErrorView,
        >(ValueView::Null),
        finding(BoundExprView::Literal { value: LiteralView::Boolean(b), span }, row, env, spent)
            == Ok::<_, ExecErrorView>(ValueView::Bool(b)),
        finding(BoundExprView::Literal { value: LiteralView::Integer(n), span }, row, env, spent)
            == Ok::<_, ExecErrorView>(ValueView::Int(n)),
        finding(BoundExprView::Literal { value: LiteralView::Float(x), span }, row, env, spent)
            == Ok::<_, ExecErrorView>(ValueView::Float(x)),
        finding(BoundExprView::Literal { value: LiteralView::String(s), span }, row, env, spent)
            == Ok::<_, ExecErrorView>(ValueView::String(s)),
{
    reveal(finding);
}

// --- Access -----------------------------------------------------------------------------------------

/// The map of what is called by name in a value.
pub open spec fn holds_names(v: ValueView, m: PropertyMapView) -> bool {
    match v {
        ValueView::Node(n) => n.properties == m,
        ValueView::Relationship(r) => r.properties == m,
        ValueView::Mapping(x) => x == m,
        _ => false,
    }
}

/// A property is what its name stands for in a node, a relationship or a map, and null
/// where nothing has the name.
pub proof fn properties_are_looked_up(
    base: BoundExprView,
    key: Seq<char>,
    span: Span,
    row: Map<u32, ValueView>,
    env: Env,
    spent: Spent,
    v: ValueView,
    after: Spent,
    m: PropertyMapView,
)
    requires
        becomes(base, row, env, spent, v, after),
    ensures
        holds_names(v, m) ==> finding(
            BoundExprView::Property { base: Box::new(base), key, span },
            row,
            env,
            spent,
        ) == Ok::<_, ExecErrorView>(
            match m.lookup(key) {
                Some(found) => found,
                None => ValueView::Null,
            },
        ),
        v is Null ==> finding(
            BoundExprView::Property { base: Box::new(base), key, span },
            row,
            env,
            spent,
        ) == Ok::<_, ExecErrorView>(ValueView::Null),
{
    reveal(becomes);
    reveal(finding);
}

/// Whether two expressions come to values one after the other.
pub open spec fn become_both(
    a: BoundExprView,
    b: BoundExprView,
    row: Map<u32, ValueView>,
    env: Env,
    spent: Spent,
    x: ValueView,
    y: ValueView,
) -> bool {
    exists|after: Spent, end: Spent|
        #[trigger] becomes(a, row, env, spent, x, after) && #[trigger] becomes(
            b,
            row,
            env,
            after,
            y,
            end,
        )
}

proof fn lemma_index(
    base: BoundExprView,
    index: BoundExprView,
    span: Span,
    row: Map<u32, ValueView>,
    env: Env,
    spent: Spent,
    x: ValueView,
    y: ValueView,
)
    requires
        become_both(base, index, row, env, spent, x, y),
    ensures
        finding(
            BoundExprView::Index { base: Box::new(base), index: Box::new(index), span },
            row,
            env,
            spent,
        ) == access::indexed(compare::decayed(x), compare::decayed(y), span),
{
    reveal(becomes);
    reveal(finding);
}

/// An index counts from the front of a list, a negative one from its end; beyond the
/// list there is null.
pub proof fn lists_are_indexed_from_both_ends(
    base: BoundExprView,
    index: BoundExprView,
    span: Span,
    row: Map<u32, ValueView>,
    env: Env,
    spent: Spent,
    items: Seq<ValueView>,
    i: i64,
)
    requires
        become_both(base, index, row, env, spent, ValueView::List(items), ValueView::Int(i)),
    ensures
        ({
            let got = finding(
                BoundExprView::Index { base: Box::new(base), index: Box::new(index), span },
                row,
                env,
                spent,
            );
            &&& 0 <= i < items.len() ==> got == Ok::<_, ExecErrorView>(items[i as int])
            &&& 1 <= -(i as int) <= items.len() ==> got == Ok::<_, ExecErrorView>(
                items[items.len() + i],
            )
            &&& i >= items.len() || -(i as int) > items.len() ==> got == Ok::<_, ExecErrorView>(
                ValueView::Null,
            )
        }),
{
    lemma_index(base, index, span, row, env, spent, ValueView::List(items), ValueView::Int(i));
}

/// What has names is indexed by them as a property is.
pub proof fn names_are_indexed(
    base: BoundExprView,
    index: BoundExprView,
    span: Span,
    row: Map<u32, ValueView>,
    env: Env,
    spent: Spent,
    v: ValueView,
    key: Seq<char>,
    m: PropertyMapView,
)
    requires
        become_both(base, index, row, env, spent, v, ValueView::String(key)),
        holds_names(v, m),
    ensures
        finding(
            BoundExprView::Index { base: Box::new(base), index: Box::new(index), span },
            row,
            env,
            spent,
        ) == Ok::<_, ExecErrorView>(
            match m.lookup(key) {
                Some(found) => found,
                None => ValueView::Null,
            },
        ),
{
    lemma_index(base, index, span, row, env, spent, v, ValueView::String(key));
}

/// A slice holds the elements whose places lie between its bounds, in their order:
/// from the first on, and up to the second, which is left out.
pub proof fn a_slice_is_what_lies_between(
    items: Seq<ValueView>,
    from: i64,
    to: i64,
    span: Span,
    k: int,
)
    requires
        0 <= from <= to <= items.len(),
    ensures
        access::sliced(
            ValueView::List(items),
            Some(ValueView::Int(from)),
            Some(ValueView::Int(to)),
            span,
        ) matches Ok(ValueView::List(r)) && r.len() == to - from && (0 <= k < r.len() ==> r[k]
            == items[from + k]),
        access::sliced(ValueView::List(items), Some(ValueView::Int(from)), None, span) matches Ok(
            ValueView::List(r),
        ) && r.len() == items.len() - from && (0 <= k < r.len() ==> r[k] == items[from + k]),
        access::sliced(ValueView::List(items), None, Some(ValueView::Int(to)), span) matches Ok(
            ValueView::List(r),
        ) && r.len() == to && (0 <= k < r.len() ==> r[k] == items[k]),
        access::sliced(ValueView::List(items), None, None, span) == Ok::<_, ExecErrorView>(
            ValueView::List(items),
        ),
{
    assert(items.subrange(0, items.len() as int) =~= items);
    assert(items.len() == 0 ==> items =~= seq![]);
}

/// A negative bound of a slice counts from the end, and bounds beyond the list stand at
/// its ends.
pub proof fn slice_bounds_count_from_both_ends(
    items: Seq<ValueView>,
    from: i64,
    to: i64,
    other: Option<ValueView>,
    span: Span,
)
    requires
        items.len() <= i64::MAX,
    ensures
        -(items.len() as int) <= from < 0 ==> access::sliced(
            ValueView::List(items),
            Some(ValueView::Int(from)),
            other,
            span,
        ) == access::sliced(
            ValueView::List(items),
            Some(ValueView::Int((items.len() + from) as i64)),
            other,
            span,
        ),
        -(items.len() as int) <= to < 0 ==> access::sliced(
            ValueView::List(items),
            other,
            Some(ValueView::Int(to)),
            span,
        ) == access::sliced(
            ValueView::List(items),
            other,
            Some(ValueView::Int((items.len() + to) as i64)),
            span,
        ),
        to > items.len() ==> access::sliced(
            ValueView::List(items),
            other,
            Some(ValueView::Int(to)),
            span,
        ) == access::sliced(ValueView::List(items), other, None, span),
        from < -(items.len() as int) ==> access::sliced(
            ValueView::List(items),
            Some(ValueView::Int(from)),
            other,
            span,
        ) == access::sliced(ValueView::List(items), None, other, span),
{
}

/// A slice is taken of what its list and its bounds come to.
pub proof fn a_slice_is_taken_of_its_parts(
    base: BoundExprView,
    from: BoundExprView,
    to: BoundExprView,
    span: Span,
    row: Map<u32, ValueView>,
    env: Env,
    ss: Seq<Spent>,
    items: Seq<ValueView>,
    a: i64,
    b: i64,
)
    requires
        ss.len() == 4,
        becomes(base, row, env, ss[0], ValueView::List(items), ss[1]),
        becomes(from, row, env, ss[1], ValueView::Int(a), ss[2]),
        becomes(to, row, env, ss[2], ValueView::Int(b), ss[3]),
    ensures
        finding(
            BoundExprView::Slice {
                base: Box::new(base),
                from: Some(Box::new(from)),
                to: Some(Box::new(to)),
                span,
            },
            row,
            env,
            ss[0],
        ) == access::sliced(
            ValueView::List(items),
            Some(ValueView::Int(a)),
            Some(ValueView::Int(b)),
            span,
        ),
{
    reveal(becomes);
    reveal(finding);
}

// --- Lists and maps ---------------------------------------------------------------------------------

/// Whether expressions come to values, one after the other.
pub open spec fn become_all(
    items: Seq<BoundExprView>,
    row: Map<u32, ValueView>,
    env: Env,
    values: Seq<ValueView>,
    ss: Seq<Spent>,
) -> bool {
    &&& values.len() == items.len()
    &&& ss.len() == items.len() + 1
    &&& forall|i: int|
        0 <= i < items.len() ==> #[trigger] becomes(
            items[i],
            row,
            env,
            ss[i],
            values[i],
            ss[i + 1],
        )
}

proof fn lemma_items(
    items: Seq<BoundExprView>,
    span: Span,
    i: int,
    row: Map<u32, ValueView>,
    env: Env,
    values: Seq<ValueView>,
    ss: Seq<Spent>,
)
    requires
        become_all(items, row, env, values, ss),
        forall|k: int| 0 <= k < values.len() ==> arith::nestable(#[trigger] values[k]),
        0 <= i <= items.len(),
    ensures
        semantics::items_from(items, span, i, values.take(i), row, env, ss[i]).result == Ok::<
            _,
            ExecErrorView,
        >(values),
    decreases items.len() - i,
{
    if i < items.len() {
        assert(becomes(items[i], row, env, ss[i], values[i], ss[i + 1]));
        reveal(becomes);
        assert(values.take(i).push(values[i]) =~= values.take(i + 1));
        lemma_items(items, span, i + 1, row, env, values, ss);
    } else {
        assert(values.take(i) =~= values);
    }
}

/// A list literal is the list of what its elements come to, in their order.
pub proof fn a_list_holds_its_elements(
    items: Seq<BoundExprView>,
    span: Span,
    row: Map<u32, ValueView>,
    env: Env,
    values: Seq<ValueView>,
    ss: Seq<Spent>,
)
    requires
        become_all(items, row, env, values, ss),
        forall|k: int| 0 <= k < values.len() ==> arith::nestable(#[trigger] values[k]),
    ensures
        finding(BoundExprView::ListLiteral { items, span }, row, env, ss[0]) == Ok::<
            _,
            ExecErrorView,
        >(ValueView::List(values)),
{
    lemma_items(items, span, 0, row, env, values, ss);
    assert(values.take(0) =~= seq![]);
    reveal(finding);
}

proof fn lemma_entries(
    entries: Seq<(Seq<char>, BoundExprView)>,
    span: Span,
    i: int,
    before: PropertyMapView,
    row: Map<u32, ValueView>,
    env: Env,
    values: Seq<ValueView>,
    ss: Seq<Spent>,
    name: Seq<char>,
    at: int,
)
    requires
        become_all(Seq::new(entries.len(), |k: int| entries[k].1), row, env, values, ss),
        forall|k: int| 0 <= k < values.len() ==> arith::nestable(#[trigger] values[k]),
        0 <= i <= entries.len(),
        -1 <= at < entries.len(),
        at >= 0 ==> entries[at].0 == name,
        forall|k: int| at < k < entries.len() ==> (#[trigger] entries[k]).0 != name,
        at < i ==> before.lookup(name) == (if at >= 0 {
            Some(values[at])
        } else {
            None
        }),
    ensures
        semantics::entries_from(entries, span, i, before, row, env, ss[i]).result matches Ok(
            ValueView::Mapping(m),
        ) && m.lookup(name) == (if at >= 0 {
            Some(values[at])
        } else {
            None
        }),
    decreases entries.len() - i,
{
    if i < entries.len() {
        let items = Seq::new(entries.len(), |k: int| entries[k].1);
        assert(becomes(items[i], row, env, ss[i], values[i], ss[i + 1]));
        reveal(becomes);
        assert(items[i] == entries[i].1);
        inspect::lookup_after_insert(before, entries[i].0, values[i], name);
        lemma_entries(
            entries,
            span,
            i + 1,
            before.inserted(entries[i].0, values[i]),
            row,
            env,
            values,
            ss,
            name,
            at,
        );
    }
}

/// A map literal has under each name what its last entry of that name comes to, and
/// nothing under other names.
pub proof fn a_map_holds_its_entries(
    entries: Seq<(Seq<char>, BoundExprView)>,
    span: Span,
    row: Map<u32, ValueView>,
    env: Env,
    values: Seq<ValueView>,
    ss: Seq<Spent>,
    name: Seq<char>,
    at: int,
)
    requires
        become_all(Seq::new(entries.len(), |k: int| entries[k].1), row, env, values, ss),
        forall|k: int| 0 <= k < values.len() ==> arith::nestable(#[trigger] values[k]),
        -1 <= at < entries.len(),
        at >= 0 ==> entries[at].0 == name,
        forall|k: int| at < k < entries.len() ==> (#[trigger] entries[k]).0 != name,
    ensures
        finding(BoundExprView::MapLiteral { entries, span }, row, env, ss[0]) matches Ok(
            ValueView::Mapping(m),
        ) && m.lookup(name) == (if at >= 0 {
            Some(values[at])
        } else {
            None
        }),
{
    lemma_entries(entries, span, 0, PropertyMapView::empty(), row, env, values, ss, name, at);
    reveal(finding);
}

proof fn lemma_arguments(
    args: Seq<BoundExprView>,
    i: int,
    row: Map<u32, ValueView>,
    env: Env,
    values: Seq<ValueView>,
    ss: Seq<Spent>,
)
    requires
        become_all(args, row, env, values, ss),
        0 <= i <= args.len(),
        forall|k: int| 0 <= k < values.len() ==> compare::decayed(#[trigger] values[k]) == values[k],
    ensures
        ({
            let a = semantics::arguments_from(args, i, values.take(i), row, env, ss[i]);
            a.result == Ok::<_, ExecErrorView>(values) && a.spent == ss[args.len() as int]
        }),
    decreases args.len() - i,
{
    if i < args.len() {
        assert(becomes(args[i], row, env, ss[i], values[i], ss[i + 1]));
        reveal(becomes);
        assert(values.take(i).push(values[i]) =~= values.take(i + 1));
        lemma_arguments(args, i + 1, row, env, values, ss);
    } else {
        assert(values.take(i) =~= values);
    }
}

/// A function is called with what its arguments come to, in their order.
pub proof fn a_function_is_called_with_its_arguments(
    def: FunctionDefView,
    args: Seq<BoundExprView>,
    span: Span,
    row: Map<u32, ValueView>,
    env: Env,
    values: Seq<ValueView>,
    ss: Seq<Spent>,
)
    requires
        become_all(args, row, env, values, ss),
        forall|k: int| 0 <= k < values.len() ==> compare::decayed(#[trigger] values[k]) == values[k],
    ensures
        finding(BoundExprView::Function { def, args, span }, row, env, ss[0])
            == function_laws::called(
            def.name,
            values,
            span,
            Surroundings {
                graph: env.graph,
                floats: env.floats,
                budget: ss[args.len() as int].budget,
            },
        ),
{
    lemma_arguments(args, 0, row, env, values, ss);
    assert(values.take(0) =~= seq![]);
    reveal(finding);
}

// --- Case -------------------------------------------------------------------------------------------

/// Whether a branch of a `CASE` is the one to take: its condition is true, or equal to
/// the subject where there is one.
pub open spec fn takes(subject: Option<ValueView>, v: ValueView) -> bool {
    match subject {
        Some(s) => compare::equality(s, v) == Some(true),
        None => v == ValueView::Bool(true),
    }
}

/// Whether a branch of a `CASE` is passed over.
pub open spec fn passes_by(subject: Option<ValueView>, v: ValueView) -> bool {
    match subject {
        Some(s) => compare::equality(s, v) != Some(true),
        None => v == ValueView::Bool(false) || v is Null,
    }
}

proof fn lemma_case(
    whens: Seq<(BoundExprView, BoundExprView)>,
    otherwise: Option<Box<BoundExprView>>,
    operand: Option<Box<BoundExprView>>,
    subject: Option<ValueView>,
    span: Span,
    i: int,
    row: Map<u32, ValueView>,
    env: Env,
    conditions: Seq<ValueView>,
    ss: Seq<Spent>,
    at: int,
)
    requires
        env.slots is None,
        0 <= i <= at <= whens.len(),
        conditions.len() == whens.len(),
        ss.len() == whens.len() + 1,
        forall|k: int|
            0 <= k < whens.len() && k <= at ==> #[trigger] becomes(
                whens[k].0,
                row,
                env,
                ss[k],
                conditions[k],
                ss[k + 1],
            ),
        forall|k: int| 0 <= k < at ==> passes_by(subject, #[trigger] conditions[k]),
        at < whens.len() ==> takes(subject, conditions[at]),
    ensures
        ({
            let e = BoundExprView::Case { operand, whens, else_expr: otherwise, span };
            let got = semantics::case_from(e, subject, i, row, env, ss[i]).result;
            &&& at < whens.len() ==> got == finding(whens[at].1, row, env, ss[at + 1])
            &&& at == whens.len() ==> got == (match otherwise {
                Some(x) => finding(*x, row, env, ss[at]),
                None => Ok(ValueView::Null),
            })
        }),
    decreases at - i,
{
    reveal(finding);
    if i < whens.len() {
        assert(becomes(whens[i].0, row, env, ss[i], conditions[i], ss[i + 1]));
        reveal(becomes);
        if i < at {
            assert(passes_by(subject, conditions[i]));
            lemma_case(
                whens,
                otherwise,
                operand,
                subject,
                span,
                i + 1,
                row,
                env,
                conditions,
                ss,
                at,
            );
        }
    }
}

/// A `CASE` comes to the branch of the first condition that is true, or that is equal to
/// the subject where there is one; where there is none, to what stands behind `ELSE`, or
/// to null.
pub proof fn a_case_takes_its_first_branch(
    whens: Seq<(BoundExprView, BoundExprView)>,
    otherwise: Option<Box<BoundExprView>>,
    operand: Option<BoundExprView>,
    subject: Option<ValueView>,
    span: Span,
    row: Map<u32, ValueView>,
    env: Env,
    spent: Spent,
    conditions: Seq<ValueView>,
    ss: Seq<Spent>,
    at: int,
)
    requires
        env.slots is None,
        match (operand, subject) {
            (Some(e), Some(v)) => becomes(e, row, env, spent, v, ss[0]),
            (None, None) => ss[0] == spent,
            _ => false,
        },
        0 <= at <= whens.len(),
        conditions.len() == whens.len(),
        ss.len() == whens.len() + 1,
        forall|k: int|
            0 <= k < whens.len() && k <= at ==> #[trigger] becomes(
                whens[k].0,
                row,
                env,
                ss[k],
                conditions[k],
                ss[k + 1],
            ),
        forall|k: int| 0 <= k < at ==> passes_by(subject, #[trigger] conditions[k]),
        at < whens.len() ==> takes(subject, conditions[at]),
    ensures
        ({
            let boxed = match operand {
                Some(e) => Some(Box::new(e)),
                None => None,
            };
            let e = BoundExprView::Case { operand: boxed, whens, else_expr: otherwise, span };
            let got = finding(e, row, env, spent);
            &&& at < whens.len() ==> got == finding(whens[at].1, row, env, ss[at + 1])
            &&& at == whens.len() ==> got == (match otherwise {
                Some(x) => finding(*x, row, env, ss[at]),
                None => Ok(ValueView::Null),
            })
        }),
{
    let boxed = match operand {
        Some(e) => Some(Box::new(e)),
        None => None,
    };
    let e = BoundExprView::Case { operand: boxed, whens, else_expr: otherwise, span };
    lemma_case(whens, otherwise, boxed, subject, span, 0, row, env, conditions, ss, at);
    assert(finding(e, row, env, spent) == semantics::case_from(
        e,
        subject,
        0,
        row,
        env,
        ss[0],
    ).result) by {
        reveal(finding);
        reveal(becomes);
    }
}

// --- Lists in loops ---------------------------------------------------------------------------------

/// How many of the truth values are `t`.
pub open spec fn how_many(truths: Seq<Option<bool>>, t: Option<bool>) -> nat {
    truths.filter(|x: Option<bool>| x == t).len()
}

/// A quantifier over known truth values: `any` is true where one is, `all` where every
/// one is, `none` where none is and `single` where exactly one is.
pub proof fn quantifiers_count(kind: QuantifierKind, t: nat, f: nat)
    ensures
        semantics::quantified(kind, t, 0, f) == ValueView::Bool(
            match kind {
                QuantifierKind::Any => t > 0,
                QuantifierKind::All => f == 0,
                QuantifierKind::NoneOf => t == 0,
                QuantifierKind::Single => t == 1,
            },
        ),
{
}

/// What a quantifier says where `k` of the `n` unknown truth values turn out true.
pub open spec fn settled(kind: QuantifierKind, t: nat, n: nat, f: nat, k: nat) -> ValueView {
    semantics::quantified(kind, t + k, 0, (f + n - k) as nat)
}

/// A quantifier over truth values of which some are unknown is known just where it comes
/// out the same whatever those are.
pub proof fn quantifiers_know_what_they_can(kind: QuantifierKind, t: nat, n: nat, f: nat, b: bool)
    ensures
        semantics::quantified(kind, t, n, f) == ValueView::Bool(b) <==> forall|k: nat|
            k <= n ==> #[trigger] settled(kind, t, n, f, k) == ValueView::Bool(b),
        semantics::quantified(kind, t, n, f) is Null || semantics::quantified(kind, t, n, f) is Bool,
{
    let (zero, one) = (0nat, 1nat);
    if forall|k: nat| k <= n ==> #[trigger] settled(kind, t, n, f, k) == ValueView::Bool(b) {
        assert(settled(kind, t, n, f, zero) == ValueView::Bool(b));
        assert(settled(kind, t, n, f, n) == ValueView::Bool(b));
        if n >= 1 {
            assert(settled(kind, t, n, f, one) == ValueView::Bool(b));
        }
    }
}

/// Whether a predicate comes to truth values over the elements of a list, one after the
/// other.
pub open spec fn tells_each(
    predicate: BoundExprView,
    variable: VarId,
    values: Seq<ValueView>,
    truths: Seq<Option<bool>>,
    row: Map<u32, ValueView>,
    env: Env,
    ss: Seq<Spent>,
) -> bool {
    &&& truths.len() == values.len()
    &&& ss.len() == values.len() + 1
    &&& forall|i: int|
        0 <= i < values.len() ==> {
            let c = (#[trigger] ss[i]).budget.collection_push(i as nat);
            c.result is Ok && becomes(
                predicate,
                row.insert(variable.0, values[i]),
                env,
                semantics::with_budget(ss[i], c.budget),
                match truths[i] {
                    Some(b) => ValueView::Bool(b),
                    None => ValueView::Null,
                },
                ss[i + 1],
            )
        }
}

proof fn lemma_counted(truths: Seq<Option<bool>>, i: int, t: Option<bool>)
    requires
        0 <= i < truths.len(),
    ensures
        how_many(truths.take(i + 1), t) == how_many(truths.take(i), t) + (if truths[i] == t {
            1nat
        } else {
            0nat
        }),
{
    reveal(Seq::filter);
    assert(truths.take(i + 1).drop_last() =~= truths.take(i));
}

proof fn lemma_all_counted(truths: Seq<Option<bool>>, i: int)
    requires
        0 <= i <= truths.len(),
    ensures
        how_many(truths.take(i), Some(true)) + how_many(truths.take(i), Some(false)) + how_many(
            truths.take(i),
            None,
        ) == i,
    decreases i,
{
    reveal(Seq::filter);
    if i == 0 {
        assert(truths.take(0).len() == 0);
        assert(how_many(truths.take(0), Some(true)) == 0);
        assert(how_many(truths.take(0), Some(false)) == 0);
        assert(how_many(truths.take(0), None) == 0);
    } else {
        assert(truths.take(i - 1 + 1) =~= truths.take(i));
        lemma_all_counted(truths, i - 1);
        lemma_counted(truths, i - 1, Some(true));
        lemma_counted(truths, i - 1, Some(false));
        lemma_counted(truths, i - 1, None);
        let last = truths[i - 1];
        assert(last == Some(true) || last == Some(false) || last == None::<bool>);
    }
}

proof fn lemma_quantified(
    kind: QuantifierKind,
    variable: VarId,
    list: BoundExprView,
    predicate: BoundExprView,
    span: Span,
    values: Seq<ValueView>,
    i: int,
    truths: Seq<Option<bool>>,
    row: Map<u32, ValueView>,
    env: Env,
    ss: Seq<Spent>,
)
    requires
        tells_each(predicate, variable, values, truths, row, env, ss),
        0 <= i <= values.len(),
    ensures
        semantics::quantified_from(
            BoundExprView::Quantifier {
                kind,
                variable,
                list: Box::new(list),
                predicate: Box::new(predicate),
                span,
            },
            values,
            i,
            how_many(truths.take(i), Some(true)),
            how_many(truths.take(i), None),
            row,
            env,
            ss[i],
        ).result == Ok::<_, ExecErrorView>(
            semantics::quantified(
                kind,
                how_many(truths, Some(true)),
                how_many(truths, None),
                how_many(truths, Some(false)),
            ),
        ),
    decreases values.len() - i,
{
    if i < values.len() {
        let c = ss[i].budget.collection_push(i as nat);
        assert(c.result is Ok);
        reveal(becomes);
        lemma_counted(truths, i, Some(true));
        lemma_counted(truths, i, None);
        lemma_quantified(
            kind,
            variable,
            list,
            predicate,
            span,
            values,
            i + 1,
            truths,
            row,
            env,
            ss,
        );
    } else {
        assert(truths.take(i) =~= truths);
        lemma_all_counted(truths, i);
    }
}

/// A quantifier tells of how many elements of its list the predicate is true, false and
/// unknown.
pub proof fn a_quantifier_goes_by_its_predicate(
    kind: QuantifierKind,
    variable: VarId,
    list: BoundExprView,
    predicate: BoundExprView,
    span: Span,
    values: Seq<ValueView>,
    truths: Seq<Option<bool>>,
    row: Map<u32, ValueView>,
    env: Env,
    spent: Spent,
    ss: Seq<Spent>,
)
    requires
        ss.len() > 0,
        becomes(list, row, env, spent, ValueView::List(values), ss[0]),
        tells_each(predicate, variable, values, truths, row, env, ss),
    ensures
        finding(
            BoundExprView::Quantifier {
                kind,
                variable,
                list: Box::new(list),
                predicate: Box::new(predicate),
                span,
            },
            row,
            env,
            spent,
        ) == Ok::<_, ExecErrorView>(
            semantics::quantified(
                kind,
                how_many(truths, Some(true)),
                how_many(truths, None),
                how_many(truths, Some(false)),
            ),
        ),
{
    lemma_quantified(kind, variable, list, predicate, span, values, 0, truths, row, env, ss);
    reveal(Seq::filter);
    assert(how_many(truths.take(0), Some(true)) == 0);
    assert(how_many(truths.take(0), None) == 0);
    reveal(becomes);
    reveal(finding);
}

/// Whether a fold comes to values one after the other: each from the one before it and
/// an element.
pub open spec fn folds(
    expr: BoundExprView,
    accumulator: VarId,
    variable: VarId,
    values: Seq<ValueView>,
    accs: Seq<ValueView>,
    row: Map<u32, ValueView>,
    env: Env,
    ss: Seq<Spent>,
) -> bool {
    &&& accs.len() == values.len() + 1
    &&& ss.len() == values.len() + 1
    &&& forall|i: int|
        0 <= i < values.len() ==> {
            let c = (#[trigger] ss[i]).budget.collection_push(i as nat);
            c.result is Ok && becomes(
                expr,
                row.insert(accumulator.0, accs[i]).insert(variable.0, values[i]),
                env,
                semantics::with_budget(ss[i], c.budget),
                accs[i + 1],
                ss[i + 1],
            )
        }
}

proof fn lemma_reduced(
    accumulator: VarId,
    init: BoundExprView,
    variable: VarId,
    list: BoundExprView,
    expr: BoundExprView,
    span: Span,
    values: Seq<ValueView>,
    i: int,
    accs: Seq<ValueView>,
    row: Map<u32, ValueView>,
    env: Env,
    ss: Seq<Spent>,
)
    requires
        folds(expr, accumulator, variable, values, accs, row, env, ss),
        0 <= i <= values.len(),
    ensures
        semantics::reduced_from(
            BoundExprView::Reduce {
                accumulator,
                init: Box::new(init),
                variable,
                list: Box::new(list),
                expr: Box::new(expr),
                span,
            },
            values,
            i,
            accs[i],
            row,
            env,
            ss[i],
        ).result == Ok::<_, ExecErrorView>(accs[values.len() as int]),
    decreases values.len() - i,
{
    if i < values.len() {
        let c = ss[i].budget.collection_push(i as nat);
        assert(c.result is Ok);
        reveal(becomes);
        lemma_reduced(
            accumulator,
            init,
            variable,
            list,
            expr,
            span,
            values,
            i + 1,
            accs,
            row,
            env,
            ss,
        );
    }
}

/// `reduce` folds the elements of its list from the first to the last, starting from its
/// first value.
pub proof fn reduce_folds_from_the_first_element(
    accumulator: VarId,
    init: BoundExprView,
    variable: VarId,
    list: BoundExprView,
    expr: BoundExprView,
    span: Span,
    values: Seq<ValueView>,
    accs: Seq<ValueView>,
    row: Map<u32, ValueView>,
    env: Env,
    spent: Spent,
    between: Spent,
    ss: Seq<Spent>,
)
    requires
        ss.len() > 0,
        accs.len() > 0,
        becomes(list, row, env, spent, ValueView::List(values), between),
        becomes(init, row, env, between, accs[0], ss[0]),
        folds(expr, accumulator, variable, values, accs, row, env, ss),
    ensures
        finding(
            BoundExprView::Reduce {
                accumulator,
                init: Box::new(init),
                variable,
                list: Box::new(list),
                expr: Box::new(expr),
                span,
            },
            row,
            env,
            spent,
        ) == Ok::<_, ExecErrorView>(accs.last()),
{
    lemma_reduced(
        accumulator,
        init,
        variable,
        list,
        expr,
        span,
        values,
        0,
        accs,
        row,
        env,
        ss,
    );
    reveal(becomes);
    reveal(finding);
}

// --- Comprehensions ---------------------------------------------------------------------------------

/// Whether a list comprehension keeps an element and makes a value of it, or passes it
/// by: `made` holds one value or none. `n` values were made before.
pub open spec fn makes(
    where_clause: Option<BoundExprView>,
    map: Option<BoundExprView>,
    inner: Map<u32, ValueView>,
    element: ValueView,
    made: Seq<ValueView>,
    n: nat,
    env: Env,
    from: Spent,
    between: Spent,
    to: Spent,
) -> bool {
    let kept = made.len() == 1;
    let c = between.budget.collection_push(n);
    &&& made.len() <= 1
    &&& match where_clause {
        Some(e) => if kept {
            becomes(e, inner, env, from, ValueView::Bool(true), between)
        } else {
            becomes(e, inner, env, from, ValueView::Bool(false), between) || becomes(
                e,
                inner,
                env,
                from,
                ValueView::Null,
                between,
            )
        },
        None => kept && between == from,
    }
    &&& !kept ==> to == between
    &&& kept ==> c.result is Ok && arith::nestable(made[0]) && match map {
        Some(e) => becomes(
            e,
            inner,
            env,
            semantics::with_budget(between, c.budget),
            made[0],
            to,
        ),
        None => made[0] == element && to == semantics::with_budget(between, c.budget),
    }
}

/// The values of all parts, one after the other.
pub open spec fn all_made(made: Seq<Seq<ValueView>>, n: nat) -> Seq<ValueView>
    decreases n,
{
    if n == 0 || n > made.len() {
        seq![]
    } else {
        all_made(made, (n - 1) as nat) + made[n - 1]
    }
}

pub open spec fn boxed(e: Option<BoundExprView>) -> Option<Box<BoundExprView>> {
    match e {
        Some(x) => Some(Box::new(x)),
        None => None,
    }
}

/// Whether a list comprehension makes its values of the elements of a list, one after
/// the other.
pub open spec fn makes_each(
    where_clause: Option<BoundExprView>,
    map: Option<BoundExprView>,
    variable: VarId,
    values: Seq<ValueView>,
    made: Seq<Seq<ValueView>>,
    row: Map<u32, ValueView>,
    env: Env,
    ss: Seq<Spent>,
    bs: Seq<Spent>,
) -> bool {
    &&& made.len() == values.len()
    &&& bs.len() == values.len()
    &&& ss.len() == values.len() + 1
    &&& forall|i: int|
        0 <= i < values.len() ==> makes(
            where_clause,
            map,
            row.insert(variable.0, values[i]),
            values[i],
            made[i],
            all_made(made, i as nat).len(),
            env,
            #[trigger] ss[i],
            bs[i],
            ss[i + 1],
        )
}

proof fn lemma_comprehended(
    where_clause: Option<BoundExprView>,
    map: Option<BoundExprView>,
    variable: VarId,
    list: BoundExprView,
    span: Span,
    values: Seq<ValueView>,
    i: int,
    made: Seq<Seq<ValueView>>,
    row: Map<u32, ValueView>,
    env: Env,
    ss: Seq<Spent>,
    bs: Seq<Spent>,
)
    requires
        makes_each(where_clause, map, variable, values, made, row, env, ss, bs),
        0 <= i <= values.len(),
    ensures
        semantics::comprehended_from(
            BoundExprView::ListComprehension {
                variable,
                list: Box::new(list),
                where_clause: boxed(where_clause),
                map: boxed(map),
                span,
            },
            values,
            i,
            all_made(made, i as nat),
            row,
            env,
            ss[i],
        ).result == Ok::<_, ExecErrorView>(ValueView::List(all_made(made, made.len()))),
    decreases values.len() - i,
{
    let e = BoundExprView::ListComprehension {
        variable,
        list: Box::new(list),
        where_clause: boxed(where_clause),
        map: boxed(map),
        span,
    };
    if i < values.len() {
        let before = all_made(made, i as nat);
        assert(ss[i] == ss[i]);
        reveal(becomes);
        lemma_comprehended(
            where_clause,
            map,
            variable,
            list,
            span,
            values,
            i + 1,
            made,
            row,
            env,
            ss,
            bs,
        );
        assert(all_made(made, (i + 1) as nat) == before + made[i]);
        if made[i].len() == 1 {
            assert(before + made[i] =~= before.push(made[i][0]));
            assert(semantics::comprehended_element(e, values, i, before, row, env, bs[i])
                == semantics::comprehended_from(
                e,
                values,
                i + 1,
                before.push(made[i][0]),
                row,
                env,
                ss[i + 1],
            ));
        } else {
            assert(before + made[i] =~= before);
        }
    }
}

/// A list comprehension makes a value of each element for which its condition is true,
/// in their order.
pub proof fn a_comprehension_makes_values_of_elements(
    where_clause: Option<BoundExprView>,
    map: Option<BoundExprView>,
    variable: VarId,
    list: BoundExprView,
    span: Span,
    values: Seq<ValueView>,
    made: Seq<Seq<ValueView>>,
    row: Map<u32, ValueView>,
    env: Env,
    spent: Spent,
    ss: Seq<Spent>,
    bs: Seq<Spent>,
)
    requires
        ss.len() > 0,
        becomes(list, row, env, spent, ValueView::List(values), ss[0]),
        makes_each(where_clause, map, variable, values, made, row, env, ss, bs),
    ensures
        finding(
            BoundExprView::ListComprehension {
                variable,
                list: Box::new(list),
                where_clause: boxed(where_clause),
                map: boxed(map),
                span,
            },
            row,
            env,
            spent,
        ) == Ok::<_, ExecErrorView>(ValueView::List(all_made(made, made.len()))),
{
    lemma_comprehended(where_clause, map, variable, list, span, values, 0, made, row, env, ss, bs);
    reveal(becomes);
    reveal(finding);
}

} // verus!
