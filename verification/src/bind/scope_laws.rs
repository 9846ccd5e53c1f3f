//! What binding does to variables and scopes: ids are dense and stable, and
//! expressions leave the scope as they found it.

use vstd::prelude::*;

use crate::ast::{ExprView, NodePatternView, PathPatternView, RelPatternView};
use crate::bind::bound::{
    BoundExprView, BoundNodePatternView, BoundRelPatternView, EntityKind, VarId,
};
use crate::bind::rules::{self, Bindings, ExprCtx, Setting};
use crate::exec::inspect;
use crate::exec::value::{self, Order};
use crate::names;
use crate::span::Span;

verus! {

// --- Names ------------------------------------------------------------------------------------------

proof fn lemma_prefix(entries: Seq<(Seq<char>, VarId)>, name: Seq<char>, x: VarId, i: int)
    requires
        0 <= i <= entries.len(),
    ensures
        names::bound_from(entries, name, x, i).len() >= entries.len(),
        forall|k: int| 0 <= k < i ==> names::bound_from(entries, name, x, i)[k] == entries[k],
    decreases entries.len() - i,
{
    if i < entries.len() && value::text_order(entries[i].0, name) == Order::Less {
        lemma_prefix(entries, name, x, i + 1);
    }
}

proof fn lemma_rebound(
    entries: Seq<(Seq<char>, VarId)>,
    name: Seq<char>,
    x: VarId,
    y: VarId,
    i: int,
)
    requires
        0 <= i <= entries.len(),
    ensures
        names::bound_from(names::bound_from(entries, name, x, i), name, y, i)
            == names::bound_from(entries, name, y, i),
    decreases entries.len() - i,
{
    inspect::lemma_text_order_equal(name, name);
    if i >= entries.len() {
        let once = entries.push((name, x));
        assert(once[i] == (name, x));
        assert(once.update(i, (name, y)) =~= entries.push((name, y)));
    } else {
        match value::text_order(entries[i].0, name) {
            Order::Less => {
                lemma_rebound(entries, name, x, y, i + 1);
                lemma_prefix(entries, name, x, i + 1);
            },
            Order::Equal => {
                assert(entries.update(i, (name, x)).update(i, (name, y)) =~= entries.update(
                    i,
                    (name, y),
                ));
            },
            Order::Greater => {
                assert(entries.insert(i, (name, x)).update(i, (name, y)) =~= entries.insert(
                    i,
                    (name, y),
                ));
            },
        }
    }
}

proof fn lemma_found_at(entries: Seq<(Seq<char>, VarId)>, name: Seq<char>, i: int) -> (k: int)
    requires
        0 <= i <= entries.len(),
        names::found_from(entries, name, i) is Some,
    ensures
        i <= k < entries.len(),
        entries[k] == (name, names::found_from(entries, name, i)->Some_0),
    decreases entries.len() - i,
{
    if entries[i].0 == name {
        i
    } else {
        lemma_found_at(entries, name, i + 1)
    }
}

proof fn lemma_bound_as_it_is(entries: Seq<(Seq<char>, VarId)>, name: Seq<char>, i: int)
    requires
        0 <= i <= entries.len(),
        names::ascend(entries),
        names::found_from(entries, name, i) is Some,
    ensures
        names::bound_from(
            entries,
            name,
            names::found_from(entries, name, i)->Some_0,
            i,
        ) == entries,
    decreases entries.len() - i,
{
    let x = names::found_from(entries, name, i)->Some_0;
    let k = lemma_found_at(entries, name, i);
    if entries[i].0 == name {
        inspect::lemma_text_order_equal(name, name);
        assert(entries.update(i, (name, x)) =~= entries);
    } else {
        assert(value::text_order(entries[i].0, entries[k].0) == Order::Less);
        lemma_bound_as_it_is(entries, name, i + 1);
    }
}

proof fn lemma_dropped_again(entries: Seq<(Seq<char>, VarId)>, name: Seq<char>, x: VarId, i: int)
    requires
        0 <= i <= entries.len(),
        names::found_from(entries, name, i) is None,
    ensures
        names::dropped_from(names::bound_from(entries, name, x, i), name, i) == entries,
    decreases entries.len() - i,
{
    if i >= entries.len() {
        let once = entries.push((name, x));
        assert(once[i] == (name, x));
        assert(once.remove(i) =~= entries);
    } else {
        inspect::lemma_text_order_equal(entries[i].0, name);
        match value::text_order(entries[i].0, name) {
            Order::Less => {
                lemma_dropped_again(entries, name, x, i + 1);
                lemma_prefix(entries, name, x, i + 1);
            },
            Order::Equal => {},
            Order::Greater => {
                assert(entries.insert(i, (name, x)).remove(i) =~= entries);
            },
        }
    }
}

/// A name that is declared and then restored is as it was.
pub proof fn a_restored_name_is_as_it_was(scope: Seq<(Seq<char>, VarId)>, name: Seq<char>, x: VarId)
    requires
        names::ascend(scope),
    ensures
        ({
            let inner = names::bound_in(scope, name, x);
            match names::found(scope, name) {
                Some(before) => names::bound_in(inner, name, before) == scope,
                None => names::dropped(inner, name) == scope,
            }
        }),
{
    match names::found(scope, name) {
        Some(before) => {
            lemma_rebound(scope, name, x, before, 0);
            lemma_bound_as_it_is(scope, name, 0);
        },
        None => {
            lemma_dropped_again(scope, name, x, 0);
        },
    }
}

// --- Variables --------------------------------------------------------------------------------------

/// Whether ids are dense: each variable's id is its place.
pub open spec fn is_dense(b: Bindings) -> bool {
    forall|i: int|
        0 <= i < b.variables.len() ==> (#[trigger] b.variables[i]).id == VarId(i as u32)
}

/// Whether `later` has all variables of `b`, in their places.
pub open spec fn extends(b: Bindings, later: Bindings) -> bool {
    &&& b.variables.len() <= later.variables.len()
    &&& forall|i: int|
        0 <= i < b.variables.len() ==> #[trigger] later.variables[i] == b.variables[i]
    &&& is_dense(b) ==> is_dense(later)
}

/// Whether `later` extends `b` and has its scope.
pub open spec fn keeps(b: Bindings, later: Bindings) -> bool {
    extends(b, later) && later.scope == b.scope
}

/// Whether `later` extends `b`, with a scope of its own that is in order.
pub open spec fn widens(b: Bindings, later: Bindings, introduce: bool) -> bool {
    extends(b, later) && names::ascend(later.scope) && (!introduce ==> later.scope == b.scope)
}

pub(crate) proof fn lemma_extends(a: Bindings, b: Bindings, c: Bindings)
    requires
        extends(a, b),
        extends(b, c),
    ensures
        extends(a, c),
{
    assert forall|i: int| 0 <= i < a.variables.len() implies #[trigger] c.variables[i]
        == a.variables[i] by {
        assert(b.variables[i] == a.variables[i]);
    }
}

pub(crate) proof fn lemma_declared(
    b: Bindings,
    name: Seq<char>,
    kind: EntityKind,
    labels: Seq<Seq<char>>,
)
    requires
        names::ascend(b.scope),
    ensures
        extends(b, b.declared(name, kind, labels)),
        extends(b, b.with_variable(name, kind, labels)),
        names::ascend(b.declared(name, kind, labels).scope),
{
    names::names_keep_ascending(b.scope, name, b.next_id());
}

proof fn lemma_restored(
    b: Bindings,
    name: Seq<char>,
    kind: EntityKind,
    labels: Seq<Seq<char>>,
    inner: Bindings,
)
    requires
        names::ascend(b.scope),
        keeps(b.declared(name, kind, labels), inner),
    ensures
        keeps(b, inner.restored(name, b.seen(name))),
{
    lemma_declared(b, name, kind, labels);
    lemma_extends(b, b.declared(name, kind, labels), inner);
    a_restored_name_is_as_it_was(b.scope, name, b.next_id());
    let last = inner.restored(name, b.seen(name));
    assert(last.variables == inner.variables);
}

proof fn lemma_reduced(
    b: Bindings,
    accumulator: Seq<char>,
    variable: Seq<char>,
    inner: Bindings,
)
    requires
        names::ascend(b.scope),
        keeps(
            b.declared(accumulator, EntityKind::Value, seq![]).declared(
                variable,
                EntityKind::Value,
                seq![],
            ),
            inner,
        ),
    ensures
        keeps(
            b,
            inner.restored(
                variable,
                b.declared(accumulator, EntityKind::Value, seq![]).seen(variable),
            ).restored(accumulator, b.seen(accumulator)),
        ),
{
    let first = b.declared(accumulator, EntityKind::Value, seq![]);
    lemma_declared(b, accumulator, EntityKind::Value, seq![]);
    lemma_restored(first, variable, EntityKind::Value, seq![], inner);
    lemma_restored(
        b,
        accumulator,
        EntityKind::Value,
        seq![],
        inner.restored(variable, first.seen(variable)),
    );
}

// --- Expressions ------------------------------------------------------------------------------------

/// Binding an expression leaves the scope as it was, and adds to the variables
/// without touching those that are there: what a comprehension, a quantifier or a
/// `reduce` declares is not visible behind it.
#[verifier::rlimit(60)]
pub proof fn expressions_leave_the_scope_as_it_was(
    e: ExprView,
    ctx: ExprCtx,
    b: Bindings,
    st: Setting,
)
    requires
        names::ascend(b.scope),
    ensures
        rules::expr_bound(e, ctx, b, st) matches Ok((_, later)) ==> keeps(b, later),
    decreases e, 1int, 0int,
{
    reveal(rules::pattern_bound);
    reveal(rules::steps_bound);
    reveal(rules::node_bound);
    reveal(rules::rel_bound);
    match e {
        ExprView::Literal { value, span } => {},
        ExprView::Parameter { name, span } => {},
        ExprView::Variable { name, span } => {},
        ExprView::Property { base, key, span } => {
            expressions_leave_the_scope_as_it_was(*base, ctx, b, st);
        },
        ExprView::Unary { op, operand, span } => {
            expressions_leave_the_scope_as_it_was(*operand, ctx, b, st);
        },
        ExprView::Binary { op, lhs, rhs, span } => {
            expressions_leave_the_scope_as_it_was(*lhs, ctx, b, st);
            if let Ok((_, b1)) = rules::expr_bound(*lhs, ctx, b, st) {
                expressions_leave_the_scope_as_it_was(*rhs, ctx, b1, st);
                if let Ok((_, b2)) = rules::expr_bound(*rhs, ctx, b1, st) {
                    lemma_extends(b, b1, b2);
                }
            }
        },
        ExprView::IsNull { operand, negated, span } => {
            expressions_leave_the_scope_as_it_was(*operand, ctx, b, st);
        },
        ExprView::FunctionCall { name, distinct, args, star, span } => {
            lemma_call(rules::dotted(name, name.len()), distinct, args, star, span, ctx, b, st);
        },
        ExprView::Case { operand, whens, else_expr, span } => {
            lemma_boxed(operand, ctx, b, st);
            if let Ok((_, b1)) = rules::boxed_bound(operand, ctx, b, st) {
                lemma_branches(whens, 0, ctx, b1, st, seq![]);
                if let Ok((_, b2)) = rules::branches_bound(whens, 0, ctx, b1, st, seq![]) {
                    lemma_boxed(else_expr, ctx, b2, st);
                    lemma_extends(b, b1, b2);
                    if let Ok((_, b3)) = rules::boxed_bound(else_expr, ctx, b2, st) {
                        lemma_extends(b, b2, b3);
                    }
                }
            }
        },
        ExprView::ListLiteral { items, span } => {
            lemma_exprs(items, 0, ctx, b, st, seq![]);
        },
        ExprView::ListComprehension { variable, list, where_clause, map, span } => {
            expressions_leave_the_scope_as_it_was(*list, ctx, b, st);
            if let Ok((_, b1)) = rules::expr_bound(*list, ctx, b, st) {
                let inner = b1.declared(variable, EntityKind::Value, seq![]);
                lemma_declared(b1, variable, EntityKind::Value, seq![]);
                lemma_boxed(where_clause, rules::no_aggregates(), inner, st);
                if let Ok((_, b2)) = rules::boxed_bound(
                    where_clause,
                    rules::no_aggregates(),
                    inner,
                    st,
                ) {
                    lemma_boxed(map, rules::no_aggregates(), b2, st);
                    if let Ok((_, b3)) = rules::boxed_bound(map, rules::no_aggregates(), b2, st) {
                        lemma_extends(inner, b2, b3);
                        lemma_restored(b1, variable, EntityKind::Value, seq![], b3);
                        lemma_extends(b, b1, b3.restored(variable, b1.seen(variable)));
                    }
                }
            }
        },
        ExprView::Quantifier { kind, variable, list, predicate, span } => {
            expressions_leave_the_scope_as_it_was(*list, ctx, b, st);
            if let Ok((_, b1)) = rules::expr_bound(*list, ctx, b, st) {
                let inner = b1.declared(variable, EntityKind::Value, seq![]);
                lemma_declared(b1, variable, EntityKind::Value, seq![]);
                expressions_leave_the_scope_as_it_was(
                    *predicate,
                    rules::no_aggregates(),
                    inner,
                    st,
                );
                if let Ok((_, b2)) = rules::expr_bound(
                    *predicate,
                    rules::no_aggregates(),
                    inner,
                    st,
                ) {
                    lemma_restored(b1, variable, EntityKind::Value, seq![], b2);
                    lemma_extends(b, b1, b2.restored(variable, b1.seen(variable)));
                }
            }
        },
        ExprView::Reduce { accumulator, init, variable, list, expr, span } => {
            expressions_leave_the_scope_as_it_was(*init, ctx, b, st);
            if let Ok((_, b1)) = rules::expr_bound(*init, ctx, b, st) {
                expressions_leave_the_scope_as_it_was(*list, ctx, b1, st);
                if let Ok((_, b2)) = rules::expr_bound(*list, ctx, b1, st) {
                    lemma_extends(b, b1, b2);
                }
            }
            if let Ok((_, b1)) = rules::expr_bound(*init, ctx, b, st) {
                if let Ok((_, b2)) = rules::expr_bound(*list, ctx, b1, st) {
                    let first = b2.declared(accumulator, EntityKind::Value, seq![]);
                    let inner = first.declared(variable, EntityKind::Value, seq![]);
                    lemma_declared(b2, accumulator, EntityKind::Value, seq![]);
                    lemma_declared(first, variable, EntityKind::Value, seq![]);
                    expressions_leave_the_scope_as_it_was(
                        *expr,
                        rules::no_aggregates(),
                        inner,
                        st,
                    );
                    if let Ok((_, b3)) = rules::expr_bound(
                        *expr,
                        rules::no_aggregates(),
                        inner,
                        st,
                    ) {
                        lemma_reduced(b2, accumulator, variable, b3);
                        lemma_extends(
                            b,
                            b2,
                            b3.restored(variable, first.seen(variable)).restored(
                                accumulator,
                                b2.seen(accumulator),
                            ),
                        );
                    }
                }
            }
        },
        ExprView::MapLiteral { entries, span } => {
            lemma_entries(entries, 0, ctx, b, st, seq![]);
        },
        ExprView::Index { base, index, span } => {
            expressions_leave_the_scope_as_it_was(*base, ctx, b, st);
            if let Ok((_, b1)) = rules::expr_bound(*base, ctx, b, st) {
                expressions_leave_the_scope_as_it_was(*index, ctx, b1, st);
                if let Ok((_, b2)) = rules::expr_bound(*index, ctx, b1, st) {
                    lemma_extends(b, b1, b2);
                }
            }
        },
        ExprView::Slice { base, from, to, span } => {
            expressions_leave_the_scope_as_it_was(*base, ctx, b, st);
            if let Ok((_, b1)) = rules::expr_bound(*base, ctx, b, st) {
                lemma_boxed(from, ctx, b1, st);
                if let Ok((_, b2)) = rules::boxed_bound(from, ctx, b1, st) {
                    lemma_boxed(to, ctx, b2, st);
                    lemma_extends(b, b1, b2);
                    if let Ok((_, b3)) = rules::boxed_bound(to, ctx, b2, st) {
                        lemma_extends(b, b2, b3);
                    }
                }
            }
        },
        ExprView::PatternPredicate { pattern, span } => {
            lemma_pattern(*pattern, false, b, st);
        },
    }
}

proof fn lemma_boxed(e: Option<Box<ExprView>>, ctx: ExprCtx, b: Bindings, st: Setting)
    requires
        names::ascend(b.scope),
    ensures
        rules::boxed_bound(e, ctx, b, st) matches Ok((_, later)) ==> keeps(b, later),
    decreases e, 0int, 0int,
{
    if let Some(x) = e {
        expressions_leave_the_scope_as_it_was(*x, ctx, b, st);
    }
}

pub(crate) proof fn lemma_exprs(
    items: Seq<ExprView>,
    i: int,
    ctx: ExprCtx,
    b: Bindings,
    st: Setting,
    out: Seq<BoundExprView>,
)
    requires
        names::ascend(b.scope),
    ensures
        rules::exprs_bound(items, i, ctx, b, st, out) matches Ok((_, later)) ==> keeps(b, later),
    decreases items, 0int, items.len() - i,
{
    if !(i < 0 || i >= items.len()) {
        expressions_leave_the_scope_as_it_was(items[i], ctx, b, st);
        if let Ok((x, b1)) = rules::expr_bound(items[i], ctx, b, st) {
            lemma_exprs(items, i + 1, ctx, b1, st, out.push(x));
            if let Ok((_, b2)) = rules::exprs_bound(items, i + 1, ctx, b1, st, out.push(x)) {
                lemma_extends(b, b1, b2);
            }
        }
    }
}

proof fn lemma_branches(
    whens: Seq<(ExprView, ExprView)>,
    i: int,
    ctx: ExprCtx,
    b: Bindings,
    st: Setting,
    out: Seq<(BoundExprView, BoundExprView)>,
)
    requires
        names::ascend(b.scope),
    ensures
        rules::branches_bound(whens, i, ctx, b, st, out) matches Ok((_, later)) ==> keeps(b, later),
    decreases whens, 0int, whens.len() - i,
{
    if !(i < 0 || i >= whens.len()) {
        assert(decreases_to!(whens => whens[i]));
        expressions_leave_the_scope_as_it_was(whens[i].0, ctx, b, st);
        if let Ok((x, b1)) = rules::expr_bound(whens[i].0, ctx, b, st) {
            expressions_leave_the_scope_as_it_was(whens[i].1, ctx, b1, st);
            if let Ok((y, b2)) = rules::expr_bound(whens[i].1, ctx, b1, st) {
                lemma_extends(b, b1, b2);
                lemma_branches(whens, i + 1, ctx, b2, st, out.push((x, y)));
                if let Ok((_, b3)) = rules::branches_bound(
                    whens,
                    i + 1,
                    ctx,
                    b2,
                    st,
                    out.push((x, y)),
                ) {
                    lemma_extends(b, b2, b3);
                }
            }
        }
    }
}

proof fn lemma_entries(
    entries: Seq<(Seq<char>, ExprView)>,
    i: int,
    ctx: ExprCtx,
    b: Bindings,
    st: Setting,
    out: Seq<(Seq<char>, BoundExprView)>,
)
    requires
        names::ascend(b.scope),
    ensures
        rules::entries_bound(
            entries,
            i,
            ctx,
            b,
            st,
            out,
        ) matches Ok((_, later)) ==> keeps(b, later),
    decreases entries, 0int, entries.len() - i,
{
    if !(i < 0 || i >= entries.len()) {
        assert(decreases_to!(entries => entries[i]));
        expressions_leave_the_scope_as_it_was(entries[i].1, ctx, b, st);
        if let Ok((x, b1)) = rules::expr_bound(entries[i].1, ctx, b, st) {
            let next = out.push((entries[i].0, x));
            lemma_entries(entries, i + 1, ctx, b1, st, next);
            if let Ok((_, b2)) = rules::entries_bound(entries, i + 1, ctx, b1, st, next) {
                lemma_extends(b, b1, b2);
            }
        }
    }
}

proof fn lemma_call(
    name: Seq<char>,
    distinct: bool,
    args: Seq<ExprView>,
    star: bool,
    span: Span,
    ctx: ExprCtx,
    b: Bindings,
    st: Setting,
)
    requires
        names::ascend(b.scope),
    ensures
        rules::call_bound(name, distinct, args, star, span, ctx, b, st) matches Ok((_, later)) ==> keeps(
            b,
            later,
        ),
    decreases args, 1int, 0int,
{
    if args.len() == 1 {
        expressions_leave_the_scope_as_it_was(
            args[0],
            ExprCtx { aggregates_allowed: true, in_aggregate: true },
            b,
            st,
        );
    }
    lemma_exprs(args, 0, ctx, b, st, seq![]);
}

// --- Patterns ---------------------------------------------------------------------------------------

pub(crate) proof fn lemma_properties(e: Option<ExprView>, b: Bindings, st: Setting)
    requires
        names::ascend(b.scope),
    ensures
        rules::properties_bound(e, b, st) matches Ok((_, later)) ==> keeps(b, later),
    decreases e, 0int, 0int,
{
    if let Some(x) = e {
        expressions_leave_the_scope_as_it_was(x, rules::no_aggregates(), b, st);
    }
}

proof fn lemma_node_var(node: NodePatternView, introduce: bool, b: Bindings)
    requires
        names::ascend(b.scope),
    ensures
        rules::node_var_bound(node, introduce, b) matches Ok((_, later)) ==> widens(b, later, introduce),
{
    if let Some(name) = node.variable {
        lemma_declared(b, name, EntityKind::Node, node.labels);
    }
}

pub(crate) proof fn lemma_node(node: NodePatternView, introduce: bool, b: Bindings, st: Setting)
    requires
        names::ascend(b.scope),
    ensures
        rules::node_bound(node, introduce, b, st) matches Ok((_, later)) ==> widens(b, later, introduce),
    decreases node, 0int, 0int,
{
    reveal(rules::pattern_bound);
    reveal(rules::steps_bound);
    reveal(rules::node_bound);
    reveal(rules::rel_bound);
    lemma_node_var(node, introduce, b);
    if let Ok((_, b1)) = rules::node_var_bound(node, introduce, b) {
        lemma_properties(node.properties, b1, st);
        if let Ok((_, b2)) = rules::properties_bound(node.properties, b1, st) {
            lemma_extends(b, b1, b2);
        }
    }
}

proof fn lemma_rel_var(rel: RelPatternView, introduce: bool, b: Bindings)
    requires
        names::ascend(b.scope),
    ensures
        rules::rel_var_bound(rel, introduce, b) matches Ok((_, later)) ==> widens(b, later, introduce),
{
    if let Some(name) = rel.variable {
        lemma_declared(b, name, EntityKind::RelationshipList, seq![]);
        lemma_declared(b, name, EntityKind::Relationship, seq![]);
    }
}

proof fn lemma_rel(rel: RelPatternView, introduce: bool, b: Bindings, st: Setting)
    requires
        names::ascend(b.scope),
    ensures
        rules::rel_bound(rel, introduce, b, st) matches Ok((_, later)) ==> widens(b, later, introduce),
    decreases rel, 0int, 0int,
{
    reveal(rules::pattern_bound);
    reveal(rules::steps_bound);
    reveal(rules::node_bound);
    reveal(rules::rel_bound);
    lemma_rel_var(rel, introduce, b);
    if let Ok((_, b1)) = rules::rel_var_bound(rel, introduce, b) {
        lemma_properties(rel.properties, b1, st);
        if let Ok((_, b2)) = rules::properties_bound(rel.properties, b1, st) {
            lemma_extends(b, b1, b2);
        }
    }
}

proof fn lemma_steps(
    steps: Seq<(RelPatternView, NodePatternView)>,
    i: int,
    introduce: bool,
    b: Bindings,
    st: Setting,
    out: Seq<(BoundRelPatternView, BoundNodePatternView)>,
)
    requires
        names::ascend(b.scope),
    ensures
        rules::steps_bound(steps, i, introduce, b, st, out) matches Ok((_, later)) ==> widens(
            b,
            later,
            introduce,
        ),
    decreases steps, 0int, steps.len() - i,
{
    reveal(rules::pattern_bound);
    reveal(rules::steps_bound);
    reveal(rules::node_bound);
    reveal(rules::rel_bound);
    if !(i < 0 || i >= steps.len()) {
        assert(decreases_to!(steps => steps[i]));
        lemma_rel(steps[i].0, introduce, b, st);
        if let Ok((rel, b1)) = rules::rel_bound(steps[i].0, introduce, b, st) {
            lemma_node(steps[i].1, introduce, b1, st);
            if let Ok((node, b2)) = rules::node_bound(steps[i].1, introduce, b1, st) {
                lemma_extends(b, b1, b2);
                lemma_steps(steps, i + 1, introduce, b2, st, out.push((rel, node)));
                if let Ok((_, b3)) = rules::steps_bound(
                    steps,
                    i + 1,
                    introduce,
                    b2,
                    st,
                    out.push((rel, node)),
                ) {
                    lemma_extends(b, b2, b3);
                }
            }
        }
    }
}

pub(crate) proof fn lemma_pattern(p: PathPatternView, introduce: bool, b: Bindings, st: Setting)
    requires
        names::ascend(b.scope),
    ensures
        rules::pattern_bound(p, introduce, b, st) matches Ok((_, later)) ==> widens(b, later, introduce),
    decreases p, 0int, 0int,
{
    reveal(rules::pattern_bound);
    reveal(rules::steps_bound);
    reveal(rules::node_bound);
    reveal(rules::rel_bound);
    if let Some(name) = p.variable {
        lemma_declared(b, name, EntityKind::Path, seq![]);
    }
    if let Ok((_, b1)) = rules::path_var_bound(p.variable, introduce, p.span, b) {
        lemma_node(p.start, introduce, b1, st);
        if let Ok((_, b2)) = rules::node_bound(p.start, introduce, b1, st) {
            lemma_extends(b, b1, b2);
            lemma_steps(p.steps, 0, introduce, b2, st, seq![]);
            if let Ok((_, b3)) = rules::steps_bound(p.steps, 0, introduce, b2, st, seq![]) {
                lemma_extends(b, b2, b3);
            }
        }
    }
}

} // verus!
