//! What binding keeps of an expression: its form, its operators, its literals, its names
//! and the patterns in it.

use vstd::prelude::*;

use crate::ast::{ExprView, NodePatternView, PathPatternView, RelPatternView};
use crate::bind::bound::{
    self, BoundExprView, BoundNodePatternView, BoundPathPatternView, BoundRelPatternView,
    EntityKind,
};
use crate::bind::error::BindErrorView;
use crate::bind::rules::{self, Bindings, ExprCtx, Setting};
use crate::span::Span;
use crate::text;

verus! {

/// A dotted name in one text.
pub open spec fn whole_name(segments: Seq<Seq<char>>) -> Seq<char> {
    rules::dotted(segments, segments.len())
}

/// Whether a bound expression has the form of an expression: the same operators,
/// literals and names, and parts that have the form of its parts.
pub open spec fn mirrors(e: ExprView, x: BoundExprView) -> bool
    decreases e, 1int, 0int,
{
    match e {
        ExprView::Literal { value, .. } => x matches BoundExprView::Literal { value: v, .. } && v
            == value,
        ExprView::Parameter { name, .. } => x matches BoundExprView::Parameter { name: n, .. } && n
            == name,
        ExprView::Variable { name, .. } => x is Variable,
        ExprView::Property { base, key, .. } => x matches BoundExprView::Property {
            base: y,
            key: k,
            ..
        } && k == key && mirrors(*base, *y),
        ExprView::Unary { op, operand, .. } => x matches BoundExprView::Unary {
            op: o,
            operand: y,
            ..
        } && o == op && mirrors(*operand, *y),
        ExprView::Binary { op, lhs, rhs, .. } => x matches BoundExprView::Binary {
            op: o,
            lhs: y,
            rhs: z,
            ..
        } && o == op && mirrors(*lhs, *y) && mirrors(*rhs, *z),
        ExprView::IsNull { operand, negated, .. } => x matches BoundExprView::IsNull {
            operand: y,
            negated: n,
            ..
        } && n == negated && mirrors(*operand, *y),
        ExprView::FunctionCall { name, distinct, args, star, .. } => match x {
            BoundExprView::Function { def, args: ys, .. } => text::same_ignoring_case(
                def.name,
                whole_name(name),
            ) && !star && !distinct && ys.len() == args.len() && mirror_each(args, ys, ys.len()),
            BoundExprView::Aggregate { def, distinct: d, arg, .. } => text::same_ignoring_case(
                def.name,
                whole_name(name),
            ) && d == distinct && match arg {
                None => star,
                Some(y) => !star && args.len() == 1 && mirrors(args[0], *y),
            },
            _ => false,
        },
        ExprView::Case { operand, whens, else_expr, .. } => x matches BoundExprView::Case {
            operand: y,
            whens: ws,
            else_expr: z,
            ..
        } && mirror_maybe(operand, y) && ws.len() == whens.len() && mirror_branches(
            whens,
            ws,
            ws.len(),
        ) && mirror_maybe(else_expr, z),
        ExprView::ListLiteral { items, .. } => x matches BoundExprView::ListLiteral {
            items: ys,
            ..
        } && ys.len() == items.len() && mirror_each(items, ys, ys.len()),
        ExprView::ListComprehension { list, where_clause, map, .. } => x matches BoundExprView::ListComprehension {
            list: y,
            where_clause: w,
            map: m,
            ..
        } && mirrors(*list, *y) && mirror_maybe(where_clause, w) && mirror_maybe(map, m),
        ExprView::Quantifier { kind, list, predicate, .. } => x matches BoundExprView::Quantifier {
            kind: k,
            list: y,
            predicate: p,
            ..
        } && k == kind && mirrors(*list, *y) && mirrors(*predicate, *p),
        ExprView::Reduce { init, list, expr, .. } => x matches BoundExprView::Reduce {
            init: i,
            list: y,
            expr: z,
            ..
        } && mirrors(*init, *i) && mirrors(*list, *y) && mirrors(*expr, *z),
        ExprView::MapLiteral { entries, .. } => x matches BoundExprView::MapLiteral {
            entries: ys,
            ..
        } && ys.len() == entries.len() && mirror_entries(entries, ys, ys.len()),
        ExprView::Index { base, index, .. } => x matches BoundExprView::Index {
            base: y,
            index: i,
            ..
        } && mirrors(*base, *y) && mirrors(*index, *i),
        ExprView::Slice { base, from, to, .. } => x matches BoundExprView::Slice {
            base: y,
            from: f,
            to: t,
            ..
        } && mirrors(*base, *y) && mirror_maybe(from, f) && mirror_maybe(to, t),
        ExprView::PatternPredicate { pattern, .. } => x matches BoundExprView::PatternPredicate {
            pattern: p,
            ..
        } && mirror_path(*pattern, *p),
    }
}

pub open spec fn mirror_maybe(e: Option<Box<ExprView>>, x: Option<Box<BoundExprView>>) -> bool
    decreases e, 0int, 0int,
{
    match (e, x) {
        (Some(a), Some(b)) => mirrors(*a, *b),
        (None, None) => true,
        _ => false,
    }
}

pub open spec fn mirror_map(e: Option<ExprView>, x: Option<BoundExprView>) -> bool
    decreases e, 0int, 0int,
{
    match (e, x) {
        (Some(a), Some(b)) => mirrors(a, b),
        (None, None) => true,
        _ => false,
    }
}

pub open spec fn mirror_each(items: Seq<ExprView>, xs: Seq<BoundExprView>, n: nat) -> bool
    decreases items, 0int, n as int,
{
    n == 0 || (n <= items.len() && n <= xs.len() && mirrors(items[n - 1], xs[n - 1])
        && mirror_each(items, xs, (n - 1) as nat))
}

pub open spec fn mirror_branches(
    whens: Seq<(ExprView, ExprView)>,
    xs: Seq<(BoundExprView, BoundExprView)>,
    n: nat,
) -> bool
    decreases whens, 0int, n as int,
{
    n == 0 || (n <= whens.len() && n <= xs.len() && mirrors(whens[n - 1].0, xs[n - 1].0) && mirrors(
        whens[n - 1].1,
        xs[n - 1].1,
    ) && mirror_branches(whens, xs, (n - 1) as nat))
}

pub open spec fn mirror_entries(
    entries: Seq<(Seq<char>, ExprView)>,
    xs: Seq<(Seq<char>, BoundExprView)>,
    n: nat,
) -> bool
    decreases entries, 0int, n as int,
{
    n == 0 || (n <= entries.len() && n <= xs.len() && entries[n - 1].0 == xs[n - 1].0 && mirrors(
        entries[n - 1].1,
        xs[n - 1].1,
    ) && mirror_entries(entries, xs, (n - 1) as nat))
}

/// Whether a bound node pattern has the labels and the properties of a node pattern.
pub open spec fn mirror_node(p: NodePatternView, x: BoundNodePatternView) -> bool
    decreases p, 0int, 0int,
{
    &&& x.labels == p.labels
    &&& p.variable is Some <==> x.var is Some
    &&& mirror_map(p.properties, x.properties)
}

/// Whether a bound relationship pattern has the types, the direction, the length and the
/// properties of a relationship pattern.
pub open spec fn mirror_rel(p: RelPatternView, x: BoundRelPatternView) -> bool
    decreases p, 0int, 0int,
{
    &&& x.types == p.types
    &&& x.direction == p.direction
    &&& x.var_length == p.var_length
    &&& p.variable is Some <==> x.var is Some
    &&& mirror_map(p.properties, x.properties)
}

pub open spec fn mirror_steps(
    steps: Seq<(RelPatternView, NodePatternView)>,
    xs: Seq<(BoundRelPatternView, BoundNodePatternView)>,
    n: nat,
) -> bool
    decreases steps, 0int, n as int,
{
    n == 0 || (n <= steps.len() && n <= xs.len() && mirror_rel(steps[n - 1].0, xs[n - 1].0)
        && mirror_node(steps[n - 1].1, xs[n - 1].1) && mirror_steps(steps, xs, (n - 1) as nat))
}

/// Whether a bound pattern has the form of a pattern.
pub open spec fn mirror_path(p: PathPatternView, x: BoundPathPatternView) -> bool
    decreases p, 0int, 0int,
{
    &&& p.variable is Some <==> x.path_var is Some
    &&& mirror_node(p.start, x.start)
    &&& x.steps.len() == p.steps.len()
    &&& mirror_steps(p.steps, x.steps, x.steps.len())
}

// --- Lists ------------------------------------------------------------------------------------------

proof fn lemma_each_same(
    items: Seq<ExprView>,
    xs: Seq<BoundExprView>,
    ys: Seq<BoundExprView>,
    n: nat,
)
    requires
        mirror_each(items, xs, n),
        xs.is_prefix_of(ys),
    ensures
        mirror_each(items, ys, n),
    decreases n,
{
    if n > 0 {
        assert(xs[n - 1] == ys[n - 1]);
        lemma_each_same(items, xs, ys, (n - 1) as nat);
    }
}

proof fn lemma_branches_same(
    whens: Seq<(ExprView, ExprView)>,
    xs: Seq<(BoundExprView, BoundExprView)>,
    ys: Seq<(BoundExprView, BoundExprView)>,
    n: nat,
)
    requires
        mirror_branches(whens, xs, n),
        xs.is_prefix_of(ys),
    ensures
        mirror_branches(whens, ys, n),
    decreases n,
{
    if n > 0 {
        assert(xs[n - 1] == ys[n - 1]);
        lemma_branches_same(whens, xs, ys, (n - 1) as nat);
    }
}

proof fn lemma_entries_same(
    entries: Seq<(Seq<char>, ExprView)>,
    xs: Seq<(Seq<char>, BoundExprView)>,
    ys: Seq<(Seq<char>, BoundExprView)>,
    n: nat,
)
    requires
        mirror_entries(entries, xs, n),
        xs.is_prefix_of(ys),
    ensures
        mirror_entries(entries, ys, n),
    decreases n,
{
    if n > 0 {
        assert(xs[n - 1] == ys[n - 1]);
        lemma_entries_same(entries, xs, ys, (n - 1) as nat);
    }
}

proof fn lemma_steps_same(
    steps: Seq<(RelPatternView, NodePatternView)>,
    xs: Seq<(BoundRelPatternView, BoundNodePatternView)>,
    ys: Seq<(BoundRelPatternView, BoundNodePatternView)>,
    n: nat,
)
    requires
        mirror_steps(steps, xs, n),
        xs.is_prefix_of(ys),
    ensures
        mirror_steps(steps, ys, n),
    decreases n,
{
    if n > 0 {
        assert(xs[n - 1] == ys[n - 1]);
        lemma_steps_same(steps, xs, ys, (n - 1) as nat);
    }
}

// --- Expressions ------------------------------------------------------------------------------------

proof fn lemma_exprs(
    items: Seq<ExprView>,
    i: int,
    ctx: ExprCtx,
    b: Bindings,
    st: Setting,
    out: Seq<BoundExprView>,
)
    requires
        0 <= i <= items.len(),
        out.len() == i,
        mirror_each(items, out, i as nat),
    ensures
        rules::exprs_bound(items, i, ctx, b, st, out) matches Ok((xs, _)) ==> xs.len()
            == items.len() && mirror_each(items, xs, xs.len()),
    decreases items, 0int, items.len() - i,
{
    if i < items.len() {
        binding_keeps_the_form(items[i], ctx, b, st);
        if let Ok((x, later)) = rules::expr_bound(items[i], ctx, b, st) {
            assert(out.is_prefix_of(out.push(x)));
            lemma_each_same(items, out, out.push(x), i as nat);
            assert(out.push(x)[i] == x);
            lemma_exprs(items, i + 1, ctx, later, st, out.push(x));
        }
    }
}

proof fn lemma_branches(
    whens: Seq<(ExprView, ExprView)>,
    i: int,
    ctx: ExprCtx,
    b: Bindings,
    st: Setting,
    out: Seq<(BoundExprView, BoundExprView)>,
)
    requires
        0 <= i <= whens.len(),
        out.len() == i,
        mirror_branches(whens, out, i as nat),
    ensures
        rules::branches_bound(whens, i, ctx, b, st, out) matches Ok((xs, _)) ==> xs.len()
            == whens.len() && mirror_branches(whens, xs, xs.len()),
    decreases whens, 0int, whens.len() - i,
{
    if i < whens.len() {
        binding_keeps_the_form(whens[i].0, ctx, b, st);
        if let Ok((x, later)) = rules::expr_bound(whens[i].0, ctx, b, st) {
            binding_keeps_the_form(whens[i].1, ctx, later, st);
            if let Ok((y, last)) = rules::expr_bound(whens[i].1, ctx, later, st) {
                assert(out.is_prefix_of(out.push((x, y))));
                lemma_branches_same(whens, out, out.push((x, y)), i as nat);
                assert(out.push((x, y))[i] == (x, y));
                lemma_branches(whens, i + 1, ctx, last, st, out.push((x, y)));
            }
        }
    }
}

proof fn lemma_entries(
    entries: Seq<(Seq<char>, ExprView)>,
    i: int,
    ctx: ExprCtx,
    b: Bindings,
    st: Setting,
    out: Seq<(Seq<char>, BoundExprView)>,
)
    requires
        0 <= i <= entries.len(),
        out.len() == i,
        mirror_entries(entries, out, i as nat),
    ensures
        rules::entries_bound(entries, i, ctx, b, st, out) matches Ok((xs, _)) ==> xs.len()
            == entries.len() && mirror_entries(entries, xs, xs.len()),
    decreases entries, 0int, entries.len() - i,
{
    if i < entries.len() {
        binding_keeps_the_form(entries[i].1, ctx, b, st);
        if let Ok((x, later)) = rules::expr_bound(entries[i].1, ctx, b, st) {
            let more = out.push((entries[i].0, x));
            assert(out.is_prefix_of(more));
            lemma_entries_same(entries, out, more, i as nat);
            assert(more[i] == (entries[i].0, x));
            lemma_entries(entries, i + 1, ctx, later, st, more);
        }
    }
}

proof fn lemma_boxed(e: Option<Box<ExprView>>, ctx: ExprCtx, b: Bindings, st: Setting)
    ensures
        rules::boxed_bound(e, ctx, b, st) matches Ok((x, _)) ==> mirror_maybe(e, x),
    decreases e, 0int, 0int,
{
    if let Some(x) = e {
        binding_keeps_the_form(*x, ctx, b, st);
    }
}

proof fn lemma_properties(e: Option<ExprView>, b: Bindings, st: Setting)
    ensures
        rules::properties_bound(e, b, st) matches Ok((x, _)) ==> mirror_map(e, x),
    decreases e, 0int, 0int,
{
    if let Some(x) = e {
        binding_keeps_the_form(x, rules::no_aggregates(), b, st);
    }
}

proof fn lemma_function_named(name: Seq<char>, from: int)
    ensures
        bound::function_named(name, from) matches Some(def) ==> text::same_ignoring_case(
            def.name,
            name,
        ),
    decreases 36 - from,
{
    if from < 36 {
        lemma_function_named(name, from + 1);
    }
}

proof fn lemma_aggregate_named(name: Seq<char>, from: int)
    ensures
        bound::aggregate_named(name, from) matches Some(def) ==> text::same_ignoring_case(
            def.name,
            name,
        ),
    decreases 36 - from,
{
    if bound::aggregate_named(name, from) is Some && !text::same_ignoring_case(
        bound::aggregate_entry(from).name,
        name,
    ) {
        lemma_aggregate_named(name, from + 1);
    }
}

proof fn lemma_call(
    segments: Seq<Seq<char>>,
    distinct: bool,
    args: Seq<ExprView>,
    star: bool,
    span: Span,
    ctx: ExprCtx,
    b: Bindings,
    st: Setting,
)
    ensures
        rules::call_bound(whole_name(segments), distinct, args, star, span, ctx, b, st) matches Ok(
            (x, _),
        ) ==> match x {
            BoundExprView::Function { def, args: ys, .. } => text::same_ignoring_case(
                def.name,
                whole_name(segments),
            ) && !star && !distinct && ys.len() == args.len() && mirror_each(args, ys, ys.len()),
            BoundExprView::Aggregate { def, distinct: d, arg, .. } => text::same_ignoring_case(
                def.name,
                whole_name(segments),
            ) && d == distinct && match arg {
                None => star,
                Some(y) => !star && args.len() == 1 && mirrors(args[0], *y),
            },
            _ => false,
        },
    decreases args, 1int, 0int,
{
    let name = whole_name(segments);
    lemma_function_named(name, 0);
    lemma_aggregate_named(name, 0);
    lemma_exprs(args, 0, ctx, b, st, seq![]);
    if args.len() == 1 {
        binding_keeps_the_form(
            args[0],
            ExprCtx { aggregates_allowed: true, in_aggregate: true },
            b,
            st,
        );
    }
}

proof fn lemma_node(node: NodePatternView, introduce: bool, b: Bindings, st: Setting)
    ensures
        rules::node_bound(node, introduce, b, st) matches Ok((x, _)) ==> mirror_node(node, x),
    decreases node, 0int, 0int,
{
    reveal(rules::node_bound);
    if let Ok((var, later)) = rules::node_var_bound(node, introduce, b) {
        lemma_properties(node.properties, later, st);
    }
}

proof fn lemma_rel(rel: RelPatternView, introduce: bool, b: Bindings, st: Setting)
    ensures
        rules::rel_bound(rel, introduce, b, st) matches Ok((x, _)) ==> mirror_rel(rel, x),
    decreases rel, 0int, 0int,
{
    reveal(rules::rel_bound);
    if let Ok((var, later)) = rules::rel_var_bound(rel, introduce, b) {
        lemma_properties(rel.properties, later, st);
    }
}

proof fn lemma_steps(
    steps: Seq<(RelPatternView, NodePatternView)>,
    i: int,
    introduce: bool,
    b: Bindings,
    st: Setting,
    out: Seq<(BoundRelPatternView, BoundNodePatternView)>,
)
    requires
        0 <= i <= steps.len(),
        out.len() == i,
        mirror_steps(steps, out, i as nat),
    ensures
        rules::steps_bound(steps, i, introduce, b, st, out) matches Ok((xs, _)) ==> xs.len()
            == steps.len() && mirror_steps(steps, xs, xs.len()),
    decreases steps, 0int, steps.len() - i,
{
    reveal(rules::steps_bound);
    reveal(rules::pattern_bound);
    reveal(rules::node_bound);
    reveal(rules::rel_bound);
    if i < steps.len() {
        lemma_rel(steps[i].0, introduce, b, st);
        if let Ok((rel, later)) = rules::rel_bound(steps[i].0, introduce, b, st) {
            lemma_node(steps[i].1, introduce, later, st);
            if let Ok((node, last)) = rules::node_bound(steps[i].1, introduce, later, st) {
                let more = out.push((rel, node));
                assert(out.is_prefix_of(more));
                lemma_steps_same(steps, out, more, i as nat);
                assert(more[i] == (rel, node));
                lemma_steps(steps, i + 1, introduce, last, st, more);
            }
        }
    }
}

/// Binding a pattern keeps its form: labels, types, directions, lengths and properties.
pub proof fn binding_keeps_patterns(p: PathPatternView, introduce: bool, b: Bindings, st: Setting)
    ensures
        rules::pattern_bound(p, introduce, b, st) matches Ok((x, _)) ==> mirror_path(p, x),
    decreases p, 0int, 0int,
{
    reveal(rules::pattern_bound);
    reveal(rules::steps_bound);
    reveal(rules::node_bound);
    reveal(rules::rel_bound);
    if let Ok((var, b1)) = rules::path_var_bound(p.variable, introduce, p.span, b) {
        lemma_node(p.start, introduce, b1, st);
        if let Ok((start, b2)) = rules::node_bound(p.start, introduce, b1, st) {
            lemma_steps(p.steps, 0, introduce, b2, st, seq![]);
        }
    }
}

/// Binding an expression keeps its form: the bound expression has the same operators,
/// literals and names in the same places.
#[verifier::spinoff_prover]
#[verifier::rlimit(100)]
pub proof fn binding_keeps_the_form(e: ExprView, ctx: ExprCtx, b: Bindings, st: Setting)
    ensures
        rules::expr_bound(e, ctx, b, st) matches Ok((x, _)) ==> mirrors(e, x),
    decreases e, 1int, 0int,
{
    match e {
        ExprView::Literal { value, span } => {},
        ExprView::Parameter { name, span } => {},
        ExprView::Variable { name, span } => {},
        ExprView::Property { base, key, span } => {
            binding_keeps_the_form(*base, ctx, b, st);
        },
        ExprView::Unary { op, operand, span } => {
            binding_keeps_the_form(*operand, ctx, b, st);
        },
        ExprView::Binary { op, lhs, rhs, span } => {
            binding_keeps_the_form(*lhs, ctx, b, st);
            if let Ok((_, b1)) = rules::expr_bound(*lhs, ctx, b, st) {
                binding_keeps_the_form(*rhs, ctx, b1, st);
            }
        },
        ExprView::IsNull { operand, negated, span } => {
            binding_keeps_the_form(*operand, ctx, b, st);
        },
        ExprView::FunctionCall { name, distinct, args, star, span } => {
            lemma_call(name, distinct, args, star, span, ctx, b, st);
        },
        ExprView::Case { operand, whens, else_expr, span } => {
            lemma_boxed(operand, ctx, b, st);
            if let Ok((_, b1)) = rules::boxed_bound(operand, ctx, b, st) {
                lemma_branches(whens, 0, ctx, b1, st, seq![]);
                if let Ok((_, b2)) = rules::branches_bound(whens, 0, ctx, b1, st, seq![]) {
                    lemma_boxed(else_expr, ctx, b2, st);
                }
            }
        },
        ExprView::ListLiteral { items, span } => {
            lemma_exprs(items, 0, ctx, b, st, seq![]);
        },
        ExprView::ListComprehension { variable, list, where_clause, map, span } => {
            binding_keeps_the_form(*list, ctx, b, st);
            if let Ok((_, b1)) = rules::expr_bound(*list, ctx, b, st) {
                let inner = b1.declared(variable, EntityKind::Value, seq![]);
                lemma_boxed(where_clause, rules::no_aggregates(), inner, st);
                if let Ok((_, b2)) = rules::boxed_bound(
                    where_clause,
                    rules::no_aggregates(),
                    inner,
                    st,
                ) {
                    lemma_boxed(map, rules::no_aggregates(), b2, st);
                }
            }
        },
        ExprView::Quantifier { kind, variable, list, predicate, span } => {
            binding_keeps_the_form(*list, ctx, b, st);
            if let Ok((_, b1)) = rules::expr_bound(*list, ctx, b, st) {
                let inner = b1.declared(variable, EntityKind::Value, seq![]);
                binding_keeps_the_form(*predicate, rules::no_aggregates(), inner, st);
            }
        },
        ExprView::Reduce { accumulator, init, variable, list, expr, span } => {
            binding_keeps_the_form(*init, ctx, b, st);
            if let Ok((_, b1)) = rules::expr_bound(*init, ctx, b, st) {
                binding_keeps_the_form(*list, ctx, b1, st);
                if let Ok((_, b2)) = rules::expr_bound(*list, ctx, b1, st) {
                    let first = b2.declared(accumulator, EntityKind::Value, seq![]);
                    let inner = first.declared(variable, EntityKind::Value, seq![]);
                    binding_keeps_the_form(*expr, rules::no_aggregates(), inner, st);
                }
            }
        },
        ExprView::MapLiteral { entries, span } => {
            lemma_entries(entries, 0, ctx, b, st, seq![]);
        },
        ExprView::Index { base, index, span } => {
            binding_keeps_the_form(*base, ctx, b, st);
            if let Ok((_, b1)) = rules::expr_bound(*base, ctx, b, st) {
                binding_keeps_the_form(*index, ctx, b1, st);
            }
        },
        ExprView::Slice { base, from, to, span } => {
            binding_keeps_the_form(*base, ctx, b, st);
            if let Ok((_, b1)) = rules::expr_bound(*base, ctx, b, st) {
                lemma_boxed(from, ctx, b1, st);
                if let Ok((_, b2)) = rules::boxed_bound(from, ctx, b1, st) {
                    lemma_boxed(to, ctx, b2, st);
                }
            }
        },
        ExprView::PatternPredicate { pattern, span } => {
            binding_keeps_patterns(*pattern, false, b, st);
        },
    }
}

/// A variable is bound to what its name stands for in the scope, and a name that stands
/// for nothing is refused.
pub proof fn names_are_bound_in_their_scope(
    name: Seq<char>,
    span: Span,
    ctx: ExprCtx,
    b: Bindings,
    st: Setting,
)
    ensures
        b.seen(name) matches Some(id) ==> rules::expr_bound(
            ExprView::Variable { name, span },
            ctx,
            b,
            st,
        ) == Ok::<_, BindErrorView>((BoundExprView::Variable { id, span }, b)),
        b.seen(name) is None ==> rules::expr_bound(ExprView::Variable { name, span }, ctx, b, st)
            == Err::<(BoundExprView, Bindings), _>(BindErrorView::UndefinedVariable { name, span }),
{
}

} // verus!
