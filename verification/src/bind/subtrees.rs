//! The direct subexpressions of bound expressions.

use vstd::prelude::*;

use crate::bind::bound::{
    self, BoundExpr, BoundExprView, BoundNodePatternView, BoundPathPattern, BoundPathPatternView,
    BoundRelPatternView,
};

verus! {

pub open spec fn boxed(o: Option<Box<BoundExprView>>) -> Seq<BoundExprView> {
    match o {
        Some(e) => seq![*e],
        None => seq![],
    }
}

pub open spec fn optional(o: Option<BoundExprView>) -> Seq<BoundExprView> {
    match o {
        Some(e) => seq![e],
        None => seq![],
    }
}

/// The conditions and values of a `CASE`, in order.
pub open spec fn branches(whens: Seq<(BoundExprView, BoundExprView)>) -> Seq<BoundExprView>
    decreases whens.len(),
{
    if whens.len() == 0 {
        seq![]
    } else {
        branches(whens.drop_last()) + seq![whens.last().0, whens.last().1]
    }
}

/// The property maps of a pattern's steps, in order.
pub open spec fn step_exprs(
    steps: Seq<(BoundRelPatternView, BoundNodePatternView)>,
) -> Seq<BoundExprView>
    decreases steps.len(),
{
    if steps.len() == 0 {
        seq![]
    } else {
        step_exprs(steps.drop_last()) + optional(steps.last().0.properties) + optional(
            steps.last().1.properties,
        )
    }
}

/// The property maps of a pattern, in order.
pub open spec fn pattern_exprs(pattern: BoundPathPatternView) -> Seq<BoundExprView> {
    optional(pattern.start.properties) + step_exprs(pattern.steps)
}

/// The values of a map literal, in order.
pub open spec fn entry_values(entries: Seq<(Seq<char>, BoundExprView)>) -> Seq<BoundExprView> {
    Seq::new(entries.len(), |i: int| entries[i].1)
}

/// The direct subexpressions of an expression, in order.
pub open spec fn bound_children(e: BoundExprView) -> Seq<BoundExprView> {
    match e {
        BoundExprView::Literal { .. } => seq![],
        BoundExprView::Parameter { .. } => seq![],
        BoundExprView::Variable { .. } => seq![],
        BoundExprView::Property { base, .. } => seq![*base],
        BoundExprView::Unary { operand, .. } => seq![*operand],
        BoundExprView::Binary { lhs, rhs, .. } => seq![*lhs, *rhs],
        BoundExprView::IsNull { operand, .. } => seq![*operand],
        BoundExprView::Function { args, .. } => args,
        BoundExprView::Aggregate { arg, .. } => boxed(arg),
        BoundExprView::Case { operand, whens, else_expr, .. } => boxed(operand) + branches(whens)
            + boxed(else_expr),
        BoundExprView::ListLiteral { items, .. } => items,
        BoundExprView::ListComprehension { list, where_clause, map, .. } => seq![*list] + boxed(
            where_clause,
        ) + boxed(map),
        BoundExprView::Quantifier { list, predicate, .. } => seq![*list, *predicate],
        BoundExprView::Reduce { init, list, expr, .. } => seq![*init, *list, *expr],
        BoundExprView::MapLiteral { entries, .. } => entry_values(entries),
        BoundExprView::Index { base, index, .. } => seq![*base, *index],
        BoundExprView::Slice { base, from, to, .. } => seq![*base] + boxed(from) + boxed(to),
        BoundExprView::PatternPredicate { pattern, .. } => pattern_exprs(*pattern),
    }
}

proof fn lemma_branches(whens: Seq<(BoundExprView, BoundExprView)>, i: int) -> (j: int)
    requires
        0 <= i < branches(whens).len(),
    ensures
        0 <= j < whens.len(),
        branches(whens)[i] == whens[j].0 || branches(whens)[i] == whens[j].1,
    decreases whens.len(),
{
    let before = branches(whens.drop_last());
    if i < before.len() {
        lemma_branches(whens.drop_last(), i)
    } else {
        whens.len() - 1
    }
}

proof fn lemma_step_exprs(
    steps: Seq<(BoundRelPatternView, BoundNodePatternView)>,
    i: int,
) -> (j: int)
    requires
        0 <= i < step_exprs(steps).len(),
    ensures
        0 <= j < steps.len(),
        steps[j].0.properties == Some(step_exprs(steps)[i]) || steps[j].1.properties == Some(
            step_exprs(steps)[i],
        ),
    decreases steps.len(),
{
    let before = step_exprs(steps.drop_last());
    if i < before.len() {
        lemma_step_exprs(steps.drop_last(), i)
    } else {
        steps.len() - 1
    }
}

/// A direct subexpression is smaller than the expression.
pub proof fn lemma_bound_child_is_smaller(e: BoundExprView, i: int)
    requires
        0 <= i < bound_children(e).len(),
    ensures
        decreases_to!(e => bound_children(e)[i]),
{
    match e {
        BoundExprView::Aggregate { arg, .. } => {
            assert(decreases_to!(e => arg->0));
        },
        BoundExprView::Function { args, .. } => {
            assert(decreases_to!(e => args[i]));
        },
        BoundExprView::Case { operand, whens, else_expr, .. } => {
            let a = boxed(operand);
            let b = branches(whens);
            if i < a.len() {
                assert(decreases_to!(e => operand->0));
            } else if i < a.len() + b.len() {
                let j = lemma_branches(whens, i - a.len());
                assert(decreases_to!(e => whens[j].0));
                assert(decreases_to!(e => whens[j].1));
            } else {
                assert(decreases_to!(e => else_expr->0));
            }
        },
        BoundExprView::ListLiteral { items, .. } => {
            assert(decreases_to!(e => items[i]));
        },
        BoundExprView::ListComprehension { list, where_clause, map, .. } => {
            if i == 0 {
                assert(decreases_to!(e => list));
            } else if i < 1 + boxed(where_clause).len() {
                assert(decreases_to!(e => where_clause->0));
            } else {
                assert(decreases_to!(e => map->0));
            }
        },
        BoundExprView::MapLiteral { entries, .. } => {
            assert(decreases_to!(e => entries[i].1));
        },
        BoundExprView::Slice { base, from, to, .. } => {
            if i == 0 {
                assert(decreases_to!(e => base));
            } else if i < 1 + boxed(from).len() {
                assert(decreases_to!(e => from->0));
            } else {
                assert(decreases_to!(e => to->0));
            }
        },
        BoundExprView::PatternPredicate { pattern, .. } => {
            let a = optional(pattern.start.properties);
            if i < a.len() {
                assert(decreases_to!(e => pattern.start.properties->0));
            } else {
                let j = lemma_step_exprs(pattern.steps, i - a.len());
                if pattern.steps[j].0.properties == Some(bound_children(e)[i]) {
                    assert(decreases_to!(e => pattern.steps[j].0.properties->0));
                } else {
                    assert(decreases_to!(e => pattern.steps[j].1.properties->0));
                }
            }
        },
        _ => {},
    }
}

pub(crate) open spec fn referenced(v: Seq<&BoundExpr>) -> Seq<BoundExprView> {
    Seq::new(v.len(), |i: int| v[i]@)
}

fn put<'a>(out: &mut Vec<&'a BoundExpr>, e: &'a BoundExpr)
    ensures
        referenced(final(out)@) == referenced(old(out)@).push(e@),
{
    out.push(e);
    proof {
        assert(referenced(out@) =~= referenced(old(out)@).push(e@));
    }
}

fn put_boxed<'a>(out: &mut Vec<&'a BoundExpr>, o: &'a Option<Box<BoundExpr>>)
    ensures
        referenced(final(out)@) == referenced(old(out)@) + boxed(
            match o {
                Some(x) => Some(Box::new(x@)),
                None => None,
            },
        ),
{
    if let Some(e) = o {
        put(out, &**e);
    }
    proof {
        assert(referenced(out@) =~= referenced(old(out)@) + boxed(
            match o {
                Some(x) => Some(Box::new(x@)),
                None => None,
            },
        ));
    }
}

fn put_optional<'a>(out: &mut Vec<&'a BoundExpr>, o: &'a Option<BoundExpr>)
    ensures
        referenced(final(out)@) == referenced(old(out)@) + optional(
            match o {
                Some(x) => Some(x@),
                None => None,
            },
        ),
{
    if let Some(e) = o {
        put(out, e);
    }
    proof {
        assert(referenced(out@) =~= referenced(old(out)@) + optional(
            match o {
                Some(x) => Some(x@),
                None => None,
            },
        ));
    }
}

fn put_all<'a>(out: &mut Vec<&'a BoundExpr>, items: &'a Vec<BoundExpr>)
    ensures
        referenced(final(out)@) == referenced(old(out)@) + bound::bound_exprs_view(items@),
{
    let mut i: usize = 0;
    proof {
        assert(
            referenced(out@) =~= referenced(old(out)@) + bound::bound_exprs_view(items@).take(0)
        );
    }
    while i < items.len()
        invariant
            i <= items.len(),
            referenced(out@) == referenced(old(out)@) + bound::bound_exprs_view(items@).take(i as int),
        decreases items.len() - i,
    {
        put(out, &items[i]);
        proof {
            assert(bound::bound_exprs_view(items@).take(i + 1) =~= bound::bound_exprs_view(items@).take(i as int).push(
                items@[i as int]@,
            ));
            assert(
                referenced(out@) =~= referenced(old(out)@) + bound::bound_exprs_view(items@).take(i + 1)
            );
        }
        i += 1;
    }
    proof {
        assert(bound::bound_exprs_view(items@).take(i as int) =~= bound::bound_exprs_view(items@));
    }
}

fn put_pattern<'a>(out: &mut Vec<&'a BoundExpr>, pattern: &'a BoundPathPattern)
    ensures
        referenced(final(out)@) == referenced(old(out)@) + pattern_exprs(pattern@),
{
    proof {
        pattern.lemma_view();
        pattern.start.lemma_view();
    }
    let ghost before = referenced(out@);
    let ghost first = optional(pattern@.start.properties);
    put_optional(out, &pattern.start.properties);
    let steps = &pattern.steps;
    let mut i: usize = 0;
    proof {
        assert(referenced(out@) =~= before + first + step_exprs(pattern@.steps.take(0)));
    }
    while i < steps.len()
        invariant
            i <= steps.len(),
            *steps == pattern.steps,
            pattern@.steps == bound::bound_rel_pattern_bound_node_patterns_view(pattern.steps@),
            referenced(out@) == before + first + step_exprs(pattern@.steps.take(i as int)),
        decreases steps.len() - i,
    {
        put_optional(out, &steps[i].0.properties);
        put_optional(out, &steps[i].1.properties);
        proof {
            let s = pattern@.steps;
            steps@[i as int].0.lemma_view();
            steps@[i as int].1.lemma_view();
            assert(s.take(i + 1).drop_last() =~= s.take(i as int));
            assert(referenced(out@) =~= before + first + step_exprs(s.take(i + 1)));
        }
        i += 1;
    }
    proof {
        assert(pattern@.steps.take(i as int) =~= pattern@.steps);
        assert(before + first + step_exprs(pattern@.steps) =~= before + (first + step_exprs(
            pattern@.steps,
        )));
    }
}

fn put_branches<'a>(out: &mut Vec<&'a BoundExpr>, whens: &'a Vec<(BoundExpr, BoundExpr)>)
    ensures
        referenced(final(out)@) == referenced(old(out)@) + branches(
            bound::bound_expr_bound_exprs_view(whens@),
        ),
{
    let ghost before = referenced(out@);
    let ghost s = bound::bound_expr_bound_exprs_view(whens@);
    let mut i: usize = 0;
    proof {
        assert(referenced(out@) =~= before + branches(s.take(0)));
    }
    while i < whens.len()
        invariant
            i <= whens.len(),
            s == bound::bound_expr_bound_exprs_view(whens@),
            referenced(out@) == before + branches(s.take(i as int)),
        decreases whens.len() - i,
    {
        put(out, &whens[i].0);
        put(out, &whens[i].1);
        proof {
            assert(s.take(i + 1).drop_last() =~= s.take(i as int));
            assert(referenced(out@) =~= before + branches(s.take(i + 1)));
        }
        i += 1;
    }
    proof {
        assert(s.take(i as int) =~= s);
    }
}

fn put_entries<'a>(out: &mut Vec<&'a BoundExpr>, entries: &'a Vec<(String, BoundExpr)>)
    ensures
        referenced(final(out)@) == referenced(old(out)@) + entry_values(
            bound::string_bound_exprs_view(entries@),
        ),
{
    let ghost before = referenced(out@);
    let ghost s = entry_values(bound::string_bound_exprs_view(entries@));
    let mut i: usize = 0;
    proof {
        assert(referenced(out@) =~= before + s.take(0));
    }
    while i < entries.len()
        invariant
            i <= entries.len(),
            s == entry_values(bound::string_bound_exprs_view(entries@)),
            referenced(out@) == before + s.take(i as int),
        decreases entries.len() - i,
    {
        put(out, &entries[i].1);
        proof {
            assert(s.take(i + 1) =~= s.take(i as int).push(entries@[i as int].1@));
            assert(referenced(out@) =~= before + s.take(i + 1));
        }
        i += 1;
    }
    proof {
        assert(s.take(i as int) =~= s);
    }
}

impl BoundExpr {
    /// Every direct child expression, including those in an embedded pattern's
    /// property maps and the argument of an aggregate.
    pub(crate) fn children<'a>(&'a self) -> (out: Vec<&'a BoundExpr>)
        ensures
            referenced(out@) == bound_children(self@),
    {
        let mut out: Vec<&'a BoundExpr> = Vec::new();
        match self {
            BoundExpr::Literal { .. } | BoundExpr::Parameter { .. } | BoundExpr::Variable { .. } => {},
            BoundExpr::Property { base, .. } => put(&mut out, &**base),
            BoundExpr::Unary { operand, .. } => put(&mut out, &**operand),
            BoundExpr::Binary { lhs, rhs, .. } => {
                put(&mut out, &**lhs);
                put(&mut out, &**rhs);
            },
            BoundExpr::IsNull { operand, .. } => put(&mut out, &**operand),
            BoundExpr::Function { args, .. } => put_all(&mut out, args),
            BoundExpr::Aggregate { arg, .. } => put_boxed(&mut out, arg),
            BoundExpr::Case { operand, whens, else_expr, .. } => {
                put_boxed(&mut out, operand);
                put_branches(&mut out, whens);
                put_boxed(&mut out, else_expr);
            },
            BoundExpr::ListLiteral { items, .. } => put_all(&mut out, items),
            BoundExpr::ListComprehension { list, where_clause, map, .. } => {
                put(&mut out, &**list);
                put_boxed(&mut out, where_clause);
                put_boxed(&mut out, map);
            },
            BoundExpr::Quantifier { list, predicate, .. } => {
                put(&mut out, &**list);
                put(&mut out, &**predicate);
            },
            BoundExpr::Reduce { init, list, expr, .. } => {
                put(&mut out, &**init);
                put(&mut out, &**list);
                put(&mut out, &**expr);
            },
            BoundExpr::MapLiteral { entries, .. } => put_entries(&mut out, entries),
            BoundExpr::Index { base, index, .. } => {
                put(&mut out, &**base);
                put(&mut out, &**index);
            },
            BoundExpr::Slice { base, from, to, .. } => {
                put(&mut out, &**base);
                put_boxed(&mut out, from);
                put_boxed(&mut out, to);
            },
            BoundExpr::PatternPredicate { pattern, .. } => put_pattern(&mut out, &**pattern),
        }
        proof {
            assert(referenced(out@) =~= bound_children(self@));
        }
        out
    }
}

/// Whether an aggregate stands anywhere in an expression.
pub open spec fn has_aggregate(e: BoundExprView) -> bool
    decreases e, bound_children(e).len() + 1,
{
    e is Aggregate || child_has_aggregate(e, bound_children(e).len())
}

/// Whether an aggregate stands anywhere in the first `n` children of `e`.
pub open spec fn child_has_aggregate(e: BoundExprView, n: nat) -> bool
    decreases e, n,
{
    if n == 0 || n > bound_children(e).len() {
        false
    } else {
        proof {
            lemma_bound_child_is_smaller(e, n - 1);
        }
        child_has_aggregate(e, (n - 1) as nat) || has_aggregate(bound_children(e)[n - 1])
    }
}

/// Does the bound expression contain an aggregate at any depth?
pub(crate) fn contains_aggregate(e: &BoundExpr) -> (r: bool)
    ensures
        r == has_aggregate(e@),
    decreases e@,
{
    if matches!(e, BoundExpr::Aggregate { .. }) {
        return true;
    }
    let parts = e.children();
    let ghost all = bound_children(e@);
    let mut i: usize = 0;
    while i < parts.len()
        invariant
            i <= parts.len(),
            all == bound_children(e@),
            referenced(parts@) == all,
            !(e@ is Aggregate),
            !child_has_aggregate(e@, i as nat),
        decreases parts.len() - i,
    {
        proof {
            lemma_bound_child_is_smaller(e@, i as int);
            assert(all[i as int] == parts@[i as int]@);
        }
        if contains_aggregate(parts[i]) {
            proof {
                lemma_child_has_aggregate_grows(e@, (i + 1) as nat, all.len());
            }
            return true;
        }
        i += 1;
    }
    false
}

proof fn lemma_child_has_aggregate_grows(e: BoundExprView, m: nat, n: nat)
    requires
        m <= n <= bound_children(e).len(),
        child_has_aggregate(e, m),
    ensures
        child_has_aggregate(e, n),
    decreases n - m,
{
    if m < n {
        lemma_child_has_aggregate_grows(e, m, (n - 1) as nat);
    }
}

} // verus!
