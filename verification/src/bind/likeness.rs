//! When two bound expressions are alike: structural equality that disregards
//! source ranges, and a digest that alike expressions share.
//!
//! Iteration constructs compare through a stack of corresponding locals: their
//! own variables differ per binding site, so two variables are also alike when
//! they are a corresponding pair. Patterns are never alike.

use vstd::prelude::*;
use vstd::string::*;

use crate::ast::Literal;
use crate::bind::bound::{self, BoundExpr, BoundExprView};
use crate::text;

verus! {

/// Whether `(x, y)` is one of the corresponding pairs.
pub open spec fn paired(pairs: Seq<(u32, u32)>, x: u32, y: u32) -> bool {
    pairs.contains((x, y))
}

/// Whether two expressions are alike, given corresponding locals.
pub open spec fn alike(a: BoundExprView, b: BoundExprView, pairs: Seq<(u32, u32)>) -> bool
    decreases a, 0nat,
{
    match (a, b) {
        (
            BoundExprView::Literal { value: x, .. },
            BoundExprView::Literal { value: y, .. },
        ) => x == y,
        (
            BoundExprView::Parameter { name: x, .. },
            BoundExprView::Parameter { name: y, .. },
        ) => x == y,
        (BoundExprView::Variable { id: x, .. }, BoundExprView::Variable { id: y, .. }) => x == y
            || paired(pairs, x.0, y.0),
        (
            BoundExprView::Property { base: x, key: j, .. },
            BoundExprView::Property { base: y, key: k, .. },
        ) => j == k && alike(*x, *y, pairs),
        (
            BoundExprView::Unary { op: j, operand: x, .. },
            BoundExprView::Unary { op: k, operand: y, .. },
        ) => j == k && alike(*x, *y, pairs),
        (
            BoundExprView::Binary { op: j, lhs: x, rhs: v, .. },
            BoundExprView::Binary { op: k, lhs: y, rhs: w, .. },
        ) => j == k && alike(*x, *y, pairs) && alike(*v, *w, pairs),
        (
            BoundExprView::IsNull { operand: x, negated: j, .. },
            BoundExprView::IsNull { operand: y, negated: k, .. },
        ) => j == k && alike(*x, *y, pairs),
        (
            BoundExprView::Function { def: j, args: x, .. },
            BoundExprView::Function { def: k, args: y, .. },
        ) => j.name == k.name && x.len() == y.len() && all_alike(x, y, x.len(), pairs),
        (
            BoundExprView::Aggregate { def: j, distinct: m, arg: x, .. },
            BoundExprView::Aggregate { def: k, distinct: n, arg: y, .. },
        ) => j.name == k.name && m == n && (x is Some) == (y is Some) && (x is Some ==> alike(
            *x->0,
            *y->0,
            pairs,
        )),
        (
            BoundExprView::Case { operand: x, whens: j, else_expr: v, .. },
            BoundExprView::Case { operand: y, whens: k, else_expr: w, .. },
        ) => (x is Some) == (y is Some) && (x is Some ==> alike(*x->0, *y->0, pairs)) && (v is Some)
            == (w is Some) && (v is Some ==> alike(*v->0, *w->0, pairs)) && j.len() == k.len()
            && branches_alike(j, k, j.len(), pairs),
        (
            BoundExprView::ListLiteral { items: x, .. },
            BoundExprView::ListLiteral { items: y, .. },
        ) => x.len() == y.len() && all_alike(x, y, x.len(), pairs),
        (
            BoundExprView::MapLiteral { entries: x, .. },
            BoundExprView::MapLiteral { entries: y, .. },
        ) => x.len() == y.len() && entries_alike(x, y, x.len(), pairs),
        (
            BoundExprView::Index { base: x, index: v, .. },
            BoundExprView::Index { base: y, index: w, .. },
        ) => alike(*x, *y, pairs) && alike(*v, *w, pairs),
        (
            BoundExprView::Slice { base: x, from: v, to: m, .. },
            BoundExprView::Slice { base: y, from: w, to: n, .. },
        ) => alike(*x, *y, pairs) && (v is Some) == (w is Some) && (v is Some ==> alike(
            *v->0,
            *w->0,
            pairs,
        )) && (m is Some) == (n is Some) && (m is Some ==> alike(*m->0, *n->0, pairs)),
        (
            BoundExprView::ListComprehension { variable: j, list: x, where_clause: v, map: m, .. },
            BoundExprView::ListComprehension { variable: k, list: y, where_clause: w, map: n, .. },
        ) => {
            let inner = pairs.push((j.0, k.0));
            alike(*x, *y, pairs) && (v is Some) == (w is Some) && (v is Some ==> alike(
                *v->0,
                *w->0,
                inner,
            )) && (m is Some) == (n is Some) && (m is Some ==> alike(*m->0, *n->0, inner))
        },
        (
            BoundExprView::Quantifier { kind: m, variable: j, list: x, predicate: v, .. },
            BoundExprView::Quantifier { kind: n, variable: k, list: y, predicate: w, .. },
        ) => m == n && alike(*x, *y, pairs) && alike(*v, *w, pairs.push((j.0, k.0))),
        (
            BoundExprView::Reduce { accumulator: m, init: p, variable: j, list: x, expr: v, .. },
            BoundExprView::Reduce { accumulator: n, init: q, variable: k, list: y, expr: w, .. },
        ) => alike(*p, *q, pairs) && alike(*x, *y, pairs) && alike(
            *v,
            *w,
            pairs.push((m.0, n.0)).push((j.0, k.0)),
        ),
        _ => false,
    }
}

/// Whether the first `n` expressions of two lists are alike.
pub open spec fn all_alike(
    a: Seq<BoundExprView>,
    b: Seq<BoundExprView>,
    n: nat,
    pairs: Seq<(u32, u32)>,
) -> bool
    decreases a, n,
{
    if n == 0 || n > a.len() || n > b.len() {
        true
    } else {
        all_alike(a, b, (n - 1) as nat, pairs) && alike(a[n - 1], b[n - 1], pairs)
    }
}

/// Whether the first `n` branches of two lists are alike.
pub open spec fn branches_alike(
    a: Seq<(BoundExprView, BoundExprView)>,
    b: Seq<(BoundExprView, BoundExprView)>,
    n: nat,
    pairs: Seq<(u32, u32)>,
) -> bool
    decreases a, n,
{
    if n == 0 || n > a.len() || n > b.len() {
        true
    } else {
        branches_alike(a, b, (n - 1) as nat, pairs) && alike(a[n - 1].0, b[n - 1].0, pairs)
            && alike(a[n - 1].1, b[n - 1].1, pairs)
    }
}

/// Whether the first `n` entries of two maps are alike.
pub open spec fn entries_alike(
    a: Seq<(Seq<char>, BoundExprView)>,
    b: Seq<(Seq<char>, BoundExprView)>,
    n: nat,
    pairs: Seq<(u32, u32)>,
) -> bool
    decreases a, n,
{
    if n == 0 || n > a.len() || n > b.len() {
        true
    } else {
        entries_alike(a, b, (n - 1) as nat, pairs) && a[n - 1].0 == b[n - 1].0 && alike(
            a[n - 1].1,
            b[n - 1].1,
            pairs,
        )
    }
}

// --- Execution --------------------------------------------------------------------------------------

fn has_pair(pairs: &Vec<(u32, u32)>, x: u32, y: u32) -> (r: bool)
    ensures
        r == paired(pairs@, x, y),
{
    let mut i: usize = 0;
    while i < pairs.len()
        invariant
            i <= pairs.len(),
            forall|k: int| 0 <= k < i ==> #[trigger] pairs@[k] != (x, y),
        decreases pairs.len() - i,
    {
        if pairs[i].0 == x && pairs[i].1 == y {
            assert(pairs@[i as int] == (x, y));
            return true;
        }
        i += 1;
    }
    false
}

fn same_literal(a: &Literal, b: &Literal) -> (r: bool)
    ensures
        r == (a@ == b@),
{
    match (a, b) {
        (Literal::Null, Literal::Null) => true,
        (Literal::Boolean(x), Literal::Boolean(y)) => *x == *y,
        (Literal::Integer(x), Literal::Integer(y)) => *x == *y,
        (Literal::Float(x), Literal::Float(y)) => *x == *y,
        (Literal::String(x), Literal::String(y)) => text::str_eq(x.as_str(), y.as_str()),
        _ => false,
    }
}

spec fn optional_alike(
    a: Option<Box<BoundExpr>>,
    b: Option<Box<BoundExpr>>,
    pairs: Seq<(u32, u32)>,
) -> bool {
    match (a, b) {
        (Some(x), Some(y)) => alike(x@, y@, pairs),
        (None, None) => true,
        _ => false,
    }
}

fn same_optional(
    a: &Option<Box<BoundExpr>>,
    b: &Option<Box<BoundExpr>>,
    pairs: &mut Vec<(u32, u32)>,
) -> (r: bool)
    ensures
        final(pairs)@ == old(pairs)@,
        r == optional_alike(*a, *b, old(pairs)@),
    decreases a,
{
    match (a, b) {
        (Some(x), Some(y)) => same_bound_in(x, y, pairs),
        (None, None) => true,
        _ => false,
    }
}

fn same_all(a: &Vec<BoundExpr>, b: &Vec<BoundExpr>, pairs: &mut Vec<(u32, u32)>) -> (r: bool)
    ensures
        final(pairs)@ == old(pairs)@,
        r == (a@.len() == b@.len() && all_alike(
            bound::bound_exprs_view(a@),
            bound::bound_exprs_view(b@),
            a@.len(),
            old(pairs)@,
        )),
    decreases a,
{
    if a.len() != b.len() {
        return false;
    }
    let ghost x = bound::bound_exprs_view(a@);
    let ghost y = bound::bound_exprs_view(b@);
    let mut i: usize = 0;
    while i < a.len()
        invariant
            i <= a.len(),
            a@.len() == b@.len(),
            x == bound::bound_exprs_view(a@),
            y == bound::bound_exprs_view(b@),
            pairs@ == old(pairs)@,
            all_alike(x, y, i as nat, pairs@),
        decreases a.len() - i,
    {
        proof {
            assert(decreases_to!(*a => a@[i as int]));
            assert(x[i as int] == a@[i as int]@);
            assert(y[i as int] == b@[i as int]@);
        }
        if !same_bound_in(&a[i], &b[i], pairs) {
            proof {
                lemma_all_alike_prefix(x, y, (i + 1) as nat, x.len(), pairs@);
            }
            return false;
        }
        i += 1;
    }
    true
}

proof fn lemma_all_alike_prefix(
    a: Seq<BoundExprView>,
    b: Seq<BoundExprView>,
    m: nat,
    n: nat,
    pairs: Seq<(u32, u32)>,
)
    requires
        m <= n <= a.len(),
        a.len() == b.len(),
    ensures
        all_alike(a, b, n, pairs) ==> all_alike(a, b, m, pairs),
    decreases n - m,
{
    if m < n {
        lemma_all_alike_prefix(a, b, m, (n - 1) as nat, pairs);
    }
}

fn same_branches(
    a: &Vec<(BoundExpr, BoundExpr)>,
    b: &Vec<(BoundExpr, BoundExpr)>,
    pairs: &mut Vec<(u32, u32)>,
) -> (r: bool)
    ensures
        final(pairs)@ == old(pairs)@,
        r == (a@.len() == b@.len() && branches_alike(
            bound::bound_expr_bound_exprs_view(a@),
            bound::bound_expr_bound_exprs_view(b@),
            a@.len(),
            old(pairs)@,
        )),
    decreases a,
{
    if a.len() != b.len() {
        return false;
    }
    let ghost x = bound::bound_expr_bound_exprs_view(a@);
    let ghost y = bound::bound_expr_bound_exprs_view(b@);
    let mut i: usize = 0;
    while i < a.len()
        invariant
            i <= a.len(),
            a@.len() == b@.len(),
            x == bound::bound_expr_bound_exprs_view(a@),
            y == bound::bound_expr_bound_exprs_view(b@),
            pairs@ == old(pairs)@,
            branches_alike(x, y, i as nat, pairs@),
        decreases a.len() - i,
    {
        proof {
            assert(decreases_to!(*a => a@[i as int].0));
            assert(decreases_to!(*a => a@[i as int].1));
            assert(x[i as int] == (a@[i as int].0@, a@[i as int].1@));
            assert(y[i as int] == (b@[i as int].0@, b@[i as int].1@));
        }
        if !same_bound_in(&a[i].0, &b[i].0, pairs) || !same_bound_in(&a[i].1, &b[i].1, pairs) {
            proof {
                lemma_branches_alike_prefix(x, y, (i + 1) as nat, x.len(), pairs@);
            }
            return false;
        }
        i += 1;
    }
    true
}

proof fn lemma_branches_alike_prefix(
    a: Seq<(BoundExprView, BoundExprView)>,
    b: Seq<(BoundExprView, BoundExprView)>,
    m: nat,
    n: nat,
    pairs: Seq<(u32, u32)>,
)
    requires
        m <= n <= a.len(),
        a.len() == b.len(),
    ensures
        branches_alike(a, b, n, pairs) ==> branches_alike(a, b, m, pairs),
    decreases n - m,
{
    if m < n {
        lemma_branches_alike_prefix(a, b, m, (n - 1) as nat, pairs);
    }
}

fn same_entries(
    a: &Vec<(String, BoundExpr)>,
    b: &Vec<(String, BoundExpr)>,
    pairs: &mut Vec<(u32, u32)>,
) -> (r: bool)
    ensures
        final(pairs)@ == old(pairs)@,
        r == (a@.len() == b@.len() && entries_alike(
            bound::string_bound_exprs_view(a@),
            bound::string_bound_exprs_view(b@),
            a@.len(),
            old(pairs)@,
        )),
    decreases a,
{
    if a.len() != b.len() {
        return false;
    }
    let ghost x = bound::string_bound_exprs_view(a@);
    let ghost y = bound::string_bound_exprs_view(b@);
    let mut i: usize = 0;
    while i < a.len()
        invariant
            i <= a.len(),
            a@.len() == b@.len(),
            x == bound::string_bound_exprs_view(a@),
            y == bound::string_bound_exprs_view(b@),
            pairs@ == old(pairs)@,
            entries_alike(x, y, i as nat, pairs@),
        decreases a.len() - i,
    {
        proof {
            assert(decreases_to!(*a => a@[i as int].1));
            assert(x[i as int] == (a@[i as int].0@, a@[i as int].1@));
            assert(y[i as int] == (b@[i as int].0@, b@[i as int].1@));
        }
        if !text::str_eq(
            a[i].0.as_str(),
            b[i].0.as_str(),
        ) || !same_bound_in(&a[i].1, &b[i].1, pairs) {
            proof {
                lemma_entries_alike_prefix(x, y, (i + 1) as nat, x.len(), pairs@);
            }
            return false;
        }
        i += 1;
    }
    true
}

proof fn lemma_entries_alike_prefix(
    a: Seq<(Seq<char>, BoundExprView)>,
    b: Seq<(Seq<char>, BoundExprView)>,
    m: nat,
    n: nat,
    pairs: Seq<(u32, u32)>,
)
    requires
        m <= n <= a.len(),
        a.len() == b.len(),
    ensures
        entries_alike(a, b, n, pairs) ==> entries_alike(a, b, m, pairs),
    decreases n - m,
{
    if m < n {
        lemma_entries_alike_prefix(a, b, m, (n - 1) as nat, pairs);
    }
}

/// Whether two expressions are alike, given corresponding locals.
pub fn same_bound_in(a: &BoundExpr, b: &BoundExpr, pairs: &mut Vec<(u32, u32)>) -> (r: bool)
    ensures
        final(pairs)@ == old(pairs)@,
        r == alike(a@, b@, old(pairs)@),
    decreases a,
{
    let ghost before = pairs@;
    match (a, b) {
        (BoundExpr::Literal { value: x, .. }, BoundExpr::Literal { value: y, .. }) => same_literal(
            x,
            y,
        ),
        (BoundExpr::Parameter { name: x, .. }, BoundExpr::Parameter { name: y, .. }) => text::str_eq(
            x.as_str(),
            y.as_str(),
        ),
        (BoundExpr::Variable { id: x, .. }, BoundExpr::Variable { id: y, .. }) => x.0 == y.0
            || has_pair(pairs, x.0, y.0),
        (
            BoundExpr::Property { base: x, key: j, .. },
            BoundExpr::Property { base: y, key: k, .. },
        ) => text::str_eq(j.as_str(), k.as_str()) && same_bound_in(x, y, pairs),
        (
            BoundExpr::Unary { op: j, operand: x, .. },
            BoundExpr::Unary { op: k, operand: y, .. },
        ) => *j == *k && same_bound_in(x, y, pairs),
        (
            BoundExpr::Binary { op: j, lhs: x, rhs: v, .. },
            BoundExpr::Binary { op: k, lhs: y, rhs: w, .. },
        ) => *j == *k && same_bound_in(x, y, pairs) && same_bound_in(v, w, pairs),
        (
            BoundExpr::IsNull { operand: x, negated: j, .. },
            BoundExpr::IsNull { operand: y, negated: k, .. },
        ) => *j == *k && same_bound_in(x, y, pairs),
        (
            BoundExpr::Function { def: j, args: x, .. },
            BoundExpr::Function { def: k, args: y, .. },
        ) => {
            assert(bound::bound_exprs_view(x@).len() == x@.len());
            assert(bound::bound_exprs_view(y@).len() == y@.len());
            text::str_eq(j.name, k.name) && same_all(x, y, pairs)
        },
        (
            BoundExpr::Aggregate { def: j, distinct: m, arg: x, .. },
            BoundExpr::Aggregate { def: k, distinct: n, arg: y, .. },
        ) => text::str_eq(j.name, k.name) && *m == *n && same_optional(x, y, pairs),
        (
            BoundExpr::Case { operand: x, whens: j, else_expr: v, .. },
            BoundExpr::Case { operand: y, whens: k, else_expr: w, .. },
        ) => {
            assert(bound::bound_expr_bound_exprs_view(j@).len() == j@.len());
            assert(bound::bound_expr_bound_exprs_view(k@).len() == k@.len());
            same_optional(x, y, pairs) && same_optional(v, w, pairs) && same_branches(
            j,
            k,
            pairs,
        )
        },
        (BoundExpr::ListLiteral { items: x, .. }, BoundExpr::ListLiteral { items: y, .. }) => {
            assert(bound::bound_exprs_view(x@).len() == x@.len());
            assert(bound::bound_exprs_view(y@).len() == y@.len());
            same_all(x, y, pairs)
        },
        (BoundExpr::MapLiteral { entries: x, .. }, BoundExpr::MapLiteral { entries: y, .. }) => {
            assert(bound::string_bound_exprs_view(x@).len() == x@.len());
            assert(bound::string_bound_exprs_view(y@).len() == y@.len());
            same_entries(x, y, pairs)
        },
        (
            BoundExpr::Index { base: x, index: v, .. },
            BoundExpr::Index { base: y, index: w, .. },
        ) => same_bound_in(x, y, pairs) && same_bound_in(v, w, pairs),
        (
            BoundExpr::Slice { base: x, from: v, to: m, .. },
            BoundExpr::Slice { base: y, from: w, to: n, .. },
        ) => same_bound_in(x, y, pairs) && same_optional(v, w, pairs) && same_optional(
            m,
            n,
            pairs,
        ),
        (
            BoundExpr::ListComprehension { variable: j, list: x, where_clause: v, map: m, .. },
            BoundExpr::ListComprehension { variable: k, list: y, where_clause: w, map: n, .. },
        ) => {
            if !same_bound_in(x, y, pairs) {
                return false;
            }
            pairs.push((j.0, k.0));
            let r = same_optional(v, w, pairs) && same_optional(m, n, pairs);
            pairs.pop();
            assert(pairs@ =~= before);
            r
        },
        (
            BoundExpr::Quantifier { kind: m, variable: j, list: x, predicate: v, .. },
            BoundExpr::Quantifier { kind: n, variable: k, list: y, predicate: w, .. },
        ) => {
            if *m != *n || !same_bound_in(x, y, pairs) {
                return false;
            }
            pairs.push((j.0, k.0));
            let r = same_bound_in(v, w, pairs);
            pairs.pop();
            assert(pairs@ =~= before);
            r
        },
        (
            BoundExpr::Reduce { accumulator: m, init: p, variable: j, list: x, expr: v, .. },
            BoundExpr::Reduce { accumulator: n, init: q, variable: k, list: y, expr: w, .. },
        ) => {
            if !same_bound_in(p, q, pairs) || !same_bound_in(x, y, pairs) {
                return false;
            }
            pairs.push((m.0, n.0));
            pairs.push((j.0, k.0));
            let r = same_bound_in(v, w, pairs);
            pairs.pop();
            pairs.pop();
            assert(pairs@ =~= before);
            r
        },
        _ => false,
    }
}

/// Span-insensitive structural equality over bound expressions: the grouping-key
/// match relation. Bound trees are free of parenthesisation, backtick and
/// whitespace variance.
pub(crate) fn same_bound(a: &BoundExpr, b: &BoundExpr) -> (r: bool)
    ensures
        r == alike(a@, b@, seq![]),
{
    let mut pairs: Vec<(u32, u32)> = Vec::new();
    assert(pairs@ =~= seq![]);
    same_bound_in(a, b, &mut pairs)
}

// --- Laws -------------------------------------------------------------------------------------------

/// Whether no pattern stands in an expression.
pub open spec fn pattern_free(e: BoundExprView) -> bool
    decreases e, 0nat,
{
    match e {
        BoundExprView::Literal { .. } => true,
        BoundExprView::Parameter { .. } => true,
        BoundExprView::Variable { .. } => true,
        BoundExprView::Property { base, .. } => pattern_free(*base),
        BoundExprView::Unary { operand, .. } => pattern_free(*operand),
        BoundExprView::Binary { lhs, rhs, .. } => pattern_free(*lhs) && pattern_free(*rhs),
        BoundExprView::IsNull { operand, .. } => pattern_free(*operand),
        BoundExprView::Function { args, .. } => all_pattern_free(args, args.len()),
        BoundExprView::Aggregate { arg, .. } => arg is Some ==> pattern_free(*arg->0),
        BoundExprView::Case { operand, whens, else_expr, .. } => (operand is Some ==> pattern_free(
            *operand->0,
        )) && branches_pattern_free(whens, whens.len()) && (else_expr is Some ==> pattern_free(
            *else_expr->0,
        )),
        BoundExprView::ListLiteral { items, .. } => all_pattern_free(items, items.len()),
        BoundExprView::ListComprehension { list, where_clause, map, .. } => pattern_free(*list) && (
        where_clause is Some ==> pattern_free(*where_clause->0)) && (map is Some ==> pattern_free(
            *map->0,
        )),
        BoundExprView::Quantifier { list, predicate, .. } => pattern_free(*list) && pattern_free(
            *predicate,
        ),
        BoundExprView::Reduce { init, list, expr, .. } => pattern_free(*init) && pattern_free(*list)
            && pattern_free(*expr),
        BoundExprView::MapLiteral { entries, .. } => entries_pattern_free(entries, entries.len()),
        BoundExprView::Index { base, index, .. } => pattern_free(*base) && pattern_free(*index),
        BoundExprView::Slice { base, from, to, .. } => pattern_free(*base) && (from is Some
            ==> pattern_free(*from->0)) && (to is Some ==> pattern_free(*to->0)),
        BoundExprView::PatternPredicate { .. } => false,
    }
}

/// Whether no pattern stands in the first `n` expressions.
pub open spec fn all_pattern_free(items: Seq<BoundExprView>, n: nat) -> bool
    decreases items, n,
{
    if n == 0 || n > items.len() {
        true
    } else {
        all_pattern_free(items, (n - 1) as nat) && pattern_free(items[n - 1])
    }
}

/// Whether no pattern stands in the first `n` branches.
pub open spec fn branches_pattern_free(whens: Seq<(BoundExprView, BoundExprView)>, n: nat) -> bool
    decreases whens, n,
{
    if n == 0 || n > whens.len() {
        true
    } else {
        branches_pattern_free(whens, (n - 1) as nat) && pattern_free(whens[n - 1].0)
            && pattern_free(whens[n - 1].1)
    }
}

/// Whether no pattern stands in the first `n` entries.
pub open spec fn entries_pattern_free(entries: Seq<(Seq<char>, BoundExprView)>, n: nat) -> bool
    decreases entries, n,
{
    if n == 0 || n > entries.len() {
        true
    } else {
        entries_pattern_free(entries, (n - 1) as nat) && pattern_free(entries[n - 1].1)
    }
}

/// An expression in which no pattern stands is alike itself.
pub proof fn an_expression_is_alike_itself(e: BoundExprView, pairs: Seq<(u32, u32)>)
    requires
        pattern_free(e),
    ensures
        alike(e, e, pairs),
    decreases e, 0nat,
{
    match e {
        BoundExprView::Literal { .. } => {},
        BoundExprView::Parameter { .. } => {},
        BoundExprView::Variable { .. } => {},
        BoundExprView::Property { base, .. } => {
            an_expression_is_alike_itself(*base, pairs);
        },
        BoundExprView::Unary { operand, .. } => {
            an_expression_is_alike_itself(*operand, pairs);
        },
        BoundExprView::Binary { lhs, rhs, .. } => {
            an_expression_is_alike_itself(*lhs, pairs);
            an_expression_is_alike_itself(*rhs, pairs);
        },
        BoundExprView::IsNull { operand, .. } => {
            an_expression_is_alike_itself(*operand, pairs);
        },
        BoundExprView::Function { args, .. } => {
            lemma_all_alike_themselves(args, args.len(), pairs);
        },
        BoundExprView::Aggregate { arg, .. } => {
            if let Some(x) = arg {
                an_expression_is_alike_itself(*x, pairs);
            }
        },
        BoundExprView::Case { operand, whens, else_expr, .. } => {
            if let Some(x) = operand {
                an_expression_is_alike_itself(*x, pairs);
            }
            lemma_branches_alike_themselves(whens, whens.len(), pairs);
            if let Some(x) = else_expr {
                an_expression_is_alike_itself(*x, pairs);
            }
        },
        BoundExprView::ListLiteral { items, .. } => {
            lemma_all_alike_themselves(items, items.len(), pairs);
        },
        BoundExprView::ListComprehension { variable, list, where_clause, map, .. } => {
            let inner = pairs.push((variable.0, variable.0));
            an_expression_is_alike_itself(*list, pairs);
            if let Some(x) = where_clause {
                an_expression_is_alike_itself(*x, inner);
            }
            if let Some(x) = map {
                an_expression_is_alike_itself(*x, inner);
            }
        },
        BoundExprView::Quantifier { variable, list, predicate, .. } => {
            an_expression_is_alike_itself(*list, pairs);
            an_expression_is_alike_itself(*predicate, pairs.push((variable.0, variable.0)));
        },
        BoundExprView::Reduce { accumulator, init, variable, list, expr, .. } => {
            an_expression_is_alike_itself(*init, pairs);
            an_expression_is_alike_itself(*list, pairs);
            an_expression_is_alike_itself(
                *expr,
                pairs.push((accumulator.0, accumulator.0)).push((variable.0, variable.0)),
            );
        },
        BoundExprView::MapLiteral { entries, .. } => {
            lemma_entries_alike_themselves(entries, entries.len(), pairs);
        },
        BoundExprView::Index { base, index, .. } => {
            an_expression_is_alike_itself(*base, pairs);
            an_expression_is_alike_itself(*index, pairs);
        },
        BoundExprView::Slice { base, from, to, .. } => {
            an_expression_is_alike_itself(*base, pairs);
            if let Some(x) = from {
                an_expression_is_alike_itself(*x, pairs);
            }
            if let Some(x) = to {
                an_expression_is_alike_itself(*x, pairs);
            }
        },
        BoundExprView::PatternPredicate { .. } => {},
    }
}

proof fn lemma_all_alike_themselves(items: Seq<BoundExprView>, n: nat, pairs: Seq<(u32, u32)>)
    requires
        all_pattern_free(items, n),
    ensures
        all_alike(items, items, n, pairs),
    decreases items, n,
{
    if !(n == 0 || n > items.len()) {
        lemma_all_alike_themselves(items, (n - 1) as nat, pairs);
        an_expression_is_alike_itself(items[n - 1], pairs);
    }
}

proof fn lemma_branches_alike_themselves(
    whens: Seq<(BoundExprView, BoundExprView)>,
    n: nat,
    pairs: Seq<(u32, u32)>,
)
    requires
        branches_pattern_free(whens, n),
    ensures
        branches_alike(whens, whens, n, pairs),
    decreases whens, n,
{
    if !(n == 0 || n > whens.len()) {
        assert(decreases_to!(whens => whens[n - 1]));
        lemma_branches_alike_themselves(whens, (n - 1) as nat, pairs);
        an_expression_is_alike_itself(whens[n - 1].0, pairs);
        an_expression_is_alike_itself(whens[n - 1].1, pairs);
    }
}

proof fn lemma_entries_alike_themselves(
    entries: Seq<(Seq<char>, BoundExprView)>,
    n: nat,
    pairs: Seq<(u32, u32)>,
)
    requires
        entries_pattern_free(entries, n),
    ensures
        entries_alike(entries, entries, n, pairs),
    decreases entries, n,
{
    if !(n == 0 || n > entries.len()) {
        assert(decreases_to!(entries => entries[n - 1]));
        lemma_entries_alike_themselves(entries, (n - 1) as nat, pairs);
        an_expression_is_alike_itself(entries[n - 1].1, pairs);
    }
}

// --- Symmetry and source ranges ---------------------------------------------------------------------

/// The corresponding pairs, seen from the other side.
pub open spec fn flipped(pairs: Seq<(u32, u32)>) -> Seq<(u32, u32)> {
    Seq::new(pairs.len(), |i: int| (pairs[i].1, pairs[i].0))
}

proof fn lemma_flipped(pairs: Seq<(u32, u32)>, x: u32, y: u32)
    ensures
        paired(pairs, x, y) ==> paired(flipped(pairs), y, x),
        flipped(pairs.push((x, y))) == flipped(pairs).push((y, x)),
{
    if paired(pairs, x, y) {
        let i = pairs.index_of((x, y));
        assert(flipped(pairs)[i] == (y, x));
    }
    assert(flipped(pairs.push((x, y))) =~= flipped(pairs).push((y, x)));
}

proof fn lemma_flip_all(
    a: Seq<BoundExprView>,
    b: Seq<BoundExprView>,
    n: nat,
    pairs: Seq<(u32, u32)>,
)
    requires
        all_alike(a, b, n, pairs),
        n <= a.len(),
        a.len() == b.len(),
    ensures
        all_alike(b, a, n, flipped(pairs)),
    decreases a, n,
{
    if n > 0 {
        lemma_flip_all(a, b, (n - 1) as nat, pairs);
        likeness_is_symmetric(a[n - 1], b[n - 1], pairs);
    }
}

proof fn lemma_flip_branches(
    a: Seq<(BoundExprView, BoundExprView)>,
    b: Seq<(BoundExprView, BoundExprView)>,
    n: nat,
    pairs: Seq<(u32, u32)>,
)
    requires
        branches_alike(a, b, n, pairs),
        n <= a.len(),
        a.len() == b.len(),
    ensures
        branches_alike(b, a, n, flipped(pairs)),
    decreases a, n,
{
    if n > 0 {
        lemma_flip_branches(a, b, (n - 1) as nat, pairs);
        assert(decreases_to!(a => a[n - 1]));
        likeness_is_symmetric(a[n - 1].0, b[n - 1].0, pairs);
        likeness_is_symmetric(a[n - 1].1, b[n - 1].1, pairs);
    }
}

proof fn lemma_flip_entries(
    a: Seq<(Seq<char>, BoundExprView)>,
    b: Seq<(Seq<char>, BoundExprView)>,
    n: nat,
    pairs: Seq<(u32, u32)>,
)
    requires
        entries_alike(a, b, n, pairs),
        n <= a.len(),
        a.len() == b.len(),
    ensures
        entries_alike(b, a, n, flipped(pairs)),
    decreases a, n,
{
    if n > 0 {
        lemma_flip_entries(a, b, (n - 1) as nat, pairs);
        assert(decreases_to!(a => a[n - 1]));
        likeness_is_symmetric(a[n - 1].1, b[n - 1].1, pairs);
    }
}

/// Likeness is symmetric: the pairs of corresponding locals turn round with the
/// expressions.
pub proof fn likeness_is_symmetric(a: BoundExprView, b: BoundExprView, pairs: Seq<(u32, u32)>)
    requires
        alike(a, b, pairs),
    ensures
        alike(b, a, flipped(pairs)),
    decreases a, 0nat,
{
    match (a, b) {
        (BoundExprView::Variable { id: x, .. }, BoundExprView::Variable { id: y, .. }) => {
            lemma_flipped(pairs, x.0, y.0);
        },
        (
            BoundExprView::Property { base: x, .. },
            BoundExprView::Property { base: y, .. },
        ) => {
            likeness_is_symmetric(*x, *y, pairs);
        },
        (BoundExprView::Unary { operand: x, .. }, BoundExprView::Unary { operand: y, .. }) => {
            likeness_is_symmetric(*x, *y, pairs);
        },
        (
            BoundExprView::Binary { lhs: x, rhs: v, .. },
            BoundExprView::Binary { lhs: y, rhs: w, .. },
        ) => {
            likeness_is_symmetric(*x, *y, pairs);
            likeness_is_symmetric(*v, *w, pairs);
        },
        (BoundExprView::IsNull { operand: x, .. }, BoundExprView::IsNull { operand: y, .. }) => {
            likeness_is_symmetric(*x, *y, pairs);
        },
        (BoundExprView::Function { args: x, .. }, BoundExprView::Function { args: y, .. }) => {
            lemma_flip_all(x, y, x.len(), pairs);
        },
        (BoundExprView::Aggregate { arg: x, .. }, BoundExprView::Aggregate { arg: y, .. }) => {
            if x is Some {
                likeness_is_symmetric(*x->0, *y->0, pairs);
            }
        },
        (
            BoundExprView::Case { operand: x, whens: j, else_expr: v, .. },
            BoundExprView::Case { operand: y, whens: k, else_expr: w, .. },
        ) => {
            if x is Some {
                likeness_is_symmetric(*x->0, *y->0, pairs);
            }
            if v is Some {
                likeness_is_symmetric(*v->0, *w->0, pairs);
            }
            lemma_flip_branches(j, k, j.len(), pairs);
        },
        (
            BoundExprView::ListLiteral { items: x, .. },
            BoundExprView::ListLiteral { items: y, .. },
        ) => {
            lemma_flip_all(x, y, x.len(), pairs);
        },
        (
            BoundExprView::MapLiteral { entries: x, .. },
            BoundExprView::MapLiteral { entries: y, .. },
        ) => {
            lemma_flip_entries(x, y, x.len(), pairs);
        },
        (
            BoundExprView::Index { base: x, index: v, .. },
            BoundExprView::Index { base: y, index: w, .. },
        ) => {
            likeness_is_symmetric(*x, *y, pairs);
            likeness_is_symmetric(*v, *w, pairs);
        },
        (
            BoundExprView::Slice { base: x, from: v, to: m, .. },
            BoundExprView::Slice { base: y, from: w, to: n, .. },
        ) => {
            likeness_is_symmetric(*x, *y, pairs);
            if v is Some {
                likeness_is_symmetric(*v->0, *w->0, pairs);
            }
            if m is Some {
                likeness_is_symmetric(*m->0, *n->0, pairs);
            }
        },
        (
            BoundExprView::ListComprehension { variable: j, list: x, where_clause: v, map: m, .. },
            BoundExprView::ListComprehension { variable: k, list: y, where_clause: w, map: n, .. },
        ) => {
            lemma_flipped(pairs, j.0, k.0);
            let inner = pairs.push((j.0, k.0));
            likeness_is_symmetric(*x, *y, pairs);
            if v is Some {
                likeness_is_symmetric(*v->0, *w->0, inner);
            }
            if m is Some {
                likeness_is_symmetric(*m->0, *n->0, inner);
            }
        },
        (
            BoundExprView::Quantifier { variable: j, list: x, predicate: v, .. },
            BoundExprView::Quantifier { variable: k, list: y, predicate: w, .. },
        ) => {
            lemma_flipped(pairs, j.0, k.0);
            likeness_is_symmetric(*x, *y, pairs);
            likeness_is_symmetric(*v, *w, pairs.push((j.0, k.0)));
        },
        (
            BoundExprView::Reduce { accumulator: m, init: p, variable: j, list: x, expr: v, .. },
            BoundExprView::Reduce { accumulator: n, init: q, variable: k, list: y, expr: w, .. },
        ) => {
            lemma_flipped(pairs, m.0, n.0);
            lemma_flipped(pairs.push((m.0, n.0)), j.0, k.0);
            likeness_is_symmetric(*p, *q, pairs);
            likeness_is_symmetric(*x, *y, pairs);
            likeness_is_symmetric(*v, *w, pairs.push((m.0, n.0)).push((j.0, k.0)));
        },
        _ => {},
    }
}

/// A pattern is alike nothing, itself included.
pub proof fn patterns_are_alike_nothing(a: BoundExprView, b: BoundExprView, pairs: Seq<(u32, u32)>)
    requires
        a is PatternPredicate || b is PatternPredicate,
    ensures
        !alike(a, b, pairs),
{
}

} // verus!
