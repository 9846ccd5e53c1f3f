//! A digest of bound expressions that disregards source ranges: alike
//! expressions have the same one, so a grouping key is looked for only among
//! those that share it. Variables count by kind alone, since those that
//! iteration constructs declare differ per binding site.

use vstd::prelude::*;
use vstd::string::*;
use vstd::wrapping::u64_specs;

use crate::ast::{Literal, LiteralView};
use crate::bind::bound::{BoundExpr, BoundExprView};
use crate::bind::likeness;
use crate::bind::subtrees;
use crate::text;

verus! {

/// `h` with `x` folded in.
pub open spec fn mix(h: u64, x: u64) -> u64 {
    u64_specs::wrapping_add(u64_specs::wrapping_mul(h, 1099511628211), x)
}

pub(crate) fn mixed(h: u64, x: u64) -> (r: u64)
    ensures
        r == mix(h, x),
{
    h.wrapping_mul(1099511628211).wrapping_add(x)
}

/// `h` with the first `n` characters of a text folded in.
pub open spec fn text_digest(h: u64, s: Seq<char>, n: nat) -> u64
    decreases n,
{
    if n == 0 || n > s.len() {
        h
    } else {
        mix(text_digest(h, s, (n - 1) as nat), s[n - 1] as u64)
    }
}

fn digest_text(h: u64, s: &str) -> (r: u64)
    ensures
        r == text_digest(h, s@, s@.len()),
{
    let chars = text::chars_of(s);
    let mut out: u64 = h;
    let mut i: usize = 0;
    while i < chars.len()
        invariant
            i <= chars.len(),
            chars@ == s@,
            out == text_digest(h, s@, i as nat),
        decreases chars.len() - i,
    {
        out = mixed(out, chars[i] as u64);
        i += 1;
    }
    out
}

/// What an expression itself adds to its digest.
pub open spec fn head(e: BoundExprView) -> u64 {
    match e {
        BoundExprView::Literal { value, .. } => match value {
            LiteralView::Null => 1,
            LiteralView::Boolean(b) => if b {
                2
            } else {
                3
            },
            LiteralView::Integer(n) => mix(4, n as u64),
            LiteralView::Float(x) => mix(5, x),
            LiteralView::String(s) => text_digest(6, s, s.len()),
        },
        BoundExprView::Parameter { name, .. } => text_digest(7, name, name.len()),
        BoundExprView::Variable { .. } => 8,
        BoundExprView::Property { key, .. } => text_digest(9, key, key.len()),
        BoundExprView::Unary { .. } => 10,
        BoundExprView::Binary { .. } => 11,
        BoundExprView::IsNull { negated, .. } => if negated {
            12
        } else {
            13
        },
        BoundExprView::Function { def, .. } => text_digest(14, def.name, def.name.len()),
        BoundExprView::Aggregate { def, .. } => text_digest(15, def.name, def.name.len()),
        BoundExprView::Case { .. } => 16,
        BoundExprView::ListLiteral { .. } => 17,
        BoundExprView::ListComprehension { .. } => 18,
        BoundExprView::Quantifier { .. } => 19,
        BoundExprView::Reduce { .. } => 20,
        BoundExprView::MapLiteral { .. } => 21,
        BoundExprView::Index { .. } => 22,
        BoundExprView::Slice { .. } => 23,
        BoundExprView::PatternPredicate { .. } => 24,
    }
}

/// The digest of an expression.
pub open spec fn digest(e: BoundExprView) -> u64
    decreases e, subtrees::bound_children(e).len() + 1,
{
    digest_with(e, subtrees::bound_children(e).len())
}

/// The digest of an expression with only its first `n` children folded in.
pub open spec fn digest_with(e: BoundExprView, n: nat) -> u64
    decreases e, n,
{
    if n == 0 || n > subtrees::bound_children(e).len() {
        head(e)
    } else {
        proof {
            subtrees::lemma_bound_child_is_smaller(e, n - 1);
        }
        mix(digest_with(e, (n - 1) as nat), digest(subtrees::bound_children(e)[n - 1]))
    }
}

fn digest_head(e: &BoundExpr) -> (r: u64)
    ensures
        r == head(e@),
{
    match e {
        BoundExpr::Literal { value, .. } => match value {
            Literal::Null => 1,
            Literal::Boolean(b) => if *b {
                2
            } else {
                3
            },
            Literal::Integer(n) => mixed(4, *n as u64),
            Literal::Float(x) => mixed(5, *x),
            Literal::String(s) => digest_text(6, s.as_str()),
        },
        BoundExpr::Parameter { name, .. } => digest_text(7, name.as_str()),
        BoundExpr::Variable { .. } => 8,
        BoundExpr::Property { key, .. } => digest_text(9, key.as_str()),
        BoundExpr::Unary { .. } => 10,
        BoundExpr::Binary { .. } => 11,
        BoundExpr::IsNull { negated, .. } => if *negated {
            12
        } else {
            13
        },
        BoundExpr::Function { def, .. } => digest_text(14, def.name),
        BoundExpr::Aggregate { def, .. } => digest_text(15, def.name),
        BoundExpr::Case { .. } => 16,
        BoundExpr::ListLiteral { .. } => 17,
        BoundExpr::ListComprehension { .. } => 18,
        BoundExpr::Quantifier { .. } => 19,
        BoundExpr::Reduce { .. } => 20,
        BoundExpr::MapLiteral { .. } => 21,
        BoundExpr::Index { .. } => 22,
        BoundExpr::Slice { .. } => 23,
        BoundExpr::PatternPredicate { .. } => 24,
    }
}

/// The digests of an expression and of everything below it.
pub(crate) struct Digested {
    pub digest: u64,
    pub children: Vec<Digested>,
}

/// Whether `d` holds the digests of an expression.
pub(crate) open spec fn tells(d: Digested, e: BoundExprView) -> bool
    decreases e, subtrees::bound_children(e).len() + 1,
{
    &&& d.digest == digest(e)
    &&& d.children@.len() == subtrees::bound_children(e).len()
    &&& tells_first(d.children@, e, subtrees::bound_children(e).len())
}

/// Whether the first `n` of `ds` hold the digests of the first `n` children of
/// an expression.
pub(crate) open spec fn tells_first(ds: Seq<Digested>, e: BoundExprView, n: nat) -> bool
    decreases e, n,
{
    if n == 0 || n > ds.len() || n > subtrees::bound_children(e).len() {
        true
    } else {
        proof {
            subtrees::lemma_bound_child_is_smaller(e, n - 1);
        }
        tells_first(ds, e, (n - 1) as nat) && tells(
            ds[n - 1],
            subtrees::bound_children(e)[n - 1],
        )
    }
}

/// The digests below an expression are those of its children.
pub(crate) proof fn lemma_tells_child(ds: Seq<Digested>, e: BoundExprView, n: nat, i: int)
    requires
        tells_first(ds, e, n),
        0 <= i < n <= ds.len(),
        n <= subtrees::bound_children(e).len(),
    ensures
        tells(ds[i], subtrees::bound_children(e)[i]),
    decreases n,
{
    if i < n - 1 {
        lemma_tells_child(ds, e, (n - 1) as nat, i);
    }
}

proof fn lemma_tells_first(ds: Seq<Digested>, e: BoundExprView, n: nat)
    requires
        n <= ds.len(),
        n <= subtrees::bound_children(e).len(),
        forall|k: int| 0 <= k < n ==> tells(#[trigger] ds[k], subtrees::bound_children(e)[k]),
    ensures
        tells_first(ds, e, n),
    decreases n,
{
    if n > 0 {
        lemma_tells_first(ds, e, (n - 1) as nat);
    }
}

/// The digests of an expression and of everything below it, in one pass.
pub(crate) fn digest_tree(e: &BoundExpr) -> (r: Digested)
    ensures
        tells(r, e@),
    decreases e@,
{
    let parts = e.children();
    let ghost all = subtrees::bound_children(e@);
    let mut out: u64 = digest_head(e);
    let mut children: Vec<Digested> = Vec::new();
    let mut i: usize = 0;
    while i < parts.len()
        invariant
            i <= parts.len(),
            all == subtrees::bound_children(e@),
            subtrees::referenced(parts@) == all,
            out == digest_with(e@, i as nat),
            children@.len() == i,
            forall|k: int| 0 <= k < i ==> tells(#[trigger] children@[k], all[k]),
        decreases parts.len() - i,
    {
        proof {
            subtrees::lemma_bound_child_is_smaller(e@, i as int);
            assert(all[i as int] == parts@[i as int]@);
        }
        let child = digest_tree(parts[i]);
        out = mixed(out, child.digest);
        children.push(child);
        i += 1;
    }
    proof {
        lemma_tells_first(children@, e@, all.len());
    }
    Digested { digest: out, children }
}

// --- Laws -------------------------------------------------------------------------------------------

proof fn lemma_branch_at(whens: Seq<(BoundExprView, BoundExprView)>, j: int)
    requires
        0 <= j < whens.len(),
    ensures
        subtrees::branches(whens).len() == 2 * whens.len(),
        subtrees::branches(whens)[2 * j] == whens[j].0,
        subtrees::branches(whens)[2 * j + 1] == whens[j].1,
    decreases whens.len(),
{
    let before = whens.drop_last();
    if j < before.len() {
        lemma_branch_at(before, j);
        assert(before[j] == whens[j]);
    } else if before.len() > 0 {
        lemma_branch_at(before, 0);
    } else {
        assert(subtrees::branches(before) =~= seq![]);
    }
}

proof fn lemma_all_at(
    a: Seq<BoundExprView>,
    b: Seq<BoundExprView>,
    n: nat,
    pairs: Seq<(u32, u32)>,
    i: int,
)
    requires
        likeness::all_alike(a, b, n, pairs),
        0 <= i < n <= a.len(),
        a.len() == b.len(),
    ensures
        likeness::alike(a[i], b[i], pairs),
    decreases n,
{
    if i < n - 1 {
        lemma_all_at(a, b, (n - 1) as nat, pairs, i);
    }
}

proof fn lemma_branches_at(
    a: Seq<(BoundExprView, BoundExprView)>,
    b: Seq<(BoundExprView, BoundExprView)>,
    n: nat,
    pairs: Seq<(u32, u32)>,
    i: int,
)
    requires
        likeness::branches_alike(a, b, n, pairs),
        0 <= i < n <= a.len(),
        a.len() == b.len(),
    ensures
        likeness::alike(a[i].0, b[i].0, pairs),
        likeness::alike(a[i].1, b[i].1, pairs),
    decreases n,
{
    if i < n - 1 {
        lemma_branches_at(a, b, (n - 1) as nat, pairs, i);
    }
}

proof fn lemma_entries_at(
    a: Seq<(Seq<char>, BoundExprView)>,
    b: Seq<(Seq<char>, BoundExprView)>,
    n: nat,
    pairs: Seq<(u32, u32)>,
    i: int,
)
    requires
        likeness::entries_alike(a, b, n, pairs),
        0 <= i < n <= a.len(),
        a.len() == b.len(),
    ensures
        likeness::alike(a[i].1, b[i].1, pairs),
    decreases n,
{
    if i < n - 1 {
        lemma_entries_at(a, b, (n - 1) as nat, pairs, i);
    }
}

proof fn lemma_as_many_children(a: BoundExprView, b: BoundExprView, pairs: Seq<(u32, u32)>)
    requires
        likeness::alike(a, b, pairs),
    ensures
        head(a) == head(b),
        subtrees::bound_children(a).len() == subtrees::bound_children(b).len(),
{
    match (a, b) {
        (
            BoundExprView::Case { operand: x, whens: j, else_expr: v, .. },
            BoundExprView::Case { operand: y, whens: k, else_expr: w, .. },
        ) => {
            if j.len() > 0 {
                lemma_branch_at(j, 0);
                lemma_branch_at(k, 0);
            } else {
                assert(j =~= k);
            }
        },
        _ => {},
    }
}

proof fn lemma_child_alike(a: BoundExprView, b: BoundExprView, pairs: Seq<(u32, u32)>, i: int) -> (p:
    Seq<(u32, u32)>)
    requires
        likeness::alike(a, b, pairs),
        0 <= i < subtrees::bound_children(a).len(),
        subtrees::bound_children(a).len() == subtrees::bound_children(b).len(),
    ensures
        likeness::alike(subtrees::bound_children(a)[i], subtrees::bound_children(b)[i], p),
{
    match (a, b) {
        (
            BoundExprView::Function { args: x, .. },
            BoundExprView::Function { args: y, .. },
        ) => {
            lemma_all_at(x, y, x.len(), pairs, i);
            pairs
        },
        (
            BoundExprView::ListLiteral { items: x, .. },
            BoundExprView::ListLiteral { items: y, .. },
        ) => {
            lemma_all_at(x, y, x.len(), pairs, i);
            pairs
        },
        (
            BoundExprView::MapLiteral { entries: x, .. },
            BoundExprView::MapLiteral { entries: y, .. },
        ) => {
            lemma_entries_at(x, y, x.len(), pairs, i);
            pairs
        },
        (
            BoundExprView::Case { operand: x, whens: j, else_expr: v, .. },
            BoundExprView::Case { operand: y, whens: k, else_expr: w, .. },
        ) => {
            let n = subtrees::boxed(x).len();
            if j.len() > 0 {
                lemma_branch_at(j, 0);
                lemma_branch_at(k, 0);
            } else {
                assert(j =~= k);
            }
            if n <= i < n + subtrees::branches(j).len() {
                let m = (i - n) / 2;
                lemma_branch_at(j, m);
                lemma_branch_at(k, m);
                lemma_branches_at(j, k, j.len(), pairs, m);
                if (i - n) % 2 == 0 {
                    assert(i - n == 2 * m);
                } else {
                    assert(i - n == 2 * m + 1);
                }
            }
            pairs
        },
        (
            BoundExprView::ListComprehension { variable: j, .. },
            BoundExprView::ListComprehension { variable: k, .. },
        ) => if i == 0 {
            pairs
        } else {
            pairs.push((j.0, k.0))
        },
        (
            BoundExprView::Quantifier { variable: j, .. },
            BoundExprView::Quantifier { variable: k, .. },
        ) => if i == 0 {
            pairs
        } else {
            pairs.push((j.0, k.0))
        },
        (
            BoundExprView::Reduce { accumulator: m, variable: j, .. },
            BoundExprView::Reduce { accumulator: n, variable: k, .. },
        ) => if i < 2 {
            pairs
        } else {
            pairs.push((m.0, n.0)).push((j.0, k.0))
        },
        _ => pairs,
    }
}

proof fn lemma_digest_with(a: BoundExprView, b: BoundExprView, n: nat)
    requires
        head(a) == head(b),
        n <= subtrees::bound_children(a).len(),
        subtrees::bound_children(a).len() == subtrees::bound_children(b).len(),
        forall|i: int|
            0 <= i < n ==> digest(
                #[trigger] subtrees::bound_children(a)[i],
            ) == digest(subtrees::bound_children(b)[i]),
    ensures
        digest_with(a, n) == digest_with(b, n),
    decreases n,
{
    if n > 0 {
        lemma_digest_with(a, b, (n - 1) as nat);
    }
}

/// Expressions that are alike have the same digest.
pub proof fn alike_expressions_share_a_digest(
    a: BoundExprView,
    b: BoundExprView,
    pairs: Seq<(u32, u32)>,
)
    requires
        likeness::alike(a, b, pairs),
    ensures
        digest(a) == digest(b),
    decreases a,
{
    lemma_as_many_children(a, b, pairs);
    let n = subtrees::bound_children(a).len();
    assert forall|i: int| 0 <= i < n implies digest(#[trigger] subtrees::bound_children(a)[i]) == digest(
        subtrees::bound_children(b)[i],
    ) by {
        let p = lemma_child_alike(a, b, pairs, i);
        subtrees::lemma_bound_child_is_smaller(a, i);
        alike_expressions_share_a_digest(
            subtrees::bound_children(a)[i],
            subtrees::bound_children(b)[i],
            p,
        );
    }
    lemma_digest_with(a, b, n);
}

} // verus!
