//! What likeness does not look at, at any depth: source ranges, and what iteration
//! constructs call their variables.

use vstd::prelude::*;

use crate::bind::bound::BoundExprView;
use crate::bind::likeness;

verus! {

/// Whether two expressions are the same but for the source ranges in them. All
/// patterns count as the same here: they are alike nothing.
pub open spec fn twins(a: BoundExprView, b: BoundExprView) -> bool
    decreases a, 0nat,
{
    match (a, b) {
        (
            BoundExprView::Literal { value: x, .. },
            BoundExprView::Literal { value: y, .. },
        ) => x == y,
        (
            BoundExprView::Parameter { name: x, .. },
            BoundExprView::Parameter { name: y, .. },
        ) => x == y,
        (BoundExprView::Variable { id: x, .. }, BoundExprView::Variable { id: y, .. }) => x == y,
        (
            BoundExprView::Property { key: key_a, base: base_a, .. },
            BoundExprView::Property { key: key_b, base: base_b, .. },
        ) => {
            &&& key_a == key_b
            &&& twins(*base_a, *base_b)
        },
        (
            BoundExprView::Unary { op: op_a, operand: operand_a, .. },
            BoundExprView::Unary { op: op_b, operand: operand_b, .. },
        ) => {
            &&& op_a == op_b
            &&& twins(*operand_a, *operand_b)
        },
        (
            BoundExprView::Binary { op: op_a, lhs: lhs_a, rhs: rhs_a, .. },
            BoundExprView::Binary { op: op_b, lhs: lhs_b, rhs: rhs_b, .. },
        ) => {
            &&& op_a == op_b
            &&& twins(*lhs_a, *lhs_b)
            &&& twins(*rhs_a, *rhs_b)
        },
        (
            BoundExprView::IsNull { negated: negated_a, operand: operand_a, .. },
            BoundExprView::IsNull { negated: negated_b, operand: operand_b, .. },
        ) => {
            &&& negated_a == negated_b
            &&& twins(*operand_a, *operand_b)
        },
        (
            BoundExprView::Function { def: def_a, args: args_a, .. },
            BoundExprView::Function { def: def_b, args: args_b, .. },
        ) => {
            &&& def_a == def_b
            &&& args_a.len() == args_b.len()
            &&& all_twins(args_a, args_b, args_a.len())
        },
        (
            BoundExprView::Aggregate { def: def_a, distinct: distinct_a, arg: arg_a, .. },
            BoundExprView::Aggregate { def: def_b, distinct: distinct_b, arg: arg_b, .. },
        ) => {
            &&& def_a == def_b
            &&& distinct_a == distinct_b
            &&& (arg_a is Some) == (arg_b is Some)
            &&& arg_a is Some ==> twins(*arg_a->0, *arg_b->0)
        },
        (
            BoundExprView::Case { operand: operand_a, else_expr: else_expr_a, whens: whens_a, .. },
            BoundExprView::Case { operand: operand_b, else_expr: else_expr_b, whens: whens_b, .. },
        ) => {
            &&& (operand_a is Some) == (operand_b is Some)
            &&& operand_a is Some ==> twins(*operand_a->0, *operand_b->0)
            &&& (else_expr_a is Some) == (else_expr_b is Some)
            &&& else_expr_a is Some ==> twins(*else_expr_a->0, *else_expr_b->0)
            &&& whens_a.len() == whens_b.len()
            &&& branches_twins(whens_a, whens_b, whens_a.len())
        },
        (
            BoundExprView::ListLiteral { items: items_a, .. },
            BoundExprView::ListLiteral { items: items_b, .. },
        ) => {
            &&& items_a.len() == items_b.len()
            &&& all_twins(items_a, items_b, items_a.len())
        },
        (
            BoundExprView::ListComprehension { variable: variable_a, list: list_a, where_clause: where_clause_a, map: map_a, .. },
            BoundExprView::ListComprehension { variable: variable_b, list: list_b, where_clause: where_clause_b, map: map_b, .. },
        ) => {
            &&& variable_a == variable_b
            &&& twins(*list_a, *list_b)
            &&& (where_clause_a is Some) == (where_clause_b is Some)
            &&& where_clause_a is Some ==> twins(*where_clause_a->0, *where_clause_b->0)
            &&& (map_a is Some) == (map_b is Some)
            &&& map_a is Some ==> twins(*map_a->0, *map_b->0)
        },
        (
            BoundExprView::Quantifier { kind: kind_a, variable: variable_a, list: list_a, predicate: predicate_a, .. },
            BoundExprView::Quantifier { kind: kind_b, variable: variable_b, list: list_b, predicate: predicate_b, .. },
        ) => {
            &&& kind_a == kind_b
            &&& variable_a == variable_b
            &&& twins(*list_a, *list_b)
            &&& twins(*predicate_a, *predicate_b)
        },
        (
            BoundExprView::Reduce { accumulator: accumulator_a, variable: variable_a, init: init_a, list: list_a, expr: expr_a, .. },
            BoundExprView::Reduce { accumulator: accumulator_b, variable: variable_b, init: init_b, list: list_b, expr: expr_b, .. },
        ) => {
            &&& accumulator_a == accumulator_b
            &&& variable_a == variable_b
            &&& twins(*init_a, *init_b)
            &&& twins(*list_a, *list_b)
            &&& twins(*expr_a, *expr_b)
        },
        (
            BoundExprView::MapLiteral { entries: entries_a, .. },
            BoundExprView::MapLiteral { entries: entries_b, .. },
        ) => {
            &&& entries_a.len() == entries_b.len()
            &&& entries_twins(entries_a, entries_b, entries_a.len())
        },
        (
            BoundExprView::Index { base: base_a, index: index_a, .. },
            BoundExprView::Index { base: base_b, index: index_b, .. },
        ) => {
            &&& twins(*base_a, *base_b)
            &&& twins(*index_a, *index_b)
        },
        (
            BoundExprView::Slice { base: base_a, from: from_a, to: to_a, .. },
            BoundExprView::Slice { base: base_b, from: from_b, to: to_b, .. },
        ) => {
            &&& twins(*base_a, *base_b)
            &&& (from_a is Some) == (from_b is Some)
            &&& from_a is Some ==> twins(*from_a->0, *from_b->0)
            &&& (to_a is Some) == (to_b is Some)
            &&& to_a is Some ==> twins(*to_a->0, *to_b->0)
        },
        (BoundExprView::PatternPredicate { .. }, BoundExprView::PatternPredicate { .. }) => true,
        _ => false,
    }
}

/// As [`twins`], for the first `n` of two lists.
pub open spec fn all_twins(a: Seq<BoundExprView>, b: Seq<BoundExprView>, n: nat) -> bool
    decreases a, n,
{
    if n == 0 || n > a.len() || n > b.len() {
        true
    } else {
        all_twins(a, b, (n - 1) as nat) && twins(a[n - 1], b[n - 1])
    }
}

/// As [`twins`], for the first `n` of two lists.
pub open spec fn branches_twins(
    a: Seq<(BoundExprView, BoundExprView)>,
    b: Seq<(BoundExprView, BoundExprView)>,
    n: nat,
) -> bool
    decreases a, n,
{
    if n == 0 || n > a.len() || n > b.len() {
        true
    } else {
        branches_twins(a, b, (n - 1) as nat) && twins(a[n - 1].0, b[n - 1].0) && twins(a[n - 1].1, b[n - 1].1)
    }
}

/// As [`twins`], for the first `n` of two lists.
pub open spec fn entries_twins(
    a: Seq<(Seq<char>, BoundExprView)>,
    b: Seq<(Seq<char>, BoundExprView)>,
    n: nat,
) -> bool
    decreases a, n,
{
    if n == 0 || n > a.len() || n > b.len() {
        true
    } else {
        entries_twins(a, b, (n - 1) as nat) && a[n - 1].0 == b[n - 1].0 && twins(a[n - 1].1, b[n - 1].1)
    }
}

proof fn lemma_all_twins(
    a: Seq<BoundExprView>,
    c: Seq<BoundExprView>,
    b: Seq<BoundExprView>,
    n: nat,
    pairs: Seq<(u32, u32)>,
)
    requires
        all_twins(a, c, n),
        n <= a.len(),
        a.len() == c.len(),
        a.len() == b.len(),
    ensures
        likeness::all_alike(a, b, n, pairs) == likeness::all_alike(c, b, n, pairs),
    decreases a, n,
{
    if n > 0 {
        lemma_all_twins(a, c, b, (n - 1) as nat, pairs);
        lemma_twin(a[n - 1], c[n - 1], b[n - 1], pairs);
    }
}

proof fn lemma_branches_twins(
    a: Seq<(BoundExprView, BoundExprView)>,
    c: Seq<(BoundExprView, BoundExprView)>,
    b: Seq<(BoundExprView, BoundExprView)>,
    n: nat,
    pairs: Seq<(u32, u32)>,
)
    requires
        branches_twins(a, c, n),
        n <= a.len(),
        a.len() == c.len(),
        a.len() == b.len(),
    ensures
        likeness::branches_alike(a, b, n, pairs) == likeness::branches_alike(c, b, n, pairs),
    decreases a, n,
{
    if n > 0 {
        lemma_branches_twins(a, c, b, (n - 1) as nat, pairs);
        assert(decreases_to!(a => a[n - 1]));
        lemma_twin(a[n - 1].0, c[n - 1].0, b[n - 1].0, pairs);
        lemma_twin(a[n - 1].1, c[n - 1].1, b[n - 1].1, pairs);
    }
}

proof fn lemma_entries_twins(
    a: Seq<(Seq<char>, BoundExprView)>,
    c: Seq<(Seq<char>, BoundExprView)>,
    b: Seq<(Seq<char>, BoundExprView)>,
    n: nat,
    pairs: Seq<(u32, u32)>,
)
    requires
        entries_twins(a, c, n),
        n <= a.len(),
        a.len() == c.len(),
        a.len() == b.len(),
    ensures
        likeness::entries_alike(a, b, n, pairs) == likeness::entries_alike(c, b, n, pairs),
    decreases a, n,
{
    if n > 0 {
        lemma_entries_twins(a, c, b, (n - 1) as nat, pairs);
        assert(decreases_to!(a => a[n - 1]));
        lemma_twin(a[n - 1].1, c[n - 1].1, b[n - 1].1, pairs);
    }
}

proof fn lemma_twin(
    a: BoundExprView,
    c: BoundExprView,
    b: BoundExprView,
    pairs: Seq<(u32, u32)>,
)
    requires
        twins(a, c),
    ensures
        likeness::alike(a, b, pairs) == likeness::alike(c, b, pairs),
    decreases a, 0nat,
{
    match (a, c, b) {
        (
            BoundExprView::Property { base: base_a, .. },
            BoundExprView::Property { base: base_c, .. },
            BoundExprView::Property { base: base_b, .. },
        ) => {
            lemma_twin(*base_a, *base_c, *base_b, pairs);
        },
        (
            BoundExprView::Unary { operand: operand_a, .. },
            BoundExprView::Unary { operand: operand_c, .. },
            BoundExprView::Unary { operand: operand_b, .. },
        ) => {
            lemma_twin(*operand_a, *operand_c, *operand_b, pairs);
        },
        (
            BoundExprView::Binary { lhs: lhs_a, rhs: rhs_a, .. },
            BoundExprView::Binary { lhs: lhs_c, rhs: rhs_c, .. },
            BoundExprView::Binary { lhs: lhs_b, rhs: rhs_b, .. },
        ) => {
            lemma_twin(*lhs_a, *lhs_c, *lhs_b, pairs);
            lemma_twin(*rhs_a, *rhs_c, *rhs_b, pairs);
        },
        (
            BoundExprView::IsNull { operand: operand_a, .. },
            BoundExprView::IsNull { operand: operand_c, .. },
            BoundExprView::IsNull { operand: operand_b, .. },
        ) => {
            lemma_twin(*operand_a, *operand_c, *operand_b, pairs);
        },
        (
            BoundExprView::Function { args: args_a, .. },
            BoundExprView::Function { args: args_c, .. },
            BoundExprView::Function { args: args_b, .. },
        ) => {
            if args_a.len() == args_b.len() {
                lemma_all_twins(args_a, args_c, args_b, args_a.len(), pairs);
            }
        },
        (
            BoundExprView::Aggregate { arg: arg_a, .. },
            BoundExprView::Aggregate { arg: arg_c, .. },
            BoundExprView::Aggregate { arg: arg_b, .. },
        ) => {
            if arg_a is Some && arg_b is Some {
                lemma_twin(*arg_a->0, *arg_c->0, *arg_b->0, pairs);
            }
        },
        (
            BoundExprView::Case { operand: operand_a, else_expr: else_expr_a, whens: whens_a, .. },
            BoundExprView::Case { operand: operand_c, else_expr: else_expr_c, whens: whens_c, .. },
            BoundExprView::Case { operand: operand_b, else_expr: else_expr_b, whens: whens_b, .. },
        ) => {
            if operand_a is Some && operand_b is Some {
                lemma_twin(*operand_a->0, *operand_c->0, *operand_b->0, pairs);
            }
            if else_expr_a is Some && else_expr_b is Some {
                lemma_twin(*else_expr_a->0, *else_expr_c->0, *else_expr_b->0, pairs);
            }
            if whens_a.len() == whens_b.len() {
                lemma_branches_twins(whens_a, whens_c, whens_b, whens_a.len(), pairs);
            }
        },
        (
            BoundExprView::ListLiteral { items: items_a, .. },
            BoundExprView::ListLiteral { items: items_c, .. },
            BoundExprView::ListLiteral { items: items_b, .. },
        ) => {
            if items_a.len() == items_b.len() {
                lemma_all_twins(items_a, items_c, items_b, items_a.len(), pairs);
            }
        },
        (
            BoundExprView::ListComprehension { list: list_a, where_clause: where_clause_a, map: map_a, variable: variable_a, .. },
            BoundExprView::ListComprehension { list: list_c, where_clause: where_clause_c, map: map_c, .. },
            BoundExprView::ListComprehension { list: list_b, where_clause: where_clause_b, map: map_b, variable: variable_b, .. },
        ) => {
            let inner = pairs.push((variable_a.0, variable_b.0));
            lemma_twin(*list_a, *list_c, *list_b, pairs);
            if where_clause_a is Some && where_clause_b is Some {
                lemma_twin(*where_clause_a->0, *where_clause_c->0, *where_clause_b->0, inner);
            }
            if map_a is Some && map_b is Some {
                lemma_twin(*map_a->0, *map_c->0, *map_b->0, inner);
            }
        },
        (
            BoundExprView::Quantifier { list: list_a, predicate: predicate_a, variable: variable_a, .. },
            BoundExprView::Quantifier { list: list_c, predicate: predicate_c, .. },
            BoundExprView::Quantifier { list: list_b, predicate: predicate_b, variable: variable_b, .. },
        ) => {
            let inner = pairs.push((variable_a.0, variable_b.0));
            lemma_twin(*list_a, *list_c, *list_b, pairs);
            lemma_twin(*predicate_a, *predicate_c, *predicate_b, inner);
        },
        (
            BoundExprView::Reduce { init: init_a, list: list_a, expr: expr_a, accumulator: accumulator_a, variable: variable_a, .. },
            BoundExprView::Reduce { init: init_c, list: list_c, expr: expr_c, .. },
            BoundExprView::Reduce { init: init_b, list: list_b, expr: expr_b, accumulator: accumulator_b, variable: variable_b, .. },
        ) => {
            let inner = pairs.push(
                (accumulator_a.0, accumulator_b.0),
            ).push((variable_a.0, variable_b.0));
            lemma_twin(*init_a, *init_c, *init_b, pairs);
            lemma_twin(*list_a, *list_c, *list_b, pairs);
            lemma_twin(*expr_a, *expr_c, *expr_b, inner);
        },
        (
            BoundExprView::MapLiteral { entries: entries_a, .. },
            BoundExprView::MapLiteral { entries: entries_c, .. },
            BoundExprView::MapLiteral { entries: entries_b, .. },
        ) => {
            if entries_a.len() == entries_b.len() {
                lemma_entries_twins(entries_a, entries_c, entries_b, entries_a.len(), pairs);
            }
        },
        (
            BoundExprView::Index { base: base_a, index: index_a, .. },
            BoundExprView::Index { base: base_c, index: index_c, .. },
            BoundExprView::Index { base: base_b, index: index_b, .. },
        ) => {
            lemma_twin(*base_a, *base_c, *base_b, pairs);
            lemma_twin(*index_a, *index_c, *index_b, pairs);
        },
        (
            BoundExprView::Slice { base: base_a, from: from_a, to: to_a, .. },
            BoundExprView::Slice { base: base_c, from: from_c, to: to_c, .. },
            BoundExprView::Slice { base: base_b, from: from_b, to: to_b, .. },
        ) => {
            lemma_twin(*base_a, *base_c, *base_b, pairs);
            if from_a is Some && from_b is Some {
                lemma_twin(*from_a->0, *from_c->0, *from_b->0, pairs);
            }
            if to_a is Some && to_b is Some {
                lemma_twin(*to_a->0, *to_c->0, *to_b->0, pairs);
            }
        },
        _ => {},
    }
}

proof fn lemma_turned(a: BoundExprView, b: BoundExprView, pairs: Seq<(u32, u32)>)
    ensures
        likeness::alike(a, b, pairs) == likeness::alike(b, a, likeness::flipped(pairs)),
{
    if likeness::alike(a, b, pairs) {
        likeness::likeness_is_symmetric(a, b, pairs);
    }
    if likeness::alike(b, a, likeness::flipped(pairs)) {
        likeness::likeness_is_symmetric(b, a, likeness::flipped(pairs));
        assert(likeness::flipped(likeness::flipped(pairs)) =~= pairs);
    }
}

/// No source range makes a difference to whether expressions are alike: what is
/// the same but for source ranges can stand for either of them.
pub proof fn likeness_is_blind_to_source_ranges(
    a: BoundExprView,
    b: BoundExprView,
    c: BoundExprView,
    d: BoundExprView,
    pairs: Seq<(u32, u32)>,
)
    requires
        twins(a, c),
        twins(b, d),
    ensures
        likeness::alike(a, b, pairs) == likeness::alike(c, d, pairs),
{
    lemma_twin(a, c, b, pairs);
    lemma_turned(c, b, pairs);
    lemma_twin(b, d, c, likeness::flipped(pairs));
    lemma_turned(c, d, pairs);
}

// --- Renamed locals ---------------------------------------------------------------------------------

/// Whether `b` is `a` but for source ranges and for what its iteration constructs
/// call their variables: each such variable `x` is called `f(x)` in `b`.
/// `locals` are the variables of the constructs around.
pub open spec fn relabels(
    a: BoundExprView,
    b: BoundExprView,
    locals: Seq<u32>,
    f: spec_fn(u32) -> u32,
) -> bool
    decreases a, 0nat,
{
    match (a, b) {
        (
            BoundExprView::Literal { value: x, .. },
            BoundExprView::Literal { value: y, .. },
        ) => x == y,
        (
            BoundExprView::Parameter { name: x, .. },
            BoundExprView::Parameter { name: y, .. },
        ) => x == y,
        (BoundExprView::Variable { id: x, .. }, BoundExprView::Variable { id: y, .. }) => y.0 == (
        if locals.contains(x.0) {
            f(x.0)
        } else {
            x.0
        }),
        (
            BoundExprView::Property { key: key_a, base: base_a, .. },
            BoundExprView::Property { key: key_b, base: base_b, .. },
        ) => {
            &&& key_a == key_b
            &&& relabels(*base_a, *base_b, locals, f)
        },
        (
            BoundExprView::Unary { op: op_a, operand: operand_a, .. },
            BoundExprView::Unary { op: op_b, operand: operand_b, .. },
        ) => {
            &&& op_a == op_b
            &&& relabels(*operand_a, *operand_b, locals, f)
        },
        (
            BoundExprView::Binary { op: op_a, lhs: lhs_a, rhs: rhs_a, .. },
            BoundExprView::Binary { op: op_b, lhs: lhs_b, rhs: rhs_b, .. },
        ) => {
            &&& op_a == op_b
            &&& relabels(*lhs_a, *lhs_b, locals, f)
            &&& relabels(*rhs_a, *rhs_b, locals, f)
        },
        (
            BoundExprView::IsNull { negated: negated_a, operand: operand_a, .. },
            BoundExprView::IsNull { negated: negated_b, operand: operand_b, .. },
        ) => {
            &&& negated_a == negated_b
            &&& relabels(*operand_a, *operand_b, locals, f)
        },
        (
            BoundExprView::Function { def: def_a, args: args_a, .. },
            BoundExprView::Function { def: def_b, args: args_b, .. },
        ) => {
            &&& def_a == def_b
            &&& args_a.len() == args_b.len()
            &&& all_relabel(args_a, args_b, args_a.len(), locals, f)
        },
        (
            BoundExprView::Aggregate { def: def_a, distinct: distinct_a, arg: arg_a, .. },
            BoundExprView::Aggregate { def: def_b, distinct: distinct_b, arg: arg_b, .. },
        ) => {
            &&& def_a == def_b
            &&& distinct_a == distinct_b
            &&& (arg_a is Some) == (arg_b is Some)
            &&& arg_a is Some ==> relabels(*arg_a->0, *arg_b->0, locals, f)
        },
        (
            BoundExprView::Case { operand: operand_a, else_expr: else_expr_a, whens: whens_a, .. },
            BoundExprView::Case { operand: operand_b, else_expr: else_expr_b, whens: whens_b, .. },
        ) => {
            &&& (operand_a is Some) == (operand_b is Some)
            &&& operand_a is Some ==> relabels(*operand_a->0, *operand_b->0, locals, f)
            &&& (else_expr_a is Some) == (else_expr_b is Some)
            &&& else_expr_a is Some ==> relabels(*else_expr_a->0, *else_expr_b->0, locals, f)
            &&& whens_a.len() == whens_b.len()
            &&& branches_relabel(whens_a, whens_b, whens_a.len(), locals, f)
        },
        (
            BoundExprView::ListLiteral { items: items_a, .. },
            BoundExprView::ListLiteral { items: items_b, .. },
        ) => {
            &&& items_a.len() == items_b.len()
            &&& all_relabel(items_a, items_b, items_a.len(), locals, f)
        },
        (
            BoundExprView::ListComprehension { variable: variable_a, list: list_a, where_clause: where_clause_a, map: map_a, .. },
            BoundExprView::ListComprehension { variable: variable_b, list: list_b, where_clause: where_clause_b, map: map_b, .. },
        ) => {
            let inside = locals.push(variable_a.0);
            &&& variable_b.0 == f(variable_a.0)
            &&& relabels(*list_a, *list_b, locals, f)
            &&& (where_clause_a is Some) == (where_clause_b is Some)
            &&& where_clause_a is Some ==> relabels(
                *where_clause_a->0,
                *where_clause_b->0,
                inside,
                f,
            )
            &&& (map_a is Some) == (map_b is Some)
            &&& map_a is Some ==> relabels(*map_a->0, *map_b->0, inside, f)
        },
        (
            BoundExprView::Quantifier { kind: kind_a, variable: variable_a, list: list_a, predicate: predicate_a, .. },
            BoundExprView::Quantifier { kind: kind_b, variable: variable_b, list: list_b, predicate: predicate_b, .. },
        ) => {
            let inside = locals.push(variable_a.0);
            &&& kind_a == kind_b
            &&& variable_b.0 == f(variable_a.0)
            &&& relabels(*list_a, *list_b, locals, f)
            &&& relabels(*predicate_a, *predicate_b, inside, f)
        },
        (
            BoundExprView::Reduce { accumulator: accumulator_a, variable: variable_a, init: init_a, list: list_a, expr: expr_a, .. },
            BoundExprView::Reduce { accumulator: accumulator_b, variable: variable_b, init: init_b, list: list_b, expr: expr_b, .. },
        ) => {
            let inside = locals.push(accumulator_a.0).push(variable_a.0);
            &&& accumulator_b.0 == f(accumulator_a.0)
            &&& variable_b.0 == f(variable_a.0)
            &&& relabels(*init_a, *init_b, locals, f)
            &&& relabels(*list_a, *list_b, locals, f)
            &&& relabels(*expr_a, *expr_b, inside, f)
        },
        (
            BoundExprView::MapLiteral { entries: entries_a, .. },
            BoundExprView::MapLiteral { entries: entries_b, .. },
        ) => {
            &&& entries_a.len() == entries_b.len()
            &&& entries_relabel(entries_a, entries_b, entries_a.len(), locals, f)
        },
        (
            BoundExprView::Index { base: base_a, index: index_a, .. },
            BoundExprView::Index { base: base_b, index: index_b, .. },
        ) => {
            &&& relabels(*base_a, *base_b, locals, f)
            &&& relabels(*index_a, *index_b, locals, f)
        },
        (
            BoundExprView::Slice { base: base_a, from: from_a, to: to_a, .. },
            BoundExprView::Slice { base: base_b, from: from_b, to: to_b, .. },
        ) => {
            &&& relabels(*base_a, *base_b, locals, f)
            &&& (from_a is Some) == (from_b is Some)
            &&& from_a is Some ==> relabels(*from_a->0, *from_b->0, locals, f)
            &&& (to_a is Some) == (to_b is Some)
            &&& to_a is Some ==> relabels(*to_a->0, *to_b->0, locals, f)
        },
        _ => false,
    }
}

/// As [`relabels`], for the first `n` of two lists.
pub open spec fn all_relabel(
    a: Seq<BoundExprView>,
    b: Seq<BoundExprView>,
    n: nat,
    locals: Seq<u32>,
    f: spec_fn(u32) -> u32,
) -> bool
    decreases a, n,
{
    if n == 0 || n > a.len() || n > b.len() {
        true
    } else {
        all_relabel(a, b, (n - 1) as nat, locals, f) && relabels(a[n - 1], b[n - 1], locals, f)
    }
}

/// As [`relabels`], for the first `n` of two lists.
pub open spec fn branches_relabel(
    a: Seq<(BoundExprView, BoundExprView)>,
    b: Seq<(BoundExprView, BoundExprView)>,
    n: nat,
    locals: Seq<u32>,
    f: spec_fn(u32) -> u32,
) -> bool
    decreases a, n,
{
    if n == 0 || n > a.len() || n > b.len() {
        true
    } else {
        branches_relabel(a, b, (n - 1) as nat, locals, f) && relabels(
            a[n - 1].0,
            b[n - 1].0,
            locals,
            f,
        ) && relabels(a[n - 1].1, b[n - 1].1, locals, f)
    }
}

/// As [`relabels`], for the first `n` of two lists.
pub open spec fn entries_relabel(
    a: Seq<(Seq<char>, BoundExprView)>,
    b: Seq<(Seq<char>, BoundExprView)>,
    n: nat,
    locals: Seq<u32>,
    f: spec_fn(u32) -> u32,
) -> bool
    decreases a, n,
{
    if n == 0 || n > a.len() || n > b.len() {
        true
    } else {
        entries_relabel(a, b, (n - 1) as nat, locals, f) && a[n - 1].0 == b[n - 1].0 && relabels(
            a[n - 1].1,
            b[n - 1].1,
            locals,
            f,
        )
    }
}

/// Whether each of `locals` corresponds to what it is called.
pub open spec fn all_paired(
    locals: Seq<u32>,
    f: spec_fn(u32) -> u32,
    pairs: Seq<(u32, u32)>,
) -> bool {
    forall|x: u32| #[trigger] locals.contains(x) ==> likeness::paired(pairs, x, f(x))
}

proof fn lemma_paired_inside(
    locals: Seq<u32>,
    f: spec_fn(u32) -> u32,
    pairs: Seq<(u32, u32)>,
    v: u32,
)
    requires
        all_paired(locals, f, pairs),
    ensures
        all_paired(locals.push(v), f, pairs.push((v, f(v)))),
{
    let inner = pairs.push((v, f(v)));
    assert forall|x: u32| #[trigger] locals.push(v).contains(x) implies likeness::paired(
        inner,
        x,
        f(x),
    ) by {
        if x == v {
            assert(inner[pairs.len() as int] == (x, f(x)));
        } else {
            let i = locals.push(v).index_of(x);
            assert(locals[i] == x);
            assert(locals.contains(x));
            let k = pairs.index_of((x, f(x)));
            assert(inner[k] == (x, f(x)));
        }
    }
}

proof fn lemma_all_relabel(
    a: Seq<BoundExprView>,
    b: Seq<BoundExprView>,
    n: nat,
    locals: Seq<u32>,
    f: spec_fn(u32) -> u32,
    pairs: Seq<(u32, u32)>,
)
    requires
        all_relabel(a, b, n, locals, f),
        all_paired(locals, f, pairs),
        n <= a.len(),
        a.len() == b.len(),
    ensures
        likeness::all_alike(a, b, n, pairs),
    decreases a, n,
{
    if n > 0 {
        lemma_all_relabel(a, b, (n - 1) as nat, locals, f, pairs);
        renamed_locals_make_no_difference(a[n - 1], b[n - 1], locals, f, pairs);
    }
}

proof fn lemma_branches_relabel(
    a: Seq<(BoundExprView, BoundExprView)>,
    b: Seq<(BoundExprView, BoundExprView)>,
    n: nat,
    locals: Seq<u32>,
    f: spec_fn(u32) -> u32,
    pairs: Seq<(u32, u32)>,
)
    requires
        branches_relabel(a, b, n, locals, f),
        all_paired(locals, f, pairs),
        n <= a.len(),
        a.len() == b.len(),
    ensures
        likeness::branches_alike(a, b, n, pairs),
    decreases a, n,
{
    if n > 0 {
        lemma_branches_relabel(a, b, (n - 1) as nat, locals, f, pairs);
        assert(decreases_to!(a => a[n - 1]));
        renamed_locals_make_no_difference(a[n - 1].0, b[n - 1].0, locals, f, pairs);
        renamed_locals_make_no_difference(a[n - 1].1, b[n - 1].1, locals, f, pairs);
    }
}

proof fn lemma_entries_relabel(
    a: Seq<(Seq<char>, BoundExprView)>,
    b: Seq<(Seq<char>, BoundExprView)>,
    n: nat,
    locals: Seq<u32>,
    f: spec_fn(u32) -> u32,
    pairs: Seq<(u32, u32)>,
)
    requires
        entries_relabel(a, b, n, locals, f),
        all_paired(locals, f, pairs),
        n <= a.len(),
        a.len() == b.len(),
    ensures
        likeness::entries_alike(a, b, n, pairs),
    decreases a, n,
{
    if n > 0 {
        lemma_entries_relabel(a, b, (n - 1) as nat, locals, f, pairs);
        assert(decreases_to!(a => a[n - 1]));
        renamed_locals_make_no_difference(a[n - 1].1, b[n - 1].1, locals, f, pairs);
    }
}

/// Expressions that differ only in what their iteration constructs call their
/// variables, and in source ranges, are alike. With no constructs around,
/// `locals` and `pairs` are empty.
pub proof fn renamed_locals_make_no_difference(
    a: BoundExprView,
    b: BoundExprView,
    locals: Seq<u32>,
    f: spec_fn(u32) -> u32,
    pairs: Seq<(u32, u32)>,
)
    requires
        relabels(a, b, locals, f),
        all_paired(locals, f, pairs),
    ensures
        likeness::alike(a, b, pairs),
    decreases a, 0nat,
{
    match (a, b) {
        (
            BoundExprView::Property { base: base_a, .. },
            BoundExprView::Property { base: base_b, .. },
        ) => {
            renamed_locals_make_no_difference(*base_a, *base_b, locals, f, pairs);
        },
        (
            BoundExprView::Unary { operand: operand_a, .. },
            BoundExprView::Unary { operand: operand_b, .. },
        ) => {
            renamed_locals_make_no_difference(*operand_a, *operand_b, locals, f, pairs);
        },
        (
            BoundExprView::Binary { lhs: lhs_a, rhs: rhs_a, .. },
            BoundExprView::Binary { lhs: lhs_b, rhs: rhs_b, .. },
        ) => {
            renamed_locals_make_no_difference(*lhs_a, *lhs_b, locals, f, pairs);
            renamed_locals_make_no_difference(*rhs_a, *rhs_b, locals, f, pairs);
        },
        (
            BoundExprView::IsNull { operand: operand_a, .. },
            BoundExprView::IsNull { operand: operand_b, .. },
        ) => {
            renamed_locals_make_no_difference(*operand_a, *operand_b, locals, f, pairs);
        },
        (
            BoundExprView::Function { args: args_a, .. },
            BoundExprView::Function { args: args_b, .. },
        ) => {
            lemma_all_relabel(args_a, args_b, args_a.len(), locals, f, pairs);
        },
        (
            BoundExprView::Aggregate { arg: arg_a, .. },
            BoundExprView::Aggregate { arg: arg_b, .. },
        ) => {
            if arg_a is Some {
                renamed_locals_make_no_difference(*arg_a->0, *arg_b->0, locals, f, pairs);
            }
        },
        (
            BoundExprView::Case { operand: operand_a, else_expr: else_expr_a, whens: whens_a, .. },
            BoundExprView::Case { operand: operand_b, else_expr: else_expr_b, whens: whens_b, .. },
        ) => {
            if operand_a is Some {
                renamed_locals_make_no_difference(*operand_a->0, *operand_b->0, locals, f, pairs);
            }
            if else_expr_a is Some {
                renamed_locals_make_no_difference(
                    *else_expr_a->0,
                    *else_expr_b->0,
                    locals,
                    f,
                    pairs,
                );
            }
            lemma_branches_relabel(whens_a, whens_b, whens_a.len(), locals, f, pairs);
        },
        (
            BoundExprView::ListLiteral { items: items_a, .. },
            BoundExprView::ListLiteral { items: items_b, .. },
        ) => {
            lemma_all_relabel(items_a, items_b, items_a.len(), locals, f, pairs);
        },
        (
            BoundExprView::ListComprehension { list: list_a, where_clause: where_clause_a, map: map_a, variable: variable_a, .. },
            BoundExprView::ListComprehension { list: list_b, where_clause: where_clause_b, map: map_b, variable: variable_b, .. },
        ) => {
            lemma_paired_inside(locals, f, pairs, variable_a.0);
            let inside = locals.push(variable_a.0);
            let inner = pairs.push((variable_a.0, variable_b.0));
            renamed_locals_make_no_difference(*list_a, *list_b, locals, f, pairs);
            if where_clause_a is Some {
                renamed_locals_make_no_difference(
                    *where_clause_a->0,
                    *where_clause_b->0,
                    inside,
                    f,
                    inner,
                );
            }
            if map_a is Some {
                renamed_locals_make_no_difference(*map_a->0, *map_b->0, inside, f, inner);
            }
        },
        (
            BoundExprView::Quantifier { list: list_a, predicate: predicate_a, variable: variable_a, .. },
            BoundExprView::Quantifier { list: list_b, predicate: predicate_b, variable: variable_b, .. },
        ) => {
            lemma_paired_inside(locals, f, pairs, variable_a.0);
            let inside = locals.push(variable_a.0);
            let inner = pairs.push((variable_a.0, variable_b.0));
            renamed_locals_make_no_difference(*list_a, *list_b, locals, f, pairs);
            renamed_locals_make_no_difference(*predicate_a, *predicate_b, inside, f, inner);
        },
        (
            BoundExprView::Reduce { init: init_a, list: list_a, expr: expr_a, accumulator: accumulator_a, variable: variable_a, .. },
            BoundExprView::Reduce { init: init_b, list: list_b, expr: expr_b, accumulator: accumulator_b, variable: variable_b, .. },
        ) => {
            lemma_paired_inside(locals, f, pairs, accumulator_a.0);
            lemma_paired_inside(
                locals.push(accumulator_a.0),
                f,
                pairs.push((accumulator_a.0, accumulator_b.0)),
                variable_a.0,
            );
            let inside = locals.push(accumulator_a.0).push(variable_a.0);
            let inner = pairs.push(
                (accumulator_a.0, accumulator_b.0),
            ).push((variable_a.0, variable_b.0));
            renamed_locals_make_no_difference(*init_a, *init_b, locals, f, pairs);
            renamed_locals_make_no_difference(*list_a, *list_b, locals, f, pairs);
            renamed_locals_make_no_difference(*expr_a, *expr_b, inside, f, inner);
        },
        (
            BoundExprView::MapLiteral { entries: entries_a, .. },
            BoundExprView::MapLiteral { entries: entries_b, .. },
        ) => {
            lemma_entries_relabel(entries_a, entries_b, entries_a.len(), locals, f, pairs);
        },
        (
            BoundExprView::Index { base: base_a, index: index_a, .. },
            BoundExprView::Index { base: base_b, index: index_b, .. },
        ) => {
            renamed_locals_make_no_difference(*base_a, *base_b, locals, f, pairs);
            renamed_locals_make_no_difference(*index_a, *index_b, locals, f, pairs);
        },
        (
            BoundExprView::Slice { base: base_a, from: from_a, to: to_a, .. },
            BoundExprView::Slice { base: base_b, from: from_b, to: to_b, .. },
        ) => {
            renamed_locals_make_no_difference(*base_a, *base_b, locals, f, pairs);
            if from_a is Some {
                renamed_locals_make_no_difference(*from_a->0, *from_b->0, locals, f, pairs);
            }
            if to_a is Some {
                renamed_locals_make_no_difference(*to_a->0, *to_b->0, locals, f, pairs);
            }
        },
        (BoundExprView::Variable { id: x, .. }, BoundExprView::Variable { id: y, .. }) => {
            assert(locals.contains(x.0) || x == y);
        },
        _ => {},
    }
}

} // verus!
