//! Taking queries apart without recursion.
//!
//! While it is parsed an expression can be arbitrarily deep in the dimension of
//! operator chains. A query that is refused must still be torn down, so whatever
//! was parsed of it is moved out level by level: no shape of query can exhaust
//! the stack.

use vstd::prelude::*;

use crate::ast::{
    self, Clause, ClauseView, Expr, ExprView, Literal, LiteralView, NodePattern, NodePatternView,
    PathPattern, PathPatternView, Projection, ProjectionItem, Query, RelPattern, RelPatternView,
    SetItem, SortItem,
};
use crate::nesting;
use crate::span::{self, Span};

verus! {

/// `first`, and then `more` from its end to its start.
#[verifier::opaque]
pub open spec fn with_reversed(first: Seq<ExprView>, more: Seq<ExprView>) -> Seq<ExprView> {
    first + more.reverse()
}

proof fn lemma_nothing(first: Seq<ExprView>)
    ensures
        with_reversed(first, seq![]) == first,
{
    reveal(with_reversed);
    assert(with_reversed(first, seq![]) =~= first);
}

proof fn lemma_two(first: Seq<ExprView>, a: Seq<ExprView>, b: Seq<ExprView>)
    ensures
        with_reversed(with_reversed(first, b), a) == with_reversed(first, a + b),
{
    reveal(with_reversed);
    assert(with_reversed(with_reversed(first, b), a) =~= with_reversed(first, a + b));
}

proof fn lemma_three(first: Seq<ExprView>, a: Seq<ExprView>, b: Seq<ExprView>, c: Seq<ExprView>)
    ensures
        with_reversed(with_reversed(with_reversed(first, c), b), a) == with_reversed(
            first,
            a + b + c,
        ),
{
    lemma_two(with_reversed(first, c), a, b);
    lemma_two(first, a + b, c);
}

fn take_one(e: Expr, out: &mut Vec<Expr>)
    ensures
        ast::exprs_view(final(out)@) == with_reversed(ast::exprs_view(old(out)@), seq![e@]),
{
    reveal(with_reversed);
    out.push(e);
    assert(ast::exprs_view(out@) =~= with_reversed(ast::exprs_view(old(out)@), seq![e@]));
}

fn take_boxed(o: Option<Box<Expr>>, out: &mut Vec<Expr>)
    ensures
        ast::exprs_view(final(out)@) == with_reversed(
            ast::exprs_view(old(out)@),
            nesting::boxed(
                match o {
                    Some(e) => Some(Box::new(e@)),
                    None => None,
                },
            ),
        ),
{
    reveal(with_reversed);
    match o {
        Some(e) => {
            out.push(*e);
            assert(ast::exprs_view(out@) =~= with_reversed(ast::exprs_view(old(out)@), seq![e@]));
        },
        None => {
            assert(ast::exprs_view(out@) =~= with_reversed(ast::exprs_view(old(out)@), seq![]));
        },
    }
}

fn take_optional(o: Option<Expr>, out: &mut Vec<Expr>)
    ensures
        ast::exprs_view(final(out)@) == with_reversed(
            ast::exprs_view(old(out)@),
            nesting::optional(
                match o {
                    Some(e) => Some(e@),
                    None => None,
                },
            ),
        ),
{
    reveal(with_reversed);
    match o {
        Some(e) => {
            take_one(e, out);
        },
        None => {
            assert(ast::exprs_view(out@) =~= with_reversed(ast::exprs_view(old(out)@), seq![]));
        },
    }
}

fn take_all(items: Vec<Expr>, out: &mut Vec<Expr>)
    ensures
        ast::exprs_view(final(out)@) == with_reversed(
            ast::exprs_view(old(out)@),
            ast::exprs_view(items@),
        ),
{
    reveal(with_reversed);
    let ghost all = ast::exprs_view(items@);
    let ghost before = ast::exprs_view(out@);
    let mut rest = items;
    assert(ast::exprs_view(out@) =~= before);
    while rest.len() > 0
        invariant
            with_reversed(
                ast::exprs_view(out@),
                ast::exprs_view(rest@),
            ) == with_reversed(before, all),
        decreases rest.len(),
    {
        reveal(with_reversed);
        let ghost was = rest@;
        let ghost had = out@;
        let e = rest.pop().unwrap();
        out.push(e);
        assert(ast::exprs_view(was) =~= ast::exprs_view(rest@).push(e@));
        assert(ast::exprs_view(out@) =~= ast::exprs_view(had).push(e@));
        assert(with_reversed(ast::exprs_view(out@), ast::exprs_view(rest@)) =~= with_reversed(
            ast::exprs_view(had),
            ast::exprs_view(was),
        ));
    }
    assert(with_reversed(ast::exprs_view(out@), ast::exprs_view(rest@)) =~= ast::exprs_view(out@));
}

fn take_branches(whens: Vec<(Expr, Expr)>, out: &mut Vec<Expr>)
    ensures
        ast::exprs_view(final(out)@) == with_reversed(
            ast::exprs_view(old(out)@),
            nesting::branches(ast::expr_exprs_view(whens@)),
        ),
{
    reveal(with_reversed);
    let ghost all = nesting::branches(ast::expr_exprs_view(whens@));
    let ghost before = ast::exprs_view(out@);
    let mut rest = whens;
    while rest.len() > 0
        invariant
            with_reversed(ast::exprs_view(out@), nesting::branches(ast::expr_exprs_view(rest@))) == with_reversed(
                before,
                all,
            ),
        decreases rest.len(),
    {
        reveal(with_reversed);
        let ghost was = rest@;
        let ghost had = out@;
        let (condition, value) = rest.pop().unwrap();
        out.push(value);
        out.push(condition);
        assert(ast::expr_exprs_view(was).drop_last() =~= ast::expr_exprs_view(rest@));
        assert(ast::expr_exprs_view(was).last() == (condition@, value@));
        assert(ast::exprs_view(out@) =~= ast::exprs_view(had).push(value@).push(condition@));
        assert(with_reversed(ast::exprs_view(out@), nesting::branches(ast::expr_exprs_view(rest@))) =~= with_reversed(
            ast::exprs_view(had),
            nesting::branches(ast::expr_exprs_view(was)),
        ));
    }
    assert(with_reversed(ast::exprs_view(out@), seq![]) =~= ast::exprs_view(out@));
}

fn take_entries(entries: Vec<(String, Expr)>, out: &mut Vec<Expr>)
    ensures
        ast::exprs_view(final(out)@) == with_reversed(
            ast::exprs_view(old(out)@),
            nesting::entry_values(ast::string_exprs_view(entries@)),
        ),
{
    reveal(with_reversed);
    let ghost all = nesting::entry_values(ast::string_exprs_view(entries@));
    let ghost before = ast::exprs_view(out@);
    let mut rest = entries;
    while rest.len() > 0
        invariant
            with_reversed(
                ast::exprs_view(out@),
                nesting::entry_values(ast::string_exprs_view(rest@)),
            )
                == with_reversed(before, all),
        decreases rest.len(),
    {
        reveal(with_reversed);
        let ghost was = rest@;
        let ghost had = out@;
        let (name, e) = rest.pop().unwrap();
        out.push(e);
        assert(nesting::entry_values(ast::string_exprs_view(was)) =~= nesting::entry_values(
            ast::string_exprs_view(rest@),
        ).push(e@));
        assert(ast::exprs_view(out@) =~= ast::exprs_view(had).push(e@));
        assert(with_reversed(ast::exprs_view(out@), nesting::entry_values(ast::string_exprs_view(rest@)))
            =~= with_reversed(ast::exprs_view(had), nesting::entry_values(ast::string_exprs_view(was))));
    }
    assert(with_reversed(ast::exprs_view(out@), nesting::entry_values(ast::string_exprs_view(rest@))) =~= ast::exprs_view(
        out@,
    ));
}

/// A node pattern without its property map.
pub open spec fn bare_node(p: NodePatternView) -> NodePatternView {
    NodePatternView { properties: None, ..p }
}

/// A relationship pattern without its property map.
pub open spec fn bare_rel(p: RelPatternView) -> RelPatternView {
    RelPatternView { properties: None, ..p }
}

/// A path pattern without its property maps.
pub open spec fn bare_pattern(p: PathPatternView) -> PathPatternView {
    PathPatternView {
        start: bare_node(p.start),
        steps: Seq::new(p.steps.len(), |i: int| (bare_rel(p.steps[i].0), bare_node(p.steps[i].1))),
        ..p
    }
}

fn take_node(p: NodePattern, out: &mut Vec<Expr>) -> (r: NodePattern)
    ensures
        ast::exprs_view(final(out)@) == with_reversed(
            ast::exprs_view(old(out)@),
            nesting::optional(p@.properties),
        ),
        r@ == bare_node(p@),
{
    proof {
        p.lemma_view();
    }
    take_optional(p.properties, out);
    let r = NodePattern { variable: p.variable, labels: p.labels, properties: None, span: p.span };
    proof {
        r.lemma_view();
    }
    r
}

fn take_rel(p: RelPattern, out: &mut Vec<Expr>) -> (r: RelPattern)
    ensures
        ast::exprs_view(final(out)@) == with_reversed(
            ast::exprs_view(old(out)@),
            nesting::optional(p@.properties),
        ),
        r@ == bare_rel(p@),
{
    proof {
        p.lemma_view();
    }
    take_optional(p.properties, out);
    let r = RelPattern {
        variable: p.variable,
        types: p.types,
        direction: p.direction,
        var_length: p.var_length,
        properties: None,
        span: p.span,
    };
    proof {
        r.lemma_view();
    }
    r
}

fn take_pattern(pattern: PathPattern, out: &mut Vec<Expr>) -> (r: PathPattern)
    ensures
        ast::exprs_view(final(out)@) == with_reversed(
            ast::exprs_view(old(out)@),
            nesting::pattern_exprs(pattern@),
        ),
        r@ == bare_pattern(pattern@),
{
    reveal(with_reversed);
    proof {
        pattern.lemma_view();
    }
    let ghost first = nesting::optional(pattern@.start.properties);
    let ghost taken = pattern@.steps;
    let ghost all = nesting::step_exprs(taken);
    let ghost before = ast::exprs_view(out@);
    let mut rest = pattern.steps;
    let mut bare: Vec<(RelPattern, NodePattern)> = Vec::new();
    while rest.len() > 0
        invariant
            with_reversed(
                ast::exprs_view(out@),
                nesting::step_exprs(ast::rel_pattern_node_patterns_view(rest@)),
            )
                == with_reversed(before, all),
            rest@.len() + bare@.len() == taken.len(),
            forall|i: int|
                0 <= i < rest@.len() ==> taken[i] == ((#[trigger] rest@[i]).0@, rest@[i].1@),
            forall|i: int|
                0 <= i < bare@.len() ==> (#[trigger] bare@[i]).0@ == bare_rel(
                    taken[taken.len() - 1 - i].0,
                ) && bare@[i].1@ == bare_node(taken[taken.len() - 1 - i].1),
        decreases rest.len(),
    {
        reveal(with_reversed);
        let ghost was = rest@;
        let ghost had = ast::exprs_view(out@);
        let (rel, node) = rest.pop().unwrap();
        let ghost r = rel@;
        let ghost n = node@;
        assert(taken[was.len() - 1] == (r, n));
        let node = take_node(node, out);
        let rel = take_rel(rel, out);
        bare.push((rel, node));
        let ghost steps = ast::rel_pattern_node_patterns_view(was);
        assert(steps.drop_last() =~= ast::rel_pattern_node_patterns_view(rest@));
        assert(steps.last() == (r, n));
        assert(with_reversed(ast::exprs_view(out@), nesting::step_exprs(steps.drop_last())) =~= with_reversed(
            had,
            nesting::step_exprs(steps),
        ));
    }
    assert(with_reversed(ast::exprs_view(out@), seq![]) =~= ast::exprs_view(out@));
    let start = take_node(pattern.start, out);
    assert(ast::exprs_view(out@) =~= with_reversed(before, first + all));
    let ghost backwards = bare@;
    let mut steps: Vec<(RelPattern, NodePattern)> = Vec::new();
    while bare.len() > 0
        invariant
            steps@.len() + bare@.len() == backwards.len(),
            forall|i: int| 0 <= i < bare@.len() ==> #[trigger] bare@[i] == backwards[i],
            forall|i: int|
                0 <= i < steps@.len() ==> #[trigger] steps@[i] == backwards[backwards.len() - 1 - i],
        decreases bare.len(),
    {
        let ghost was = bare@;
        let step = bare.pop().unwrap();
        assert(step == was[was.len() - 1]);
        steps.push(step);
    }
    let r = PathPattern { variable: pattern.variable, start, steps, span: pattern.span };
    proof {
        r.lemma_view();
        assert(r@.steps =~= bare_pattern(pattern@).steps);
    }
    r
}

fn take_patterns(patterns: Vec<PathPattern>, out: &mut Vec<Expr>)
    ensures
        ast::exprs_view(final(out)@) == with_reversed(
            ast::exprs_view(old(out)@),
            nesting::all_pattern_exprs(ast::path_patterns_view(patterns@)),
        ),
{
    reveal(with_reversed);
    let ghost all = nesting::all_pattern_exprs(ast::path_patterns_view(patterns@));
    let ghost before = ast::exprs_view(out@);
    let mut rest = patterns;
    while rest.len() > 0
        invariant
            with_reversed(
                ast::exprs_view(out@),
                nesting::all_pattern_exprs(ast::path_patterns_view(rest@)),
            )
                == with_reversed(before, all),
        decreases rest.len(),
    {
        reveal(with_reversed);
        let ghost was = ast::path_patterns_view(rest@);
        let ghost had = ast::exprs_view(out@);
        let pattern = rest.pop().unwrap();
        let _ = take_pattern(pattern, out);
        assert(was.drop_last() =~= ast::path_patterns_view(rest@));
        assert(with_reversed(ast::exprs_view(out@), nesting::all_pattern_exprs(was.drop_last()))
            =~= with_reversed(had, nesting::all_pattern_exprs(was)));
    }
    assert(with_reversed(ast::exprs_view(out@), seq![]) =~= ast::exprs_view(out@));
}

fn take_set_items(items: Vec<SetItem>, out: &mut Vec<Expr>)
    ensures
        ast::exprs_view(final(out)@) == with_reversed(
            ast::exprs_view(old(out)@),
            nesting::set_item_exprs(ast::set_items_view(items@)),
        ),
{
    reveal(with_reversed);
    let ghost all = nesting::set_item_exprs(ast::set_items_view(items@));
    let ghost before = ast::exprs_view(out@);
    let mut rest = items;
    while rest.len() > 0
        invariant
            with_reversed(
                ast::exprs_view(out@),
                nesting::set_item_exprs(ast::set_items_view(rest@)),
            )
                == with_reversed(before, all),
        decreases rest.len(),
    {
        reveal(with_reversed);
        let ghost was = ast::set_items_view(rest@);
        let ghost had = ast::exprs_view(out@);
        match rest.pop().unwrap() {
            SetItem::Property { value, .. } => take_one(value, out),
            SetItem::Replace { value, .. } => take_one(value, out),
            SetItem::Merge { value, .. } => take_one(value, out),
            SetItem::AddLabels { .. } => {},
        }
        assert(was.drop_last() =~= ast::set_items_view(rest@));
        assert(with_reversed(ast::exprs_view(out@), nesting::set_item_exprs(was.drop_last())) =~= with_reversed(
            had,
            nesting::set_item_exprs(was),
        ));
    }
    assert(with_reversed(ast::exprs_view(out@), seq![]) =~= ast::exprs_view(out@));
}

fn take_items(items: Vec<ProjectionItem>, out: &mut Vec<Expr>)
    ensures
        ast::exprs_view(final(out)@) == with_reversed(
            ast::exprs_view(old(out)@),
            nesting::item_exprs(ast::projection_items_view(items@)),
        ),
{
    reveal(with_reversed);
    let ghost all = nesting::item_exprs(ast::projection_items_view(items@));
    let ghost before = ast::exprs_view(out@);
    let mut rest = items;
    while rest.len() > 0
        invariant
            with_reversed(
                ast::exprs_view(out@),
                nesting::item_exprs(ast::projection_items_view(rest@)),
            )
                == with_reversed(before, all),
        decreases rest.len(),
    {
        reveal(with_reversed);
        let ghost was = ast::projection_items_view(rest@);
        let ghost had = ast::exprs_view(out@);
        if let ProjectionItem::Expr { expr, .. } = rest.pop().unwrap() {
            take_one(expr, out);
        }
        assert(was.drop_last() =~= ast::projection_items_view(rest@));
        assert(with_reversed(ast::exprs_view(out@), nesting::item_exprs(was.drop_last())) =~= with_reversed(
            had,
            nesting::item_exprs(was),
        ));
    }
    assert(with_reversed(ast::exprs_view(out@), seq![]) =~= ast::exprs_view(out@));
}

fn take_sort_items(items: Vec<SortItem>, out: &mut Vec<Expr>)
    ensures
        ast::exprs_view(final(out)@) == with_reversed(
            ast::exprs_view(old(out)@),
            nesting::sort_exprs(ast::sort_items_view(items@)),
        ),
{
    reveal(with_reversed);
    let ghost all = nesting::sort_exprs(ast::sort_items_view(items@));
    let ghost before = ast::exprs_view(out@);
    let mut rest = items;
    while rest.len() > 0
        invariant
            with_reversed(ast::exprs_view(out@), nesting::sort_exprs(ast::sort_items_view(rest@))) == with_reversed(
                before,
                all,
            ),
        decreases rest.len(),
    {
        reveal(with_reversed);
        let ghost was = nesting::sort_exprs(ast::sort_items_view(rest@));
        let ghost had = ast::exprs_view(out@);
        let item = rest.pop().unwrap();
        let ghost e = item.expr@;
        take_one(item.expr, out);
        assert(was =~= nesting::sort_exprs(ast::sort_items_view(rest@)).push(e));
        assert(with_reversed(ast::exprs_view(out@), nesting::sort_exprs(ast::sort_items_view(rest@)))
            =~= with_reversed(had, was));
    }
    assert(with_reversed(ast::exprs_view(out@), nesting::sort_exprs(ast::sort_items_view(rest@))) =~= ast::exprs_view(
        out@,
    ));
}

fn take_projection(p: Projection, out: &mut Vec<Expr>)
    ensures
        ast::exprs_view(final(out)@) == with_reversed(
            ast::exprs_view(old(out)@),
            nesting::projection_exprs(p@),
        ),
{
    let ghost before = ast::exprs_view(out@);
    take_optional(p.where_clause, out);
    take_optional(p.limit, out);
    take_optional(p.skip, out);
    take_sort_items(p.order_by, out);
    take_items(p.items, out);
    proof {
        let a = nesting::item_exprs(p@.items);
        let b = nesting::sort_exprs(p@.order_by);
        let c = nesting::optional(p@.skip);
        let d = nesting::optional(p@.limit);
        let e = nesting::optional(p@.where_clause);
        lemma_two(before, d, e);
        lemma_two(before, c, d + e);
        lemma_two(before, b, c + (d + e));
        lemma_two(before, a, b + (c + (d + e)));
        assert(a + b + c + d + e =~= a + (b + (c + (d + e))));
    }
}

fn take_clause(clause: Clause, out: &mut Vec<Expr>)
    ensures
        ast::exprs_view(final(out)@) == with_reversed(
            ast::exprs_view(old(out)@),
            nesting::clause_exprs(clause@),
        ),
{
    let ghost before = ast::exprs_view(out@);
    match clause {
        Clause::Match(m) => {
            let ghost v = clause@->Match_0;
            take_optional(m.where_clause, out);
            take_patterns(m.patterns, out);
            proof {
                lemma_two(
                    before,
                    nesting::all_pattern_exprs(v.patterns),
                    nesting::optional(v.where_clause),
                );
            }
        },
        Clause::Create(c) => take_patterns(c.patterns, out),
        Clause::SetItems(c) => take_set_items(c.items, out),
        Clause::Remove(_) => {
            proof {
                lemma_nothing(before);
            }
        },
        Clause::Delete(c) => take_all(c.targets, out),
        Clause::Merge(c) => {
            take_set_items(c.on_match, out);
            take_set_items(c.on_create, out);
            let _ = take_pattern(c.pattern, out);
            proof {
                let v = clause@->Merge_0;
                lemma_three(
                    before,
                    nesting::pattern_exprs(v.pattern),
                    nesting::set_item_exprs(v.on_create),
                    nesting::set_item_exprs(v.on_match),
                );
            }
        },
        Clause::Unwind(u) => take_one(u.expr, out),
        Clause::With(p) => take_projection(p, out),
        Clause::Return(p) => take_projection(p, out),
        Clause::Call(c) => {
            take_optional(c.where_clause, out);
            take_all(c.args, out);
            proof {
                let v = clause@->Call_0;
                lemma_two(before, v.args, nesting::optional(v.where_clause));
            }
        },
    }
}

/// What stands where a child expression was taken.
pub open spec fn placeholder() -> ExprView {
    ExprView::Literal { value: LiteralView::Null, span: span::no_span() }
}

/// What stands where an optional child expression was taken.
pub open spec fn hollow(o: Option<Box<ExprView>>) -> Option<Box<ExprView>> {
    match o {
        Some(_) => Some(Box::new(placeholder())),
        None => None,
    }
}

/// The expression without its direct children: placeholders stand for single
/// ones, lists of them are empty, and patterns have no property maps.
pub open spec fn emptied(e: ExprView) -> ExprView {
    let gone = Box::new(placeholder());
    match e {
        ExprView::Literal { .. } => e,
        ExprView::Parameter { .. } => e,
        ExprView::Variable { .. } => e,
        ExprView::Property { base, key, span } => ExprView::Property { base: gone, key, span },
        ExprView::Unary { op, operand, span } => ExprView::Unary { op, operand: gone, span },
        ExprView::Binary { op, lhs, rhs, span } => ExprView::Binary {
            op,
            lhs: gone,
            rhs: gone,
            span,
        },
        ExprView::IsNull { operand, negated, span } => ExprView::IsNull {
            operand: gone,
            negated,
            span,
        },
        ExprView::FunctionCall { name, distinct, args, star, span } => ExprView::FunctionCall {
            name,
            distinct,
            args: seq![],
            star,
            span,
        },
        ExprView::Case { operand, whens, else_expr, span } => ExprView::Case {
            operand: hollow(operand),
            whens: seq![],
            else_expr: hollow(else_expr),
            span,
        },
        ExprView::ListLiteral { items, span } => ExprView::ListLiteral { items: seq![], span },
        ExprView::ListComprehension { variable, list, where_clause, map, span } => {
            ExprView::ListComprehension {
                variable,
                list: gone,
                where_clause: hollow(where_clause),
                map: hollow(map),
                span,
            }
        },
        ExprView::Quantifier { kind, variable, list, predicate, span } => ExprView::Quantifier {
            kind,
            variable,
            list: gone,
            predicate: gone,
            span,
        },
        ExprView::Reduce { accumulator, init, variable, list, expr, span } => ExprView::Reduce {
            accumulator,
            init: gone,
            variable,
            list: gone,
            expr: gone,
            span,
        },
        ExprView::MapLiteral { entries, span } => ExprView::MapLiteral { entries: seq![], span },
        ExprView::Index { base, index, span } => ExprView::Index { base: gone, index: gone, span },
        ExprView::Slice { base, from, to, span } => ExprView::Slice {
            base: gone,
            from: hollow(from),
            to: hollow(to),
            span,
        },
        ExprView::PatternPredicate { pattern, span } => ExprView::PatternPredicate {
            pattern: Box::new(bare_pattern(*pattern)),
            span,
        },
    }
}

proof fn lemma_no_steps(steps: Seq<(RelPatternView, NodePatternView)>)
    requires
        forall|i: int|
            0 <= i < steps.len() ==> (#[trigger] steps[i]).0.properties is None
                && steps[i].1.properties is None,
    ensures
        nesting::step_exprs(steps) =~= seq![],
    decreases steps.len(),
{
    if steps.len() > 0 {
        lemma_no_steps(steps.drop_last());
        assert(steps.last() == steps[steps.len() - 1]);
    }
}

/// An expression without its children stands where it stood, and has nothing
/// but null literals below it.
pub proof fn emptied_expressions_are_shallow(e: ExprView)
    ensures
        emptied(e).place() == e.place(),
        forall|i: int|
            0 <= i < nesting::children(emptied(e)).len() ==> #[trigger] nesting::children(
                emptied(e),
            )[i] == placeholder(),
{
    match e {
        ExprView::PatternPredicate { pattern, span } => {
            lemma_no_steps(bare_pattern(*pattern).steps);
            assert(nesting::children(emptied(e)).len() == 0);
        },
        ExprView::Case { operand, whens, else_expr, span } => {
            assert(nesting::branches(Seq::<(ExprView, ExprView)>::empty()) =~= seq![]);
        },
        ExprView::MapLiteral { entries, span } => {
            assert(nesting::children(emptied(e)).len() == 0);
        },
        _ => {},
    }
}

fn null_literal() -> (r: Expr)
    ensures
        r@ == placeholder(),
{
    Expr::Literal { value: Literal::Null, span: Span { start: 0, end: 0 } }
}

fn hollowed(o: &Option<Box<Expr>>) -> (r: Option<Box<Expr>>)
    ensures
        (match r {
            Some(e) => Some(Box::new(e@)),
            None => None,
        }) == hollow(
            match *o {
                Some(e) => Some(Box::new(e@)),
                None => None,
            },
        ),
{
    match o {
        Some(_) => Some(Box::new(null_literal())),
        None => None,
    }
}

impl Expr {
    /// Move every direct child expression out of `self`, leaving cheap
    /// placeholders behind.
    pub fn take_children(&mut self, out: &mut Vec<Expr>)
        ensures
            ast::exprs_view(final(out)@) == ast::exprs_view(old(out)@) + nesting::children(
                old(self)@,
            ),
            final(self)@ == emptied(old(self)@),
            final(self)@.place() == old(self)@.place(),
            forall|i: int|
                0 <= i < nesting::children(final(self)@).len() ==> #[trigger] nesting::children(
                    final(self)@,
                )[i] == placeholder(),
    {
        let ghost kids = nesting::children(self@);
        let ghost before = ast::exprs_view(out@);
        proof {
            emptied_expressions_are_shallow(self@);
        }
        let mut whole = null_literal();
        core::mem::swap(self, &mut whole);
        let mut taken: Vec<Expr> = Vec::new();
        assert(ast::exprs_view(taken@) =~= seq![]);
        let shell = whole.part(&mut taken);
        *self = shell;
        proof {
            reveal(with_reversed);
            assert(ast::exprs_view(taken@) =~= kids.reverse());
            assert(ast::exprs_view(out@) =~= before + kids.take(0));
        }
        while taken.len() > 0
            invariant
                taken@.len() <= kids.len(),
                ast::exprs_view(taken@) == kids.reverse().take(taken@.len() as int),
                ast::exprs_view(out@) == before + kids.take(kids.len() - taken@.len()),
            decreases taken.len(),
        {
            let ghost was = taken@;
            let ghost had = ast::exprs_view(out@);
            let e = taken.pop().unwrap();
            let ghost ev = e@;
            out.push(e);
            proof {
                assert(ast::exprs_view(out@) =~= had.push(ev));
                assert(
                    kids.take(kids.len() - taken@.len()) =~= kids.take(
                        kids.len() - was.len(),
                    ).push(kids[kids.len() - was.len()])
                );
                assert(ast::exprs_view(was)[was.len() - 1] == ev);
                assert(ev == kids[kids.len() - was.len()]);
                assert(ast::exprs_view(taken@) =~= kids.reverse().take(taken@.len() as int));
                assert(ast::exprs_view(out@) =~= before + kids.take(kids.len() - taken@.len()));
            }
        }
        assert(kids.take(kids.len() as int) =~= kids);
    }

    /// Move every direct child expression out, from the last to the first, and
    /// keep what is left.
    fn part(self, out: &mut Vec<Expr>) -> (r: Expr)
        ensures
            r@ == emptied(self@),
            ast::exprs_view(final(out)@) == with_reversed(
                ast::exprs_view(old(out)@),
                nesting::children(self@),
            ),
    {
        let ghost before = ast::exprs_view(out@);
        match self {
            Expr::Literal { value, span } => {
                proof {
                    lemma_nothing(before);
                }
                Expr::Literal { value, span }
            },
            Expr::Parameter { name, span } => {
                proof {
                    lemma_nothing(before);
                }
                Expr::Parameter { name, span }
            },
            Expr::Variable { name, span } => {
                proof {
                    lemma_nothing(before);
                }
                Expr::Variable { name, span }
            },
            Expr::Property { base, key, span } => {
                take_one(*base, out);
                Expr::Property { base: Box::new(null_literal()), key, span }
            },
            Expr::Unary { op, operand, span } => {
                take_one(*operand, out);
                Expr::Unary { op, operand: Box::new(null_literal()), span }
            },
            Expr::Binary { op, lhs, rhs, span } => {
                take_one(*rhs, out);
                take_one(*lhs, out);
                proof {
                    lemma_two(before, seq![lhs@], seq![rhs@]);
                    assert(seq![lhs@] + seq![rhs@] =~= nesting::children(self@));
                }
                Expr::Binary { op, lhs: Box::new(null_literal()), rhs: Box::new(null_literal()), span }
            },
            Expr::IsNull { operand, negated, span } => {
                take_one(*operand, out);
                Expr::IsNull { operand: Box::new(null_literal()), negated, span }
            },
            Expr::FunctionCall { name, distinct, args, star, span } => {
                take_all(args, out);
                let args: Vec<Expr> = Vec::new();
                assert(ast::exprs_view(args@) =~= seq![]);
                Expr::FunctionCall { name, distinct, args, star, span }
            },
            Expr::Case { operand, whens, else_expr, span } => {
                let first = hollowed(&operand);
                let last = hollowed(&else_expr);
                take_boxed(else_expr, out);
                take_branches(whens, out);
                take_boxed(operand, out);
                proof {
                    lemma_three(
                        before,
                        nesting::boxed(self@->Case_operand),
                        nesting::branches(self@->Case_whens),
                        nesting::boxed(self@->Case_else_expr),
                    );
                }
                let whens: Vec<(Expr, Expr)> = Vec::new();
                assert(ast::expr_exprs_view(whens@) =~= seq![]);
                Expr::Case { operand: first, whens, else_expr: last, span }
            },
            Expr::ListLiteral { items, span } => {
                take_all(items, out);
                let items: Vec<Expr> = Vec::new();
                assert(ast::exprs_view(items@) =~= seq![]);
                Expr::ListLiteral { items, span }
            },
            Expr::ListComprehension { variable, list, where_clause, map, span } => {
                let filter = hollowed(&where_clause);
                let element = hollowed(&map);
                take_boxed(map, out);
                take_boxed(where_clause, out);
                take_one(*list, out);
                proof {
                    lemma_three(
                        before,
                        seq![list@],
                        nesting::boxed(self@->ListComprehension_where_clause),
                        nesting::boxed(self@->ListComprehension_map),
                    );
                }
                Expr::ListComprehension {
                    variable,
                    list: Box::new(null_literal()),
                    where_clause: filter,
                    map: element,
                    span,
                }
            },
            Expr::Quantifier { kind, variable, list, predicate, span } => {
                take_one(*predicate, out);
                take_one(*list, out);
                proof {
                    lemma_two(before, seq![list@], seq![predicate@]);
                    assert(seq![list@] + seq![predicate@] =~= nesting::children(self@));
                }
                Expr::Quantifier {
                    kind,
                    variable,
                    list: Box::new(null_literal()),
                    predicate: Box::new(null_literal()),
                    span,
                }
            },
            Expr::Reduce { accumulator, init, variable, list, expr, span } => {
                take_one(*expr, out);
                take_one(*list, out);
                take_one(*init, out);
                proof {
                    lemma_three(before, seq![init@], seq![list@], seq![expr@]);
                    assert(seq![init@] + seq![list@] + seq![expr@] =~= nesting::children(self@));
                }
                Expr::Reduce {
                    accumulator,
                    init: Box::new(null_literal()),
                    variable,
                    list: Box::new(null_literal()),
                    expr: Box::new(null_literal()),
                    span,
                }
            },
            Expr::MapLiteral { entries, span } => {
                take_entries(entries, out);
                let entries: Vec<(String, Expr)> = Vec::new();
                assert(ast::string_exprs_view(entries@) =~= seq![]);
                Expr::MapLiteral { entries, span }
            },
            Expr::Index { base, index, span } => {
                take_one(*index, out);
                take_one(*base, out);
                proof {
                    lemma_two(before, seq![base@], seq![index@]);
                    assert(seq![base@] + seq![index@] =~= nesting::children(self@));
                }
                Expr::Index { base: Box::new(null_literal()), index: Box::new(null_literal()), span }
            },
            Expr::Slice { base, from, to, span } => {
                let start = hollowed(&from);
                let end = hollowed(&to);
                take_boxed(to, out);
                take_boxed(from, out);
                take_one(*base, out);
                proof {
                    lemma_three(
                        before,
                        seq![base@],
                        nesting::boxed(self@->Slice_from),
                        nesting::boxed(self@->Slice_to),
                    );
                }
                Expr::Slice { base: Box::new(null_literal()), from: start, to: end, span }
            },
            Expr::PatternPredicate { pattern, span } => {
                let pattern = take_pattern(*pattern, out);
                Expr::PatternPredicate { pattern: Box::new(pattern), span }
            },
        }
    }
}

/// How many expressions there are in a list, subexpressions included.
spec fn total(exprs: Seq<ExprView>) -> nat
    decreases exprs.len(),
{
    if exprs.len() == 0 {
        0
    } else {
        total(exprs.drop_last()) + nesting::size(exprs.last())
    }
}

proof fn lemma_total_children(first: Seq<ExprView>, e: ExprView, n: nat)
    requires
        n <= nesting::children(e).len(),
    ensures
        total(first + nesting::children(e).take(n as int)) == total(first)
            + nesting::size_of_children(e, n),
    decreases n,
{
    let kids = nesting::children(e);
    if n == 0 {
        assert(first + kids.take(0) =~= first);
    } else {
        lemma_total_children(first, e, (n - 1) as nat);
        let all = first + kids.take(n as int);
        assert(all.drop_last() =~= first + kids.take(n - 1));
        assert(all.last() == kids[n - 1]);
    }
}

/// Drop expressions level by level.
fn dismantle(exprs: Vec<Expr>) {
    let mut stack = exprs;
    while stack.len() > 0
        decreases total(ast::exprs_view(stack@)),
    {
        let ghost was = ast::exprs_view(stack@);
        let mut e = stack.pop().unwrap();
        let ghost rest = ast::exprs_view(stack@);
        let ghost ev = e@;
        assert(was.drop_last() =~= rest);
        assert(was.last() == ev);
        e.take_children(&mut stack);
        proof {
            lemma_total_children(rest, ev, nesting::children(ev).len());
            assert(
                nesting::children(ev).take(
                    nesting::children(ev).len() as int,
                ) =~= nesting::children(ev)
            );
        }
    }
}

/// Drop expressions without recursion.
pub(crate) fn discard_all(exprs: Vec<Expr>) {
    dismantle(exprs);
}

/// Drop an optional expression without recursion.
pub(crate) fn discard_optional(value: Option<Expr>) {
    let mut exprs: Vec<Expr> = Vec::new();
    take_optional(value, &mut exprs);
    dismantle(exprs);
}

/// Drop an optional expression without recursion.
pub(crate) fn discard_boxed(value: Option<Box<Expr>>) {
    let mut exprs: Vec<Expr> = Vec::new();
    take_boxed(value, &mut exprs);
    dismantle(exprs);
}

/// Drop the branches of a `CASE` without recursion.
pub(crate) fn discard_branches(value: Vec<(Expr, Expr)>) {
    let mut exprs: Vec<Expr> = Vec::new();
    take_branches(value, &mut exprs);
    dismantle(exprs);
}

/// Drop the entries of a map without recursion.
pub(crate) fn discard_entries(value: Vec<(String, Expr)>) {
    let mut exprs: Vec<Expr> = Vec::new();
    take_entries(value, &mut exprs);
    dismantle(exprs);
}

/// Drop a path pattern without recursion.
pub(crate) fn discard_pattern(value: PathPattern) {
    let mut exprs: Vec<Expr> = Vec::new();
    let _ = take_pattern(value, &mut exprs);
    dismantle(exprs);
}

/// Drop path patterns without recursion.
pub(crate) fn discard_patterns(value: Vec<PathPattern>) {
    let mut exprs: Vec<Expr> = Vec::new();
    take_patterns(value, &mut exprs);
    dismantle(exprs);
}

/// Drop a node pattern without recursion.
pub(crate) fn discard_node(value: NodePattern) {
    let mut exprs: Vec<Expr> = Vec::new();
    let _ = take_node(value, &mut exprs);
    dismantle(exprs);
}

/// Drop a relationship pattern without recursion.
pub(crate) fn discard_rel(value: RelPattern) {
    let mut exprs: Vec<Expr> = Vec::new();
    let _ = take_rel(value, &mut exprs);
    dismantle(exprs);
}

/// Drop `SET` items without recursion.
pub(crate) fn discard_set_items(value: Vec<SetItem>) {
    let mut exprs: Vec<Expr> = Vec::new();
    take_set_items(value, &mut exprs);
    dismantle(exprs);
}

/// Drop projection items without recursion.
pub(crate) fn discard_items(value: Vec<ProjectionItem>) {
    let mut exprs: Vec<Expr> = Vec::new();
    take_items(value, &mut exprs);
    dismantle(exprs);
}

/// Drop sort items without recursion.
pub(crate) fn discard_sort_items(value: Vec<SortItem>) {
    let mut exprs: Vec<Expr> = Vec::new();
    take_sort_items(value, &mut exprs);
    dismantle(exprs);
}

/// Drop the steps of a path pattern without recursion.
pub(crate) fn discard_steps(steps: Vec<(RelPattern, NodePattern)>) {
    let mut rest = steps;
    let mut exprs: Vec<Expr> = Vec::new();
    while rest.len() > 0
        decreases rest.len(),
    {
        let (rel, node) = rest.pop().unwrap();
        let _ = take_rel(rel, &mut exprs);
        let _ = take_node(node, &mut exprs);
    }
    dismantle(exprs);
}

/// Drop clauses without recursion.
pub(crate) fn discard_clauses(clauses: Vec<Clause>) {
    let mut rest = clauses;
    let mut exprs: Vec<Expr> = Vec::new();
    while rest.len() > 0
        decreases rest.len(),
    {
        let clause = rest.pop().unwrap();
        take_clause(clause, &mut exprs);
    }
    dismantle(exprs);
}

impl Expr {
    /// Drop the expression without recursion, however deep it is.
    pub(crate) fn discard(self) {
        let mut exprs: Vec<Expr> = Vec::new();
        exprs.push(self);
        dismantle(exprs);
    }
}

impl Query {
    /// The outermost expressions of the query, from the last to the first.
    pub fn into_exprs(self) -> (r: Vec<Expr>)
        ensures
            ast::exprs_view(r@) == nesting::clauses_exprs(self@.clauses).reverse(),
    {
        reveal(with_reversed);
        let ghost all = nesting::clauses_exprs(self@.clauses);
        let mut out: Vec<Expr> = Vec::new();
        let mut rest = self.clauses;
        assert(ast::exprs_view(out@) =~= seq![]);
        assert(with_reversed(ast::exprs_view(out@), all) =~= all.reverse());
        while rest.len() > 0
            invariant
                with_reversed(
                    ast::exprs_view(out@),
                    nesting::clauses_exprs(ast::clauses_view(rest@)),
                )
                    == all.reverse(),
            decreases rest.len(),
        {
            reveal(with_reversed);
            let ghost was = ast::clauses_view(rest@);
            let ghost had = ast::exprs_view(out@);
            let clause = rest.pop().unwrap();
            take_clause(clause, &mut out);
            assert(was.drop_last() =~= ast::clauses_view(rest@));
            assert(with_reversed(ast::exprs_view(out@), nesting::clauses_exprs(was.drop_last()))
                =~= with_reversed(had, nesting::clauses_exprs(was)));
        }
        assert(with_reversed(ast::exprs_view(out@), seq![]) =~= ast::exprs_view(out@));
        out
    }

    /// Drop the query without recursion, however deep it is.
    pub(crate) fn discard(self) {
        dismantle(self.into_exprs());
    }
}

} // verus!
