//! Expression nesting: the direct children of an expression and the depth of
//! a query, computed without recursion so that no shape of query can exhaust
//! the stack.

use vstd::prelude::*;

use crate::ast::{
    self, Clause, ClauseView, Expr, ExprView, NodePatternView, PathPattern, PathPatternView,
    Projection, ProjectionItem, ProjectionItemView, ProjectionView, Query, QueryView,
    RelPatternView, SetItem, SetItemView, SortItem, SortItemView,
};

verus! {

pub open spec fn boxed(o: Option<Box<ExprView>>) -> Seq<ExprView> {
    match o {
        Some(e) => seq![*e],
        None => seq![],
    }
}

pub open spec fn optional(o: Option<ExprView>) -> Seq<ExprView> {
    match o {
        Some(e) => seq![e],
        None => seq![],
    }
}

/// The conditions and values of a `CASE`, in order.
pub open spec fn branches(whens: Seq<(ExprView, ExprView)>) -> Seq<ExprView>
    decreases whens.len(),
{
    if whens.len() == 0 {
        seq![]
    } else {
        branches(whens.drop_last()) + seq![whens.last().0, whens.last().1]
    }
}

/// The property maps of a pattern's steps, in order.
pub open spec fn step_exprs(steps: Seq<(RelPatternView, NodePatternView)>) -> Seq<ExprView>
    decreases steps.len(),
{
    if steps.len() == 0 {
        seq![]
    } else {
        step_exprs(steps.drop_last()) + optional(steps.last().0.properties) + optional(
            steps.last().1.properties,
        )
    }
}

/// The property maps of a pattern, in order.
pub open spec fn pattern_exprs(pattern: PathPatternView) -> Seq<ExprView> {
    optional(pattern.start.properties) + step_exprs(pattern.steps)
}

/// The values of a map literal, in order.
pub open spec fn entry_values(entries: Seq<(Seq<char>, ExprView)>) -> Seq<ExprView> {
    Seq::new(entries.len(), |i: int| entries[i].1)
}

/// The direct subexpressions of an expression, in order.
pub open spec fn children(e: ExprView) -> Seq<ExprView> {
    match e {
        ExprView::Literal { .. } => seq![],
        ExprView::Parameter { .. } => seq![],
        ExprView::Variable { .. } => seq![],
        ExprView::Property { base, .. } => seq![*base],
        ExprView::Unary { operand, .. } => seq![*operand],
        ExprView::Binary { lhs, rhs, .. } => seq![*lhs, *rhs],
        ExprView::IsNull { operand, .. } => seq![*operand],
        ExprView::FunctionCall { args, .. } => args,
        ExprView::Case { operand, whens, else_expr, .. } => boxed(operand) + branches(whens)
            + boxed(else_expr),
        ExprView::ListLiteral { items, .. } => items,
        ExprView::ListComprehension { list, where_clause, map, .. } => seq![*list] + boxed(
            where_clause,
        ) + boxed(map),
        ExprView::Quantifier { list, predicate, .. } => seq![*list, *predicate],
        ExprView::Reduce { init, list, expr, .. } => seq![*init, *list, *expr],
        ExprView::MapLiteral { entries, .. } => entry_values(entries),
        ExprView::Index { base, index, .. } => seq![*base, *index],
        ExprView::Slice { base, from, to, .. } => seq![*base] + boxed(from) + boxed(to),
        ExprView::PatternPredicate { pattern, .. } => pattern_exprs(*pattern),
    }
}

proof fn lemma_branches(whens: Seq<(ExprView, ExprView)>, i: int) -> (j: int)
    requires
        0 <= i < branches(whens).len(),
    ensures
        0 <= j < whens.len(),
        branches(whens)[i] == whens[j].0 || branches(whens)[i] == whens[j].1,
    decreases whens.len(),
{
    let before = branches(whens.drop_last());
    if i < before.len() {
        lemma_branches(whens.drop_last(), i)
    } else {
        whens.len() - 1
    }
}

proof fn lemma_step_exprs(steps: Seq<(RelPatternView, NodePatternView)>, i: int) -> (j: int)
    requires
        0 <= i < step_exprs(steps).len(),
    ensures
        0 <= j < steps.len(),
        steps[j].0.properties == Some(step_exprs(steps)[i]) || steps[j].1.properties == Some(
            step_exprs(steps)[i],
        ),
    decreases steps.len(),
{
    let before = step_exprs(steps.drop_last());
    if i < before.len() {
        lemma_step_exprs(steps.drop_last(), i)
    } else {
        steps.len() - 1
    }
}

/// A direct subexpression is smaller than the expression.
pub proof fn lemma_child_is_smaller(e: ExprView, i: int)
    requires
        0 <= i < children(e).len(),
    ensures
        decreases_to!(e => children(e)[i]),
{
    match e {
        ExprView::FunctionCall { args, .. } => {
            assert(decreases_to!(e => args[i]));
        },
        ExprView::Case { operand, whens, else_expr, .. } => {
            let a = boxed(operand);
            let b = branches(whens);
            if i < a.len() {
                assert(decreases_to!(e => operand->0));
            } else if i < a.len() + b.len() {
                let j = lemma_branches(whens, i - a.len());
                assert(decreases_to!(e => whens[j].0));
                assert(decreases_to!(e => whens[j].1));
            } else {
                assert(decreases_to!(e => else_expr->0));
            }
        },
        ExprView::ListLiteral { items, .. } => {
            assert(decreases_to!(e => items[i]));
        },
        ExprView::ListComprehension { list, where_clause, map, .. } => {
            if i == 0 {
                assert(decreases_to!(e => list));
            } else if i < 1 + boxed(where_clause).len() {
                assert(decreases_to!(e => where_clause->0));
            } else {
                assert(decreases_to!(e => map->0));
            }
        },
        ExprView::MapLiteral { entries, .. } => {
            assert(decreases_to!(e => entries[i].1));
        },
        ExprView::Slice { base, from, to, .. } => {
            if i == 0 {
                assert(decreases_to!(e => base));
            } else if i < 1 + boxed(from).len() {
                assert(decreases_to!(e => from->0));
            } else {
                assert(decreases_to!(e => to->0));
            }
        },
        ExprView::PatternPredicate { pattern, .. } => {
            let a = optional(pattern.start.properties);
            if i < a.len() {
                assert(decreases_to!(e => pattern.start.properties->0));
            } else {
                let j = lemma_step_exprs(pattern.steps, i - a.len());
                if pattern.steps[j].0.properties == Some(children(e)[i]) {
                    assert(decreases_to!(e => pattern.steps[j].0.properties->0));
                } else {
                    assert(decreases_to!(e => pattern.steps[j].1.properties->0));
                }
            }
        },
        _ => {},
    }
}

/// How deep expressions nest in `e`: 1 for one without subexpressions.
pub open spec fn height(e: ExprView) -> nat
    decreases e, children(e).len() + 1,
{
    1 + tallest_child(e, children(e).len())
}

/// The greatest height among the first `n` children of `e`.
pub open spec fn tallest_child(e: ExprView, n: nat) -> nat
    decreases e, n,
{
    if n == 0 || n > children(e).len() {
        0
    } else {
        proof {
            lemma_child_is_smaller(e, n - 1);
        }
        let before = tallest_child(e, (n - 1) as nat);
        let this = height(children(e)[n - 1]);
        if this > before {
            this
        } else {
            before
        }
    }
}

/// The greatest height among `roots`.
pub open spec fn tallest(roots: Seq<ExprView>) -> nat
    decreases roots.len(),
{
    if roots.len() == 0 {
        0
    } else {
        let before = tallest(roots.drop_last());
        let this = height(roots.last());
        if this > before {
            this
        } else {
            before
        }
    }
}

pub open spec fn set_item_exprs(items: Seq<SetItemView>) -> Seq<ExprView>
    decreases items.len(),
{
    if items.len() == 0 {
        seq![]
    } else {
        set_item_exprs(items.drop_last()) + match items.last() {
            SetItemView::Property { value, .. } => seq![value],
            SetItemView::Replace { value, .. } => seq![value],
            SetItemView::Merge { value, .. } => seq![value],
            SetItemView::AddLabels { .. } => seq![],
        }
    }
}

pub open spec fn all_pattern_exprs(patterns: Seq<PathPatternView>) -> Seq<ExprView>
    decreases patterns.len(),
{
    if patterns.len() == 0 {
        seq![]
    } else {
        all_pattern_exprs(patterns.drop_last()) + pattern_exprs(patterns.last())
    }
}

pub open spec fn item_exprs(items: Seq<ProjectionItemView>) -> Seq<ExprView>
    decreases items.len(),
{
    if items.len() == 0 {
        seq![]
    } else {
        item_exprs(items.drop_last()) + match items.last() {
            ProjectionItemView::Expr { expr, .. } => seq![expr],
            ProjectionItemView::Star { .. } => seq![],
        }
    }
}

pub open spec fn sort_exprs(items: Seq<SortItemView>) -> Seq<ExprView> {
    Seq::new(items.len(), |i: int| items[i].expr)
}

pub open spec fn projection_exprs(p: ProjectionView) -> Seq<ExprView> {
    item_exprs(p.items) + sort_exprs(p.order_by) + optional(p.skip) + optional(p.limit) + optional(
        p.where_clause,
    )
}

/// The outermost expressions of a clause, in order.
pub open spec fn clause_exprs(clause: ClauseView) -> Seq<ExprView> {
    match clause {
        ClauseView::Match(m) => all_pattern_exprs(m.patterns) + optional(m.where_clause),
        ClauseView::Create(c) => all_pattern_exprs(c.patterns),
        ClauseView::SetItems(c) => set_item_exprs(c.items),
        ClauseView::Remove(_) => seq![],
        ClauseView::Delete(c) => c.targets,
        ClauseView::Merge(c) => pattern_exprs(c.pattern) + set_item_exprs(c.on_create)
            + set_item_exprs(c.on_match),
        ClauseView::Unwind(u) => seq![u.expr],
        ClauseView::With(p) => projection_exprs(p),
        ClauseView::Return(p) => projection_exprs(p),
        ClauseView::Call(c) => c.args + optional(c.where_clause),
    }
}

/// The outermost expressions of a sequence of clauses, in order.
pub open spec fn clauses_exprs(clauses: Seq<ClauseView>) -> Seq<ExprView>
    decreases clauses.len(),
{
    if clauses.len() == 0 {
        seq![]
    } else {
        clauses_exprs(clauses.drop_last()) + clause_exprs(clauses.last())
    }
}

/// The maximum expression nesting depth anywhere in a query.
pub open spec fn query_depth(query: QueryView) -> nat {
    tallest(clauses_exprs(query.clauses))
}

// --- Collecting expressions ---------------------------------------------------------------

/// The expressions that references stand for.
spec fn referenced(v: Seq<&Expr>) -> Seq<ExprView> {
    Seq::new(v.len(), |i: int| v[i]@)
}

fn put<'a>(out: &mut Vec<&'a Expr>, e: &'a Expr)
    ensures
        referenced(final(out)@) == referenced(old(out)@).push(e@),
{
    out.push(e);
    proof {
        assert(referenced(out@) =~= referenced(old(out)@).push(e@));
    }
}

fn put_boxed<'a>(out: &mut Vec<&'a Expr>, o: &'a Option<Box<Expr>>)
    ensures
        referenced(final(out)@) == referenced(old(out)@) + boxed(
            match o {
                Some(x) => Some(Box::new(x@)),
                None => None,
            },
        ),
{
    if let Some(e) = o {
        put(out, &**e);
    }
    proof {
        assert(referenced(out@) =~= referenced(old(out)@) + boxed(
            match o {
                Some(x) => Some(Box::new(x@)),
                None => None,
            },
        ));
    }
}

fn put_optional<'a>(out: &mut Vec<&'a Expr>, o: &'a Option<Expr>)
    ensures
        referenced(final(out)@) == referenced(old(out)@) + optional(
            match o {
                Some(x) => Some(x@),
                None => None,
            },
        ),
{
    if let Some(e) = o {
        put(out, e);
    }
    proof {
        assert(referenced(out@) =~= referenced(old(out)@) + optional(
            match o {
                Some(x) => Some(x@),
                None => None,
            },
        ));
    }
}

fn put_all<'a>(out: &mut Vec<&'a Expr>, items: &'a Vec<Expr>)
    ensures
        referenced(final(out)@) == referenced(old(out)@) + ast::exprs_view(items@),
{
    let mut i: usize = 0;
    proof {
        assert(referenced(out@) =~= referenced(old(out)@) + ast::exprs_view(items@).take(0));
    }
    while i < items.len()
        invariant
            i <= items.len(),
            referenced(out@) == referenced(old(out)@) + ast::exprs_view(items@).take(i as int),
        decreases items.len() - i,
    {
        put(out, &items[i]);
        proof {
            assert(ast::exprs_view(items@).take(i + 1) =~= ast::exprs_view(items@).take(i as int).push(
                items@[i as int]@,
            ));
            assert(
                referenced(out@) =~= referenced(old(out)@) + ast::exprs_view(items@).take(i + 1)
            );
        }
        i += 1;
    }
    proof {
        assert(ast::exprs_view(items@).take(i as int) =~= ast::exprs_view(items@));
    }
}

fn put_pattern<'a>(out: &mut Vec<&'a Expr>, pattern: &'a PathPattern)
    ensures
        referenced(final(out)@) == referenced(old(out)@) + pattern_exprs(pattern@),
{
    proof {
        pattern.lemma_view();
        pattern.start.lemma_view();
    }
    let ghost before = referenced(out@);
    let ghost first = optional(pattern@.start.properties);
    put_optional(out, &pattern.start.properties);
    let steps = &pattern.steps;
    let mut i: usize = 0;
    proof {
        assert(referenced(out@) =~= before + first + step_exprs(pattern@.steps.take(0)));
    }
    while i < steps.len()
        invariant
            i <= steps.len(),
            *steps == pattern.steps,
            pattern@.steps == ast::rel_pattern_node_patterns_view(pattern.steps@),
            referenced(out@) == before + first + step_exprs(pattern@.steps.take(i as int)),
        decreases steps.len() - i,
    {
        put_optional(out, &steps[i].0.properties);
        put_optional(out, &steps[i].1.properties);
        proof {
            let s = pattern@.steps;
            steps@[i as int].0.lemma_view();
            steps@[i as int].1.lemma_view();
            assert(s.take(i + 1).drop_last() =~= s.take(i as int));
            assert(referenced(out@) =~= before + first + step_exprs(s.take(i + 1)));
        }
        i += 1;
    }
    proof {
        assert(pattern@.steps.take(i as int) =~= pattern@.steps);
        assert(before + first + step_exprs(pattern@.steps) =~= before + (first + step_exprs(
            pattern@.steps,
        )));
    }
}

fn put_patterns<'a>(out: &mut Vec<&'a Expr>, patterns: &'a Vec<PathPattern>)
    ensures
        referenced(final(out)@) == referenced(old(out)@) + all_pattern_exprs(
            ast::path_patterns_view(patterns@),
        ),
{
    let ghost before = referenced(out@);
    let ghost s = ast::path_patterns_view(patterns@);
    let mut i: usize = 0;
    proof {
        assert(referenced(out@) =~= before + all_pattern_exprs(s.take(0)));
    }
    while i < patterns.len()
        invariant
            i <= patterns.len(),
            s == ast::path_patterns_view(patterns@),
            referenced(out@) == before + all_pattern_exprs(s.take(i as int)),
        decreases patterns.len() - i,
    {
        put_pattern(out, &patterns[i]);
        proof {
            assert(s.take(i + 1).drop_last() =~= s.take(i as int));
            assert(referenced(out@) =~= before + all_pattern_exprs(s.take(i + 1)));
        }
        i += 1;
    }
    proof {
        assert(s.take(i as int) =~= s);
    }
}

fn put_set_items<'a>(out: &mut Vec<&'a Expr>, items: &'a Vec<SetItem>)
    ensures
        referenced(final(out)@) == referenced(old(out)@) + set_item_exprs(
            ast::set_items_view(items@),
        ),
{
    let ghost before = referenced(out@);
    let ghost s = ast::set_items_view(items@);
    let mut i: usize = 0;
    proof {
        assert(referenced(out@) =~= before + set_item_exprs(s.take(0)));
    }
    while i < items.len()
        invariant
            i <= items.len(),
            s == ast::set_items_view(items@),
            referenced(out@) == before + set_item_exprs(s.take(i as int)),
        decreases items.len() - i,
    {
        match &items[i] {
            SetItem::Property { value, .. } => put(out, value),
            SetItem::Replace { value, .. } => put(out, value),
            SetItem::Merge { value, .. } => put(out, value),
            SetItem::AddLabels { .. } => {},
        }
        proof {
            assert(s.take(i + 1).drop_last() =~= s.take(i as int));
            assert(referenced(out@) =~= before + set_item_exprs(s.take(i + 1)));
        }
        i += 1;
    }
    proof {
        assert(s.take(i as int) =~= s);
    }
}

fn put_items<'a>(out: &mut Vec<&'a Expr>, items: &'a Vec<ProjectionItem>)
    ensures
        referenced(final(out)@) == referenced(old(out)@) + item_exprs(
            ast::projection_items_view(items@),
        ),
{
    let ghost before = referenced(out@);
    let ghost s = ast::projection_items_view(items@);
    let mut i: usize = 0;
    proof {
        assert(referenced(out@) =~= before + item_exprs(s.take(0)));
    }
    while i < items.len()
        invariant
            i <= items.len(),
            s == ast::projection_items_view(items@),
            referenced(out@) == before + item_exprs(s.take(i as int)),
        decreases items.len() - i,
    {
        if let ProjectionItem::Expr { expr, .. } = &items[i] {
            put(out, expr);
        }
        proof {
            assert(s.take(i + 1).drop_last() =~= s.take(i as int));
            assert(referenced(out@) =~= before + item_exprs(s.take(i + 1)));
        }
        i += 1;
    }
    proof {
        assert(s.take(i as int) =~= s);
    }
}

fn put_sort_items<'a>(out: &mut Vec<&'a Expr>, items: &'a Vec<SortItem>)
    ensures
        referenced(final(out)@) == referenced(old(out)@) + sort_exprs(ast::sort_items_view(items@)),
{
    let ghost before = referenced(out@);
    let ghost s = sort_exprs(ast::sort_items_view(items@));
    let mut i: usize = 0;
    proof {
        assert(referenced(out@) =~= before + s.take(0));
    }
    while i < items.len()
        invariant
            i <= items.len(),
            s == sort_exprs(ast::sort_items_view(items@)),
            referenced(out@) == before + s.take(i as int),
        decreases items.len() - i,
    {
        put(out, &items[i].expr);
        proof {
            assert(s.take(i + 1) =~= s.take(i as int).push(items@[i as int].expr@));
            assert(referenced(out@) =~= before + s.take(i + 1));
        }
        i += 1;
    }
    proof {
        assert(s.take(i as int) =~= s);
    }
}

fn put_projection<'a>(out: &mut Vec<&'a Expr>, p: &'a Projection)
    ensures
        referenced(final(out)@) == referenced(old(out)@) + projection_exprs(p@),
{
    put_items(out, &p.items);
    put_sort_items(out, &p.order_by);
    put_optional(out, &p.skip);
    put_optional(out, &p.limit);
    put_optional(out, &p.where_clause);
    proof {
        assert(referenced(out@) =~= referenced(old(out)@) + projection_exprs(p@));
    }
}

fn put_clause<'a>(out: &mut Vec<&'a Expr>, clause: &'a Clause)
    ensures
        referenced(final(out)@) == referenced(old(out)@) + clause_exprs(clause@),
{
    match clause {
        Clause::Match(m) => {
            put_patterns(out, &m.patterns);
            put_optional(out, &m.where_clause);
        },
        Clause::Create(c) => put_patterns(out, &c.patterns),
        Clause::SetItems(c) => put_set_items(out, &c.items),
        Clause::Remove(_) => {},
        Clause::Delete(c) => put_all(out, &c.targets),
        Clause::Merge(c) => {
            put_pattern(out, &c.pattern);
            put_set_items(out, &c.on_create);
            put_set_items(out, &c.on_match);
        },
        Clause::Unwind(u) => put(out, &u.expr),
        Clause::With(p) => put_projection(out, p),
        Clause::Return(p) => put_projection(out, p),
        Clause::Call(c) => {
            put_all(out, &c.args);
            put_optional(out, &c.where_clause);
        },
    }
    proof {
        assert(referenced(out@) =~= referenced(old(out)@) + clause_exprs(clause@));
    }
}

fn put_branches<'a>(out: &mut Vec<&'a Expr>, whens: &'a Vec<(Expr, Expr)>)
    ensures
        referenced(final(out)@) == referenced(old(out)@) + branches(ast::expr_exprs_view(whens@)),
{
    let ghost before = referenced(out@);
    let ghost s = ast::expr_exprs_view(whens@);
    let mut i: usize = 0;
    proof {
        assert(referenced(out@) =~= before + branches(s.take(0)));
    }
    while i < whens.len()
        invariant
            i <= whens.len(),
            s == ast::expr_exprs_view(whens@),
            referenced(out@) == before + branches(s.take(i as int)),
        decreases whens.len() - i,
    {
        put(out, &whens[i].0);
        put(out, &whens[i].1);
        proof {
            assert(s.take(i + 1).drop_last() =~= s.take(i as int));
            assert(referenced(out@) =~= before + branches(s.take(i + 1)));
        }
        i += 1;
    }
    proof {
        assert(s.take(i as int) =~= s);
    }
}

fn put_entries<'a>(out: &mut Vec<&'a Expr>, entries: &'a Vec<(String, Expr)>)
    ensures
        referenced(final(out)@) == referenced(old(out)@) + entry_values(
            ast::string_exprs_view(entries@),
        ),
{
    let ghost before = referenced(out@);
    let ghost s = entry_values(ast::string_exprs_view(entries@));
    let mut i: usize = 0;
    proof {
        assert(referenced(out@) =~= before + s.take(0));
    }
    while i < entries.len()
        invariant
            i <= entries.len(),
            s == entry_values(ast::string_exprs_view(entries@)),
            referenced(out@) == before + s.take(i as int),
        decreases entries.len() - i,
    {
        put(out, &entries[i].1);
        proof {
            assert(s.take(i + 1) =~= s.take(i as int).push(entries@[i as int].1@));
            assert(referenced(out@) =~= before + s.take(i + 1));
        }
        i += 1;
    }
    proof {
        assert(s.take(i as int) =~= s);
    }
}

impl Expr {
    /// Every direct child expression, including those in an embedded
    /// pattern's property maps.
    fn children<'a>(&'a self) -> (out: Vec<&'a Expr>)
        ensures
            referenced(out@) == children(self@),
    {
        let mut out: Vec<&'a Expr> = Vec::new();
        match self {
            Expr::Literal { .. } | Expr::Parameter { .. } | Expr::Variable { .. } => {},
            Expr::Property { base, .. } => put(&mut out, &**base),
            Expr::Unary { operand, .. } => put(&mut out, &**operand),
            Expr::Binary { lhs, rhs, .. } => {
                put(&mut out, &**lhs);
                put(&mut out, &**rhs);
            },
            Expr::IsNull { operand, .. } => put(&mut out, &**operand),
            Expr::FunctionCall { args, .. } => put_all(&mut out, args),
            Expr::Case { operand, whens, else_expr, .. } => {
                put_boxed(&mut out, operand);
                put_branches(&mut out, whens);
                put_boxed(&mut out, else_expr);
            },
            Expr::ListLiteral { items, .. } => put_all(&mut out, items),
            Expr::ListComprehension { list, where_clause, map, .. } => {
                put(&mut out, &**list);
                put_boxed(&mut out, where_clause);
                put_boxed(&mut out, map);
            },
            Expr::Quantifier { list, predicate, .. } => {
                put(&mut out, &**list);
                put(&mut out, &**predicate);
            },
            Expr::Reduce { init, list, expr, .. } => {
                put(&mut out, &**init);
                put(&mut out, &**list);
                put(&mut out, &**expr);
            },
            Expr::MapLiteral { entries, .. } => put_entries(&mut out, entries),
            Expr::Index { base, index, .. } => {
                put(&mut out, &**base);
                put(&mut out, &**index);
            },
            Expr::Slice { base, from, to, .. } => {
                put(&mut out, &**base);
                put_boxed(&mut out, from);
                put_boxed(&mut out, to);
            },
            Expr::PatternPredicate { pattern, .. } => put_pattern(&mut out, &**pattern),
        }
        proof {
            assert(referenced(out@) =~= children(self@));
        }
        out
    }
}

// --- Depth --------------------------------------------------------------------------------

/// The number of expressions in `e`, itself included.
pub open spec fn size(e: ExprView) -> nat
    decreases e, children(e).len() + 1,
{
    1 + size_of_children(e, children(e).len())
}

pub open spec fn size_of_children(e: ExprView, n: nat) -> nat
    decreases e, n,
{
    if n == 0 || n > children(e).len() {
        0
    } else {
        proof {
            lemma_child_is_smaller(e, n - 1);
        }
        size_of_children(e, (n - 1) as nat) + size(children(e)[n - 1])
    }
}

/// The depth that a stack of expressions, each with its own depth, reaches.
spec fn reach(stack: Seq<(&Expr, usize)>) -> int
    decreases stack.len(),
{
    if stack.len() == 0 {
        0
    } else {
        greater(reach(stack.drop_last()), stack.last().1 - 1 + height(stack.last().0@))
    }
}

spec fn weight(stack: Seq<(&Expr, usize)>) -> nat
    decreases stack.len(),
{
    if stack.len() == 0 {
        0
    } else {
        weight(stack.drop_last()) + size(stack.last().0@)
    }
}

spec fn greater(a: int, b: int) -> int {
    if a > b {
        a
    } else {
        b
    }
}

/// `n`, or the greatest `usize` where it is more than that.
pub open spec fn saturated(n: int) -> int {
    if n > usize::MAX {
        usize::MAX as int
    } else {
        n
    }
}

proof fn lemma_push(stack: Seq<(&Expr, usize)>, e: &Expr, d: usize)
    ensures
        reach(stack.push((e, d))) == greater(reach(stack), d - 1 + height(e@)),
        weight(stack.push((e, d))) == weight(stack) + size(e@),
{
    assert(stack.push((e, d)).drop_last() =~= stack);
}

proof fn lemma_reach_of_roots(roots: Seq<&Expr>, stack: Seq<(&Expr, usize)>)
    requires
        stack.len() == roots.len(),
        forall|i: int| 0 <= i < roots.len() ==> #[trigger] stack[i] == (roots[i], 1usize),
    ensures
        reach(stack) == tallest(referenced(roots)),
    decreases roots.len(),
{
    if roots.len() > 0 {
        lemma_reach_of_roots(roots.drop_last(), stack.drop_last());
        assert(referenced(roots).drop_last() =~= referenced(roots.drop_last()));
        assert(stack.last() == stack[stack.len() - 1]);
    }
}

impl Query {
    /// Maximum expression nesting depth anywhere in the query, computed
    /// iteratively (no recursion, whatever the shape).
    pub fn depth(&self) -> (r: usize)
        ensures
            r == saturated(query_depth(self@) as int),
    {
        let mut roots: Vec<&Expr> = Vec::new();
        let ghost clauses = self@.clauses;
        let mut i: usize = 0;
        proof {
            assert(referenced(roots@) =~= clauses_exprs(clauses.take(0)));
        }
        while i < self.clauses.len()
            invariant
                i <= self.clauses.len(),
                clauses == self@.clauses,
                referenced(roots@) == clauses_exprs(clauses.take(i as int)),
            decreases self.clauses.len() - i,
        {
            put_clause(&mut roots, &self.clauses[i]);
            proof {
                assert(clauses.take(i + 1).drop_last() =~= clauses.take(i as int));
                assert(clauses.take(i + 1).last() == self.clauses@[i as int]@);
            }
            i += 1;
        }
        proof {
            assert(clauses.take(i as int) =~= clauses);
        }
        let mut stack: Vec<(&Expr, usize)> = Vec::new();
        let mut j: usize = 0;
        while j < roots.len()
            invariant
                j <= roots.len(),
                stack@.len() == j,
                forall|k: int| 0 <= k < j ==> #[trigger] stack@[k] == (roots@[k], 1usize),
            decreases roots.len() - j,
        {
            stack.push((roots[j], 1));
            j += 1;
        }
        proof {
            lemma_reach_of_roots(roots@, stack@);
        }
        let mut max: usize = 0;
        while stack.len() > 0
            invariant
                saturated(query_depth(self@) as int) == saturated(
                    greater(max as int, reach(stack@)),
                ),
            decreases weight(stack@),
        {
            let ghost whole = stack@;
            let (expr, depth) = stack.pop().unwrap();
            let ghost rest = stack@;
            proof {
                assert(whole.drop_last() =~= rest);
                assert(whole.last() == (expr, depth));
            }
            if depth > max {
                max = depth;
            }
            let below: usize = if depth < usize::MAX {
                depth + 1
            } else {
                depth
            };
            let kids = expr.children();
            let mut k: usize = 0;
            while k < kids.len()
                invariant
                    k <= kids.len(),
                    referenced(kids@) == children(expr@),
                    below >= 1,
                    below - 1 <= max,
                    greater(max as int, reach(stack@)) == greater(
                        greater(max as int, reach(rest)),
                        below - 1 + tallest_child(expr@, k as nat),
                    ),
                    weight(stack@) == weight(rest) + size_of_children(expr@, k as nat),
                decreases kids.len() - k,
            {
                proof {
                    lemma_push(stack@, kids@[k as int], below);
                    assert(referenced(kids@)[k as int] == kids@[k as int]@);
                    assert(children(expr@).len() == kids@.len());
                }
                stack.push((kids[k], below));
                k += 1;
            }
            assert(children(expr@).len() == kids@.len());
        }
        max
    }
}

} // verus!
