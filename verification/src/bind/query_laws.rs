//! What binding a query keeps: ids are dense over the whole query, and a
//! projection leaves only what it names in scope.

use vstd::prelude::*;

use crate::ast::{
    CallClauseView, ClauseView, ExprView, MergeClauseView, NodePatternView, PathPatternView,
    ProjectionItemView, ProjectionView, QueryView, RelPatternView, SetItemView, SortItemView,
};
use crate::bind::bound::{
    self, BoundClauseView, BoundExprView, BoundNodePatternView, BoundPathPatternView,
    BoundRelPatternView, BoundSetItemView, EntityKind, ProcedureDefView, VarId,
};
use crate::bind::clause_rules::{self, Draft};
use crate::bind::rules::{self, Bindings, ExprCtx, Setting};
use crate::bind::scope_laws;
use crate::names;
use crate::span::Span;

verus! {

/// Whether `later` extends `b` and its scope is in order.
pub open spec fn grows(b: Bindings, later: Bindings) -> bool {
    scope_laws::extends(b, later) && names::ascend(later.scope)
}

proof fn lemma_grows(a: Bindings, b: Bindings, c: Bindings)
    requires
        grows(a, b),
        grows(b, c),
    ensures
        grows(a, c),
{
    scope_laws::lemma_extends(a, b, c);
}

proof fn lemma_expr(e: ExprView, ctx: ExprCtx, b: Bindings, st: Setting)
    requires
        names::ascend(b.scope),
    ensures
        rules::expr_bound(e, ctx, b, st) matches Ok((_, later)) ==> grows(b, later),
{
    scope_laws::expressions_leave_the_scope_as_it_was(e, ctx, b, st);
}

proof fn lemma_all(
    items: Seq<ExprView>,
    ctx: ExprCtx,
    b: Bindings,
    st: Setting,
)
    requires
        names::ascend(b.scope),
    ensures
        rules::exprs_bound(items, 0, ctx, b, st, seq![]) matches Ok((_, later)) ==> grows(b, later),
{
    scope_laws::lemma_exprs(items, 0, ctx, b, st, seq![]);
}

proof fn lemma_optional(e: Option<ExprView>, b: Bindings, st: Setting)
    requires
        names::ascend(b.scope),
    ensures
        clause_rules::optional_bound(e, b, st) matches Ok((_, later)) ==> grows(b, later) && later.scope == b.scope,
{
    scope_laws::lemma_properties(e, b, st);
}

// --- Writing ----------------------------------------------------------------------------------------

proof fn lemma_set_item(item: SetItemView, b: Bindings, st: Setting)
    requires
        names::ascend(b.scope),
    ensures
        clause_rules::set_item_bound(item, b, st) matches Ok((_, later)) ==> grows(b, later),
{
    reveal(clause_rules::set_item_bound);
    match item {
        SetItemView::Property { value, .. } => lemma_expr(value, rules::no_aggregates(), b, st),
        SetItemView::Replace { value, .. } => lemma_expr(value, rules::no_aggregates(), b, st),
        SetItemView::Merge { value, .. } => lemma_expr(value, rules::no_aggregates(), b, st),
        SetItemView::AddLabels { .. } => {},
    }
}

proof fn lemma_set_items(
    items: Seq<SetItemView>,
    i: int,
    b: Bindings,
    st: Setting,
    out: Seq<BoundSetItemView>,
)
    requires
        names::ascend(b.scope),
    ensures
        clause_rules::set_items_bound(items, i, b, st, out) matches Ok((_, later)) ==> grows(b, later),
    decreases items.len() - i,
{
    reveal(clause_rules::set_items_bound);
    if !(i < 0 || i >= items.len()) {
        lemma_set_item(items[i], b, st);
        if let Ok((x, b1)) = clause_rules::set_item_bound(items[i], b, st) {
            lemma_set_items(items, i + 1, b1, st, out.push(x));
            if let Ok((_, b2)) = clause_rules::set_items_bound(items, i + 1, b1, st, out.push(x)) {
                lemma_grows(b, b1, b2);
            }
        }
    }
}

proof fn lemma_new_node(node: NodePatternView, b: Bindings, st: Setting)
    requires
        names::ascend(b.scope),
    ensures
        clause_rules::new_node_bound(node, b, st) matches Ok((_, later)) ==> grows(b, later),
{
    reveal(clause_rules::new_node_bound);
    scope_laws::lemma_node(node, true, b, st);
}

proof fn lemma_new_rel(rel: RelPatternView, b: Bindings, st: Setting)
    requires
        names::ascend(b.scope),
    ensures
        clause_rules::new_rel_bound(rel, b, st) matches Ok((_, later)) ==> grows(b, later),
{
    reveal(clause_rules::new_rel_bound);
    let coining = b.coining(rel.types[0], st);
    assert(scope_laws::extends(b, coining));
    if let Some(name) = rel.variable {
        scope_laws::lemma_declared(coining, name, EntityKind::Relationship, seq![]);
        scope_laws::lemma_extends(
            b,
            coining,
            coining.declared(name, EntityKind::Relationship, seq![]),
        );
    }
    if let Ok((_, b1)) = clause_rules::new_rel_var_bound(rel, b.coining(rel.types[0], st)) {
        scope_laws::lemma_properties(rel.properties, b1, st);
        if let Ok((_, b2)) = rules::properties_bound(rel.properties, b1, st) {
            lemma_grows(b, b1, b2);
        }
    }
}

proof fn lemma_new_steps(
    steps: Seq<(RelPatternView, NodePatternView)>,
    i: int,
    b: Bindings,
    st: Setting,
    out: Seq<(BoundRelPatternView, BoundNodePatternView)>,
)
    requires
        names::ascend(b.scope),
    ensures
        clause_rules::new_steps_bound(steps, i, b, st, out) matches Ok((_, later)) ==> grows(b, later),
    decreases steps.len() - i,
{
    reveal(clause_rules::new_steps_bound);
    if !(i < 0 || i >= steps.len()) {
        lemma_new_rel(steps[i].0, b, st);
        if let Ok((rel, b1)) = clause_rules::new_rel_bound(steps[i].0, b, st) {
            lemma_new_node(steps[i].1, b1, st);
            if let Ok((node, b2)) = clause_rules::new_node_bound(steps[i].1, b1, st) {
                lemma_grows(b, b1, b2);
                lemma_new_steps(steps, i + 1, b2, st, out.push((rel, node)));
                if let Ok((_, b3)) = clause_rules::new_steps_bound(
                    steps,
                    i + 1,
                    b2,
                    st,
                    out.push((rel, node)),
                ) {
                    lemma_grows(b, b2, b3);
                }
            }
        }
    }
}

proof fn lemma_new_path(p: PathPatternView, b: Bindings, st: Setting)
    requires
        names::ascend(b.scope),
    ensures
        clause_rules::new_path_bound(p, b, st) matches Ok((_, later)) ==> grows(b, later),
{
    reveal(clause_rules::new_path_bound);
    if let Some(name) = p.variable {
        scope_laws::lemma_declared(b, name, EntityKind::Path, seq![]);
    }
    if let Ok((_, b1)) = rules::path_var_bound(p.variable, true, p.span, b) {
        lemma_new_node(p.start, b1, st);
        if let Ok((_, b2)) = clause_rules::new_node_bound(p.start, b1, st) {
            lemma_grows(b, b1, b2);
            lemma_new_steps(p.steps, 0, b2, st, seq![]);
            if let Ok((_, b3)) = clause_rules::new_steps_bound(p.steps, 0, b2, st, seq![]) {
                lemma_grows(b, b2, b3);
            }
        }
    }
}

proof fn lemma_new_paths(
    patterns: Seq<PathPatternView>,
    i: int,
    b: Bindings,
    st: Setting,
    out: Seq<BoundPathPatternView>,
)
    requires
        names::ascend(b.scope),
    ensures
        clause_rules::new_paths_bound(patterns, i, b, st, out) matches Ok((_, later)) ==> grows(b, later),
    decreases patterns.len() - i,
{
    reveal(clause_rules::new_paths_bound);
    if !(i < 0 || i >= patterns.len()) {
        lemma_new_path(patterns[i], b, st);
        if let Ok((p, b1)) = clause_rules::new_path_bound(patterns[i], b, st) {
            lemma_new_paths(patterns, i + 1, b1, st, out.push(p));
            if let Ok((_, b2)) = clause_rules::new_paths_bound(
                patterns,
                i + 1,
                b1,
                st,
                out.push(p),
            ) {
                lemma_grows(b, b1, b2);
            }
        }
    }
}

proof fn lemma_merge(m: MergeClauseView, b: Bindings, st: Setting)
    requires
        names::ascend(b.scope),
    ensures
        clause_rules::merge_bound(m, b, st) matches Ok((_, later)) ==> grows(b, later),
{
    reveal(clause_rules::merge_bound);
    lemma_new_path(m.pattern, b, st);
    if let Ok((_, b1)) = clause_rules::new_path_bound(m.pattern, b, st) {
        lemma_set_items(m.on_create, 0, b1, st, seq![]);
        if let Ok((_, b2)) = clause_rules::set_items_bound(m.on_create, 0, b1, st, seq![]) {
            lemma_grows(b, b1, b2);
            lemma_set_items(m.on_match, 0, b2, st, seq![]);
            if let Ok((_, b3)) = clause_rules::set_items_bound(m.on_match, 0, b2, st, seq![]) {
                lemma_grows(b, b2, b3);
            }
        }
    }
}

// --- Reading ----------------------------------------------------------------------------------------

proof fn lemma_paths(
    patterns: Seq<PathPatternView>,
    i: int,
    b: Bindings,
    st: Setting,
    out: Seq<BoundPathPatternView>,
)
    requires
        names::ascend(b.scope),
    ensures
        clause_rules::paths_bound(patterns, i, b, st, out) matches Ok((_, later)) ==> grows(b, later),
    decreases patterns.len() - i,
{
    reveal(clause_rules::paths_bound);
    if !(i < 0 || i >= patterns.len()) {
        scope_laws::lemma_pattern(patterns[i], true, b, st);
        if let Ok((p, b1)) = rules::pattern_bound(patterns[i], true, b, st) {
            lemma_paths(patterns, i + 1, b1, st, out.push(p));
            if let Ok((_, b2)) = clause_rules::paths_bound(patterns, i + 1, b1, st, out.push(p)) {
                lemma_grows(b, b1, b2);
            }
        }
    }
}

proof fn lemma_yields(
    columns: Seq<Seq<char>>,
    i: int,
    def: ProcedureDefView,
    name: Seq<char>,
    span: Span,
    b: Bindings,
    out: Seq<(Seq<char>, VarId)>,
)
    requires
        names::ascend(b.scope),
    ensures
        clause_rules::yields_bound(
            columns,
            i,
            def,
            name,
            span,
            b,
            out,
        ) matches Ok((_, later)) ==> grows(b, later),
    decreases columns.len() - i,
{
    reveal(clause_rules::yields_bound);
    if !(i < 0 || i >= columns.len()) {
        let b1 = b.declared(columns[i], EntityKind::Value, seq![]);
        let next = out.push((columns[i], b.next_id()));
        scope_laws::lemma_declared(b, columns[i], EntityKind::Value, seq![]);
        lemma_yields(columns, i + 1, def, name, span, b1, next);
        if let Ok((_, b2)) = clause_rules::yields_bound(columns, i + 1, def, name, span, b1, next) {
            lemma_grows(b, b1, b2);
        }
    }
}

proof fn lemma_unnamed(
    columns: Seq<Seq<char>>,
    i: int,
    b: Bindings,
    out: Seq<(Seq<char>, VarId)>,
)
    requires
        names::ascend(b.scope),
    ensures
        clause_rules::unnamed_yields(columns, i, b, out) matches Ok((_, later)) ==> grows(b, later),
    decreases columns.len() - i,
{
    if !(i < 0 || i >= columns.len()) {
        let b1 = b.with_variable(columns[i], EntityKind::Value, seq![]);
        let next = out.push((columns[i], b.next_id()));
        scope_laws::lemma_declared(b, columns[i], EntityKind::Value, seq![]);
        lemma_unnamed(columns, i + 1, b1, next);
        if let Ok((_, b2)) = clause_rules::unnamed_yields(columns, i + 1, b1, next) {
            lemma_grows(b, b1, b2);
        }
    }
}

proof fn lemma_call(c: CallClauseView, last: bool, b: Bindings, st: Setting)
    requires
        names::ascend(b.scope),
    ensures
        clause_rules::call_clause_bound(c, last, b, st) matches Ok((_, later)) ==> grows(b, later),
{
    reveal(clause_rules::call_clause_bound);
    let name = rules::dotted(c.procedure, c.procedure.len());
    if let Some(def) = bound::procedure_named(name, 0) {
        lemma_all(c.args, rules::no_aggregates(), b, st);
        if let Ok((_, b1)) = rules::exprs_bound(
            c.args,
            0,
            rules::no_aggregates(),
            b,
            st,
            seq![],
        ) {
            lemma_unnamed(def.yields, 0, b1, seq![]);
            lemma_yields(c.yield_items, 0, def, name, c.span, b1, seq![]);
            if let Ok((_, b2)) = clause_rules::all_yields_bound(c, last, def, name, b1) {
                lemma_grows(b, b1, b2);
                lemma_optional(c.where_clause, b2, st);
                if let Ok((_, b3)) = clause_rules::optional_bound(c.where_clause, b2, st) {
                    lemma_grows(b, b2, b3);
                }
            }
        }
    }
}

// --- Projections ------------------------------------------------------------------------------------

proof fn lemma_items(
    items: Seq<ProjectionItemView>,
    i: int,
    is_with: bool,
    b: Bindings,
    st: Setting,
    out: Seq<Draft>,
)
    requires
        names::ascend(b.scope),
    ensures
        clause_rules::items_bound(items, i, is_with, b, st, out) matches Ok((_, later)) ==> grows(
            b,
            later,
        ),
    decreases items.len() - i,
{
    reveal(clause_rules::items_bound);
    if !(i < 0 || i >= items.len()) {
        match items[i] {
            ProjectionItemView::Star { span } => {
                lemma_items(
                    items,
                    i + 1,
                    is_with,
                    b,
                    st,
                    out + clause_rules::star_items(b.scope, span),
                );
            },
            ProjectionItemView::Expr { expr, alias, span } => {
                lemma_expr(expr, rules::aggregates_ok(), b, st);
                if let Ok((bound, b1)) = rules::expr_bound(expr, rules::aggregates_ok(), b, st) {
                    let draft = Draft {
                        expr: bound,
                        name: clause_rules::column_name(expr, alias, st),
                        span,
                    };
                    lemma_items(items, i + 1, is_with, b1, st, out.push(draft));
                    if let Ok((_, b2)) = clause_rules::items_bound(
                        items,
                        i + 1,
                        is_with,
                        b1,
                        st,
                        out.push(draft),
                    ) {
                        lemma_grows(b, b1, b2);
                    }
                }
            },
        }
    }
}

proof fn lemma_drafted(p: ProjectionView, is_with: bool, b: Bindings, st: Setting)
    requires
        names::ascend(b.scope),
    ensures
        clause_rules::drafted(p, is_with, b, st) matches Ok((_, later)) ==> grows(b, later),
{
    reveal(clause_rules::drafted);
    lemma_items(p.items, 0, is_with, b, st, seq![]);
    if let Ok((_, b1)) = clause_rules::items_bound(p.items, 0, is_with, b, st, seq![]) {
        lemma_optional(p.skip, b1, st);
        if let Ok((_, b2)) = clause_rules::optional_bound(p.skip, b1, st) {
            lemma_grows(b, b1, b2);
            lemma_optional(p.limit, b2, st);
            if let Ok((_, b3)) = clause_rules::optional_bound(p.limit, b2, st) {
                lemma_grows(b, b2, b3);
            }
        }
    }
}

/// Whether a scope shows exactly the names of the first `n` drafts.
pub open spec fn shows_names(scope: Seq<(Seq<char>, VarId)>, drafts: Seq<Draft>, n: nat) -> bool {
    forall|name: Seq<char>|
        #[trigger] names::found(scope, name) is Some <==> exists|i: int|
            0 <= i < n && i < drafts.len() && (#[trigger] drafts[i]).name == name
}

proof fn lemma_declared_items(drafts: Seq<Draft>, n: nat, b: Bindings)
    requires
        n <= drafts.len(),
        names::ascend(b.scope),
    ensures
        grows(b, clause_rules::items_declared(drafts, n, b).bindings),
        names::ascend(clause_rules::items_declared(drafts, n, b).scope),
        shows_names(clause_rules::items_declared(drafts, n, b).scope, drafts, n),
        clause_rules::items_declared(drafts, n, b).items.len() == n,
        forall|i: int|
            0 <= i < n ==> (#[trigger] clause_rules::items_declared(drafts, n, b).items[i]).name
                == drafts[i].name,
    decreases n,
{
    reveal(clause_rules::items_declared);
    if n > 0 {
        lemma_declared_items(drafts, (n - 1) as nat, b);
        let before = clause_rules::items_declared(drafts, (n - 1) as nat, b);
        let after = clause_rules::items_declared(drafts, n, b);
        let d = drafts[n - 1];
        let id = before.bindings.next_id();
        scope_laws::lemma_declared(
            before.bindings,
            d.name,
            clause_rules::projected_kind(d.expr, before.bindings),
            clause_rules::projected_labels(d.expr, before.bindings),
        );
        lemma_grows(b, before.bindings, after.bindings);
        names::names_keep_ascending(before.scope, d.name, id);
        assert forall|name: Seq<char>|
            #[trigger] names::found(after.scope, name) is Some <==> exists|i: int|
                0 <= i < n && i < drafts.len() && (#[trigger] drafts[i]).name == name by {
            names::found_after_insert(before.scope, d.name, id, name);
            if name == d.name {
                assert(drafts[n - 1].name == name);
            } else {
                if names::found(before.scope, name) is Some {
                    let i = choose|i: int|
                        0 <= i < n - 1 && i < drafts.len() && (#[trigger] drafts[i]).name == name;
                    assert(drafts[i].name == name);
                }
                if exists|i: int|
                    0 <= i < n && i < drafts.len() && (#[trigger] drafts[i]).name == name {
                    let i = choose|i: int|
                        0 <= i < n && i < drafts.len() && (#[trigger] drafts[i]).name == name;
                    assert(i < n - 1);
                    assert(drafts[i].name == name);
                }
            }
        }
    }
}

proof fn lemma_united(
    scope: Seq<(Seq<char>, VarId)>,
    more: Seq<(Seq<char>, VarId)>,
    n: nat,
)
    requires
        names::ascend(scope),
    ensures
        names::ascend(clause_rules::united(scope, more, n)),
    decreases n,
{
    if !(n == 0 || n > more.len()) {
        lemma_united(scope, more, (n - 1) as nat);
        names::names_keep_ascending(
            clause_rules::united(scope, more, (n - 1) as nat),
            more[n - 1].0,
            more[n - 1].1,
        );
    }
}

proof fn lemma_sorts(
    sorts: Seq<SortItemView>,
    i: int,
    ctx: ExprCtx,
    b: Bindings,
    st: Setting,
    out: Seq<(BoundExprView, bool)>,
)
    requires
        names::ascend(b.scope),
    ensures
        clause_rules::sorts_bound(
            sorts,
            i,
            ctx,
            b,
            st,
            out,
        ) matches Ok((_, later)) ==> grows(b, later),
    decreases sorts.len() - i,
{
    reveal(clause_rules::sorts_bound);
    if !(i < 0 || i >= sorts.len()) {
        lemma_expr(sorts[i].expr, ctx, b, st);
        if let Ok((x, b1)) = rules::expr_bound(sorts[i].expr, ctx, b, st) {
            let next = out.push((x, sorts[i].descending));
            lemma_sorts(sorts, i + 1, ctx, b1, st, next);
            if let Ok((_, b2)) = clause_rules::sorts_bound(sorts, i + 1, ctx, b1, st, next) {
                lemma_grows(b, b1, b2);
            }
        }
    }
}

proof fn lemma_ordered(
    p: ProjectionView,
    drafts: Seq<Draft>,
    scope: Seq<(Seq<char>, VarId)>,
    b: Bindings,
    st: Setting,
)
    requires
        names::ascend(b.scope),
    ensures
        clause_rules::ordered(p, drafts, scope, b, st) matches Ok((_, later)) ==> grows(b, later),
{
    reveal(clause_rules::ordered);
    let ctx = if clause_rules::aggregates(drafts, drafts.len()) {
        rules::aggregates_ok()
    } else {
        rules::no_aggregates()
    };
    lemma_sorts(p.order_by, 0, ctx, b, st, seq![]);
    if let Ok((_, b1)) = clause_rules::sorts_bound(p.order_by, 0, ctx, b, st, seq![]) {
        lemma_optional(p.where_clause, b1, st);
        if let Ok((_, b2)) = clause_rules::optional_bound(p.where_clause, b1, st) {
            lemma_grows(b, b1, b2);
        }
    }
}

/// Behind a `WITH` exactly the projected names are visible.
pub proof fn a_projection_shows_only_its_names(
    p: ProjectionView,
    is_with: bool,
    b: Bindings,
    st: Setting,
)
    requires
        names::ascend(b.scope),
    ensures
        clause_rules::projection_bound(p, is_with, b, st) matches Ok((made, later)) ==> {
            &&& grows(b, later)
            &&& forall|name: Seq<char>|
                #[trigger] later.seen(name) is Some <==> exists|i: int|
                    0 <= i < made.items.len() && (#[trigger] made.items[i]).name == name
        },
{
    reveal(clause_rules::projection_bound);
    lemma_drafted(p, is_with, b, st);
    if let Ok((d, b1)) = clause_rules::drafted(p, is_with, b, st) {
        let made = clause_rules::items_declared(d.drafts, d.drafts.len(), b1);
        lemma_declared_items(d.drafts, d.drafts.len(), b1);
        let both = Bindings {
            variables: made.bindings.variables,
            scope: clause_rules::united(b1.scope, made.scope, made.scope.len()),
            coined: made.bindings.coined,
        };
        lemma_united(b1.scope, made.scope, made.scope.len());
        lemma_ordered(p, d.drafts, made.scope, both, st);
        if let Ok((o, b2)) = clause_rules::ordered(p, d.drafts, made.scope, both, st) {
            let later = Bindings { scope: made.scope, ..b2 };
            assert(scope_laws::extends(b1, both));
            scope_laws::lemma_extends(b1, both, b2);
            scope_laws::lemma_extends(b, b1, later);
            assert forall|name: Seq<char>|
                #[trigger] later.seen(name) is Some <==> exists|i: int|
                    0 <= i < made.items.len() && (#[trigger] made.items[i]).name == name by {
                assert(names::found(made.scope, name) is Some <==> later.seen(name) is Some);
                if later.seen(name) is Some {
                    let i = choose|i: int|
                        0 <= i < d.drafts.len() && (#[trigger] d.drafts[i]).name == name;
                    assert(made.items[i].name == name);
                }
                if exists|i: int|
                    0 <= i < made.items.len() && (#[trigger] made.items[i]).name == name {
                    let i = choose|i: int|
                        0 <= i < made.items.len() && (#[trigger] made.items[i]).name == name;
                    assert(d.drafts[i].name == name);
                }
            }
        }
    }
}

// --- Queries ----------------------------------------------------------------------------------------

proof fn lemma_clause(c: ClauseView, last: bool, b: Bindings, st: Setting)
    requires
        names::ascend(b.scope),
    ensures
        clause_rules::clause_bound(c, last, b, st) matches Ok((_, later)) ==> grows(b, later),
{
    reveal(clause_rules::clause_bound);
    match c {
        ClauseView::Match(m) => {
            reveal(clause_rules::match_bound);
            lemma_paths(m.patterns, 0, b, st, seq![]);
            if let Ok((_, b1)) = clause_rules::paths_bound(m.patterns, 0, b, st, seq![]) {
                lemma_optional(m.where_clause, b1, st);
                if let Ok((_, b2)) = clause_rules::optional_bound(m.where_clause, b1, st) {
                    lemma_grows(b, b1, b2);
                }
            }
        },
        ClauseView::Unwind(u) => {
            reveal(clause_rules::unwind_bound);
            lemma_expr(u.expr, rules::no_aggregates(), b, st);
            if let Ok((_, b1)) = rules::expr_bound(u.expr, rules::no_aggregates(), b, st) {
                scope_laws::lemma_declared(b1, u.alias, EntityKind::Value, seq![]);
                lemma_grows(b, b1, b1.declared(u.alias, EntityKind::Value, seq![]));
            }
        },
        ClauseView::With(p) => a_projection_shows_only_its_names(p, true, b, st),
        ClauseView::Return(p) => a_projection_shows_only_its_names(p, false, b, st),
        ClauseView::Call(call) => lemma_call(call, last, b, st),
        ClauseView::Create(create) => lemma_new_paths(create.patterns, 0, b, st, seq![]),
        ClauseView::SetItems(set) => lemma_set_items(set.items, 0, b, st, seq![]),
        ClauseView::Remove(remove) => {},
        ClauseView::Delete(delete) => {
            reveal(clause_rules::delete_bound);
            lemma_all(delete.targets, rules::no_aggregates(), b, st);
        },
        ClauseView::Merge(merge) => lemma_merge(merge, b, st),
    }
}

proof fn lemma_clauses(
    clauses: Seq<ClauseView>,
    i: int,
    b: Bindings,
    st: Setting,
    out: Seq<BoundClauseView>,
)
    requires
        0 <= i <= clauses.len(),
        names::ascend(b.scope),
    ensures
        clause_rules::clauses_bound(clauses, i, b, st, out) matches Ok((bound, later)) ==> grows(b, later)
            && bound.len() == out.len() + clauses.len() - i,
    decreases clauses.len() - i,
{
    reveal(clause_rules::clauses_bound);
    if i < clauses.len() {
        let last = i == clauses.len() - 1;
        lemma_clause(clauses[i], last, b, st);
        if let Ok((c, b1)) = clause_rules::clause_bound(clauses[i], last, b, st) {
            lemma_clauses(clauses, i + 1, b1, st, out.push(c));
            if let Ok((_, b2)) = clause_rules::clauses_bound(clauses, i + 1, b1, st, out.push(c)) {
                lemma_grows(b, b1, b2);
            }
        }
    }
}

/// The variables of a bound query have dense ids: each one's id is its place. And
/// every clause is bound.
pub proof fn bound_queries_number_their_variables(query: QueryView, st: Setting)
    ensures
        clause_rules::query_bound(query, st) matches Ok(bound) ==> {
            &&& bound.clauses.len() == query.clauses.len()
            &&& forall|i: int|
                0 <= i < bound.variables.len() ==> (#[trigger] bound.variables[i]).id == VarId(
                    i as u32,
                )
        },
{
    let none = Bindings::none();
    assert(scope_laws::is_dense(none));
    lemma_clauses(query.clauses, 0, none, st, seq![]);
}

} // verus!
