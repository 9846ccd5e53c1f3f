//! The binding rules of clauses.

use vstd::prelude::*;
use vstd::string::*;

use crate::ast::{
    CallClauseView, ClauseView, DeleteClauseView, Direction, ExprView, MatchClauseView,
    MergeClauseView, NodePatternView, PathPatternView, ProjectionItemView, ProjectionView,
    QueryView, RelPatternView, RemoveItemView, SetItemView, SortItemView, UnwindClauseView,
};
use crate::bind::bound::{
    self, BoundClauseView, BoundExprView, BoundNodePatternView, BoundPathPatternView,
    BoundProjectionItemView, BoundProjectionView, BoundQueryView, BoundRelPatternView,
    BoundRemoveItemView, BoundSetItemView, EntityKind, ProcedureDefView, VarId,
};
use crate::bind::error::BindErrorView;
use crate::bind::grouping::{self, RefErrorMode, RefRule};
use crate::bind::rules::{self, BindMode, Bindings, ExprCtx, Lowered, Setting};
use crate::bind::subtrees;
use crate::names;
use crate::span::{self, Span};

verus! {

// --- SET and REMOVE ---------------------------------------------------------------------------------

/// Resolves a `SET`/`REMOVE` target. It must be in scope and denote an entity: a
/// node, a relationship (only when `allow_rel`), or a dynamically typed value.
pub open spec fn target_of(name: Seq<char>, span: Span, allow_rel: bool, b: Bindings) -> Result<
    VarId,
    BindErrorView,
> {
    match b.seen(name) {
        None => Err(BindErrorView::UndefinedVariable { name, span }),
        Some(id) => {
            let kind = b.kind_of(id);
            if kind == EntityKind::Node || kind == EntityKind::Value || (kind
                == EntityKind::Relationship && allow_rel) {
                Ok(id)
            } else {
                Err(
                    BindErrorView::VariableTypeConflict {
                        name,
                        expected: if allow_rel {
                            "node or relationship"@
                        } else {
                            bound::kind_name(EntityKind::Node)
                        },
                        actual: bound::kind_name(kind),
                        span,
                    },
                )
            }
        },
    }
}

/// The error of touching a key property of one of `labels` from `i` on.
pub open spec fn key_touched(
    labels: Seq<Seq<char>>,
    i: int,
    property: Seq<char>,
    span: Span,
    st: Setting,
) -> Option<BindErrorView>
    decreases labels.len() - i,
{
    if st.mode != BindMode::Strict || i < 0 || i >= labels.len() {
        None
    } else if st.catalogue.is_key_property(labels[i], property) {
        Some(BindErrorView::SetKeyProperty { label: labels[i], property, span })
    } else {
        key_touched(labels, i + 1, property, span, st)
    }
}

/// As [`key_touched`], for any of `entries` from `k` on.
pub open spec fn key_in_entries(
    entries: Seq<(Seq<char>, ExprView)>,
    k: int,
    labels: Seq<Seq<char>>,
    span: Span,
    st: Setting,
) -> Option<BindErrorView>
    decreases entries.len() - k,
{
    if k < 0 || k >= entries.len() {
        None
    } else {
        match key_touched(labels, 0, entries[k].0, span, st) {
            Some(e) => Some(e),
            None => key_in_entries(entries, k + 1, labels, span, st),
        }
    }
}

/// As [`key_in_entries`], for the right side of `+=`; a parameter carries no
/// names.
pub open spec fn key_merged(
    value: ExprView,
    labels: Seq<Seq<char>>,
    span: Span,
    st: Setting,
) -> Option<
    BindErrorView,
> {
    match value {
        ExprView::MapLiteral { entries, .. } => key_in_entries(entries, 0, labels, span, st),
        _ => None,
    }
}

/// The error of replacing all properties where one of `labels` from `i` on has a
/// key.
pub open spec fn key_replaced(labels: Seq<Seq<char>>, i: int, span: Span, st: Setting) -> Option<
    BindErrorView,
>
    decreases labels.len() - i,
{
    if st.mode != BindMode::Strict || i < 0 || i >= labels.len() {
        None
    } else {
        match st.catalogue.label(labels[i]) {
            Some(def) => if def.key@.len() > 0 {
                Some(
                    BindErrorView::SetKeyProperty {
                        label: labels[i],
                        property: def.key@[0]@,
                        span,
                    },
                )
            } else {
                key_replaced(labels, i + 1, span, st)
            },
            None => key_replaced(labels, i + 1, span, st),
        }
    }
}

/// Binds one `SET` item.
#[verifier::opaque]
pub open spec fn set_item_bound(item: SetItemView, b: Bindings, st: Setting) -> Lowered<
    BoundSetItemView,
> {
    match item {
        SetItemView::Property { var, key, value, span } => {
            match target_of(var, span, true, b) {
                Err(e) => Err(e),
                Ok(target) => {
                    match key_touched(b.labels_of(target), 0, key, span, st) {
                        Some(e) => Err(e),
                        None => {
                            match rules::expr_bound(value, rules::no_aggregates(), b, st) {
                                Err(e) => Err(e),
                                Ok((value, b)) => {
                                    Ok((BoundSetItemView::Property { target, key, value, span }, b))
                                },
                            }
                        },
                    }
                },
            }
        },
        SetItemView::Replace { var, value, span } => {
            match target_of(var, span, true, b) {
                Err(e) => Err(e),
                Ok(target) => {
                    match key_replaced(b.labels_of(target), 0, span, st) {
                        Some(e) => Err(e),
                        None => {
                            match rules::expr_bound(value, rules::no_aggregates(), b, st) {
                                Err(e) => Err(e),
                                Ok((value, b)) => {
                                    Ok((BoundSetItemView::Replace { target, value, span }, b))
                                },
                            }
                        },
                    }
                },
            }
        },
        SetItemView::Merge { var, value, span } => {
            match target_of(var, span, true, b) {
                Err(e) => Err(e),
                Ok(target) => {
                    match key_merged(value, b.labels_of(target), span, st) {
                        Some(e) => Err(e),
                        None => {
                            match rules::expr_bound(value, rules::no_aggregates(), b, st) {
                                Err(e) => Err(e),
                                Ok((value, b)) => {
                                    Ok((BoundSetItemView::Merge { target, value, span }, b))
                                },
                            }
                        },
                    }
                },
            }
        },
        SetItemView::AddLabels { var, labels, span } => {
            match target_of(var, span, false, b) {
                Err(e) => Err(e),
                Ok(target) => {
                    match rules::undeclared_label(labels, 0, span, st) {
                        Some(e) => Err(e),
                        None => {
                            Ok((BoundSetItemView::AddLabels { target, labels, span }, b))
                        },
                    }
                },
            }
        },
    }
}

/// Binds the `SET` items from `i` on, behind those bound so far.
#[verifier::opaque]
pub open spec fn set_items_bound(
    items: Seq<SetItemView>,
    i: int,
    b: Bindings,
    st: Setting,
    out: Seq<BoundSetItemView>,
) -> Lowered<Seq<BoundSetItemView>>
    decreases items.len() - i,
{
    if i < 0 || i >= items.len() {
        Ok((out, b))
    } else {
        match set_item_bound(items[i], b, st) {
            Err(e) => Err(e),
            Ok((item, b)) => {
                set_items_bound(items, i + 1, b, st, out.push(item))
            },
        }
    }
}

/// Binds one `REMOVE` item.
pub open spec fn remove_item_bound(item: RemoveItemView, b: Bindings, st: Setting) -> Result<
    BoundRemoveItemView,
    BindErrorView,
> {
    match item {
        RemoveItemView::Property { var, key, span } => {
            match target_of(var, span, true, b) {
                Err(e) => Err(e),
                Ok(target) => {
                    match key_touched(b.labels_of(target), 0, key, span, st) {
                        Some(e) => Err(e),
                        None => {
                            Ok(BoundRemoveItemView::Property { target, key, span })
                        },
                    }
                },
            }
        },
        RemoveItemView::Labels { var, labels, span } => {
            match target_of(var, span, false, b) {
                Err(e) => Err(e),
                Ok(target) => {
                    Ok(BoundRemoveItemView::Labels { target, labels, span })
                },
            }
        },
    }
}

/// Binds the `REMOVE` items from `i` on, behind those bound so far.
#[verifier::opaque]
pub open spec fn remove_items_bound(
    items: Seq<RemoveItemView>,
    i: int,
    b: Bindings,
    st: Setting,
    out: Seq<BoundRemoveItemView>,
) -> Result<Seq<BoundRemoveItemView>, BindErrorView>
    decreases items.len() - i,
{
    if i < 0 || i >= items.len() {
        Ok(out)
    } else {
        match remove_item_bound(items[i], b, st) {
            Err(e) => Err(e),
            Ok(item) => {
                remove_items_bound(items, i + 1, b, st, out.push(item))
            },
        }
    }
}

// --- CREATE and MERGE -------------------------------------------------------------------------------

/// Binds a node position of `CREATE`. An already-bound variable is referenced,
/// and then carries no labels or properties: that would be a `SET`.
#[verifier::opaque]
pub open spec fn new_node_bound(node: NodePatternView, b: Bindings, st: Setting) -> Lowered<
    BoundNodePatternView,
> {
    let refers = match node.variable {
        Some(name) => b.seen(name) is Some,
        None => false,
    };
    if refers && (node.labels.len() > 0 || node.properties is Some) {
        Err(
            BindErrorView::CreateBoundNodeWithProperties {
                name: node.variable->0,
                span: node.span,
            },
        )
    } else {
        rules::node_bound(node, true, b, st)
    }
}

/// Binds the variable of a created relationship: it is always a new one.
pub open spec fn new_rel_var_bound(rel: RelPatternView, b: Bindings) -> Lowered<Option<VarId>> {
    match rel.variable {
        None => Ok((None, b)),
        Some(name) => if b.seen(name) is Some {
            Err(BindErrorView::VariableAlreadyBound { name, span: rel.span })
        } else {
            Ok((Some(b.next_id()), b.declared(name, EntityKind::Relationship, seq![])))
        },
    }
}

/// The error of a created relationship's type, unless creating it declares it.
pub open spec fn created_type_error(rel: RelPatternView, b: Bindings, st: Setting) -> Option<
    BindErrorView,
> {
    if st.autodeclare {
        None
    } else {
        rules::undeclared_type(rel.types, 0, rel.span, b, st)
    }
}

/// Binds a relationship of `CREATE`: directed, with exactly one type, of one
/// hop.
#[verifier::opaque]
pub open spec fn new_rel_bound(rel: RelPatternView, b: Bindings, st: Setting) -> Lowered<
    BoundRelPatternView,
> {
    if rel.var_length is Some {
        Err(BindErrorView::CreateVarLengthRelationship { span: rel.span })
    } else if rel.direction == Direction::Undirected {
        Err(BindErrorView::CreateRequiresDirectedRelationship { span: rel.span })
    } else if rel.types.len() == 0 {
        Err(BindErrorView::CreateRequiresRelType { span: rel.span })
    } else if rel.types.len() != 1 {
        Err(BindErrorView::CreateRequiresSingleRelType { span: rel.span })
    } else {
        match created_type_error(rel, b, st) {
            Some(e) => Err(e),
            None => {
                match new_rel_var_bound(rel, b.coining(rel.types[0], st)) {
                    Err(e) => Err(e),
                    Ok((var, b)) => {
                        match rules::properties_bound(rel.properties, b, st) {
                            Err(e) => Err(e),
                            Ok((properties, b)) => {
                                Ok((rules::rel_with(rel, var, properties), b))
                            },
                        }
                    },
                }
            },
        }
    }
}

/// Binds the steps of a created path from `i` on, behind those bound so far.
#[verifier::opaque]
pub open spec fn new_steps_bound(
    steps: Seq<(RelPatternView, NodePatternView)>,
    i: int,
    b: Bindings,
    st: Setting,
    out: Seq<(BoundRelPatternView, BoundNodePatternView)>,
) -> Lowered<Seq<(BoundRelPatternView, BoundNodePatternView)>>
    decreases steps.len() - i,
{
    if i < 0 || i >= steps.len() {
        Ok((out, b))
    } else {
        match new_rel_bound(steps[i].0, b, st) {
            Err(e) => Err(e),
            Ok((rel, b)) => {
                match new_node_bound(steps[i].1, b, st) {
                    Err(e) => Err(e),
                    Ok((node, b)) => {
                        new_steps_bound(steps, i + 1, b, st, out.push((rel, node)))
                    },
                }
            },
        }
    }
}

/// Binds a path of `CREATE` or `MERGE`.
#[verifier::opaque]
pub open spec fn new_path_bound(p: PathPatternView, b: Bindings, st: Setting) -> Lowered<
    BoundPathPatternView,
> {
    match rules::path_var_bound(p.variable, true, p.span, b) {
        Err(e) => Err(e),
        Ok((path_var, b)) => {
            match new_node_bound(p.start, b, st) {
                Err(e) => Err(e),
                Ok((start, b)) => {
                    match new_steps_bound(p.steps, 0, b, st, seq![]) {
                        Err(e) => Err(e),
                        Ok((steps, b)) => {
                            Ok((BoundPathPatternView { path_var, start, steps, span: p.span }, b))
                        },
                    }
                },
            }
        },
    }
}

/// Binds the paths of `CREATE` from `i` on, behind those bound so far.
#[verifier::opaque]
pub open spec fn new_paths_bound(
    patterns: Seq<PathPatternView>,
    i: int,
    b: Bindings,
    st: Setting,
    out: Seq<BoundPathPatternView>,
) -> Lowered<Seq<BoundPathPatternView>>
    decreases patterns.len() - i,
{
    if i < 0 || i >= patterns.len() {
        Ok((out, b))
    } else {
        match new_path_bound(patterns[i], b, st) {
            Err(e) => Err(e),
            Ok((p, b)) => {
                new_paths_bound(patterns, i + 1, b, st, out.push(p))
            },
        }
    }
}

// --- MATCH and CALL ---------------------------------------------------------------------------------

/// Binds the patterns of `MATCH` from `i` on, behind those bound so far.
#[verifier::opaque]
pub open spec fn paths_bound(
    patterns: Seq<PathPatternView>,
    i: int,
    b: Bindings,
    st: Setting,
    out: Seq<BoundPathPatternView>,
) -> Lowered<Seq<BoundPathPatternView>>
    decreases patterns.len() - i,
{
    if i < 0 || i >= patterns.len() {
        Ok((out, b))
    } else {
        match rules::pattern_bound(patterns[i], true, b, st) {
            Err(e) => Err(e),
            Ok((p, b)) => {
                paths_bound(patterns, i + 1, b, st, out.push(p))
            },
        }
    }
}

/// Binds an expression of a clause that may be absent.
pub open spec fn optional_bound(e: Option<ExprView>, b: Bindings, st: Setting) -> Lowered<
    Option<BoundExprView>,
> {
    rules::properties_bound(e, b, st)
}

/// Whether a column is yielded already.
pub open spec fn yields_column(out: Seq<(Seq<char>, VarId)>, column: Seq<char>) -> bool {
    exists|i: int| 0 <= i < out.len() && (#[trigger] out[i]).0 == column
}

/// Binds the yielded columns from `i` on, behind those bound so far. A column
/// cannot shadow a bound name nor repeat.
#[verifier::opaque]
pub open spec fn yields_bound(
    columns: Seq<Seq<char>>,
    i: int,
    def: ProcedureDefView,
    name: Seq<char>,
    span: Span,
    b: Bindings,
    out: Seq<(Seq<char>, VarId)>,
) -> Lowered<Seq<(Seq<char>, VarId)>>
    decreases columns.len() - i,
{
    if i < 0 || i >= columns.len() {
        Ok((out, b))
    } else if !def.yields.contains(columns[i]) {
        Err(BindErrorView::UnknownYieldColumn { procedure: name, column: columns[i], span })
    } else if b.seen(columns[i]) is Some || yields_column(out, columns[i]) {
        Err(BindErrorView::VariableAlreadyBound { name: columns[i], span })
    } else {
        yields_bound(
            columns,
            i + 1,
            def,
            name,
            span,
            b.declared(columns[i], EntityKind::Value, seq![]),
            out.push((columns[i], b.next_id())),
        )
    }
}

/// A variable, not visible, for each of the columns from `i` on, behind those
/// there are so far.
pub open spec fn unnamed_yields(
    columns: Seq<Seq<char>>,
    i: int,
    b: Bindings,
    out: Seq<(Seq<char>, VarId)>,
) -> Lowered<Seq<(Seq<char>, VarId)>>
    decreases columns.len() - i,
{
    if i < 0 || i >= columns.len() {
        Ok((out, b))
    } else {
        unnamed_yields(
            columns,
            i + 1,
            b.with_variable(columns[i], EntityKind::Value, seq![]),
            out.push((columns[i], b.next_id())),
        )
    }
}

/// The columns that a `CALL` yields: those it names, or, where it names none and
/// ends the query, all that the procedure declares.
pub open spec fn all_yields_bound(
    c: CallClauseView,
    last: bool,
    def: ProcedureDefView,
    name: Seq<char>,
    b: Bindings,
) -> Lowered<Seq<(Seq<char>, VarId)>> {
    if last && c.yield_items.len() == 0 {
        unnamed_yields(def.yields, 0, b, seq![])
    } else {
        yields_bound(c.yield_items, 0, def, name, c.span, b, seq![])
    }
}

/// Binds a `CALL`.
#[verifier::opaque]
pub open spec fn call_clause_bound(
    c: CallClauseView,
    last: bool,
    b: Bindings,
    st: Setting,
) -> Lowered<
    BoundClauseView,
> {
    let name = rules::dotted(c.procedure, c.procedure.len());
    match bound::procedure_named(name, 0) {
        None => Err(BindErrorView::ProcedureNotFound { name, span: c.span }),
        Some(def) => if c.args.len() < def.min_args || c.args.len() > def.max_args {
            Err(
                BindErrorView::InvalidNumberOfArguments {
                    name,
                    expected: rules::arity_text(def.min_args, def.max_args),
                    got: c.args.len() as usize,
                    span: c.span,
                },
            )
        } else {
            match rules::exprs_bound(c.args, 0, rules::no_aggregates(), b, st, seq![]) {
                Err(e) => Err(e),
                Ok((args, b)) => {
                    match all_yields_bound(c, last, def, name, b) {
                        Err(e) => Err(e),
                        Ok((yields, b)) => {
                            match optional_bound(c.where_clause, b, st) {
                                Err(e) => Err(e),
                                Ok((where_clause, b)) => {
                                    Ok(
                                        (
                                            BoundClauseView::Call {
                                                procedure: def,
                                                args,
                                                yields,
                                                where_clause,
                                                span: c.span,
                                            },
                                            b,
                                        ),
                                    )
                                },
                            }
                        },
                    }
                },
            }
        },
    }
}

// --- WITH and RETURN --------------------------------------------------------------------------------

/// A projection item whose variable is not declared yet.
pub struct Draft {
    pub expr: BoundExprView,
    pub name: Seq<char>,
    pub span: Span,
}

/// The items that `*` stands for: every visible variable, by name.
pub open spec fn star_items(scope: Seq<(Seq<char>, VarId)>, span: Span) -> Seq<Draft> {
    Seq::new(
        scope.len(),
        |i: int|
        Draft {
            expr: BoundExprView::Variable { id: scope[i].1, span },
            name: scope[i].0,
            span,
        },
    )
}

/// The name of a projected column: its alias, or the text of the expression.
pub open spec fn column_name(expr: ExprView, alias: Option<Seq<char>>, st: Setting) -> Seq<char> {
    match alias {
        Some(name) => name,
        None => span::text_between(
            st.source,
            expr.place().start as nat,
            expr.place().end as nat,
        ),
    }
}

/// Binds the items from `i` on in the scope before the projection, behind those
/// bound so far. `WITH` requires an alias unless the item is a plain variable.
#[verifier::opaque]
pub open spec fn items_bound(
    items: Seq<ProjectionItemView>,
    i: int,
    is_with: bool,
    b: Bindings,
    st: Setting,
    out: Seq<Draft>,
) -> Lowered<Seq<Draft>>
    decreases items.len() - i,
{
    if i < 0 || i >= items.len() {
        Ok((out, b))
    } else {
        match items[i] {
            ProjectionItemView::Star { span } => if b.scope.len() == 0 {
                Err(BindErrorView::NoVariablesInScope { span })
            } else {
                items_bound(items, i + 1, is_with, b, st, out + star_items(b.scope, span))
            },
            ProjectionItemView::Expr { expr, alias, span } => if alias is None && is_with
            && !(expr is Variable) {
                Err(BindErrorView::NoExpressionAlias { span })
            } else {
                match rules::expr_bound(expr, rules::aggregates_ok(), b, st) {
                    Err(e) => Err(e),
                    Ok((bound, b)) => {
                        let draft = Draft { expr: bound, name: column_name(expr, alias, st), span };
                        items_bound(items, i + 1, is_with, b, st, out.push(draft))
                    },
                }
            },
        }
    }
}

/// Whether one of the first `n` items has a name.
pub open spec fn named_before(items: Seq<Draft>, n: int, name: Seq<char>) -> bool {
    exists|i: int| 0 <= i < n && (#[trigger] items[i]).name == name
}

/// The error of the first item from `i` on whose name an earlier one has.
pub open spec fn name_conflict(items: Seq<Draft>, i: int) -> Option<BindErrorView>
    decreases items.len() - i,
{
    if i < 0 || i >= items.len() {
        None
    } else if named_before(items, i, items[i].name) {
        Some(BindErrorView::ColumnNameConflict { name: items[i].name, span: items[i].span })
    } else {
        name_conflict(items, i + 1)
    }
}

/// Whether one of the first `n` items aggregates.
pub open spec fn aggregates(items: Seq<Draft>, n: nat) -> bool
    decreases n,
{
    if n == 0 || n > items.len() {
        false
    } else {
        aggregates(items, (n - 1) as nat) || subtrees::has_aggregate(items[n - 1].expr)
    }
}

/// The indices of those of the first `n` items that do not aggregate.
pub open spec fn grouping_indices(items: Seq<Draft>, n: nat) -> Seq<usize>
    decreases n,
{
    if n == 0 || n > items.len() {
        seq![]
    } else {
        let before = grouping_indices(items, (n - 1) as nat);
        if subtrees::has_aggregate(items[n - 1].expr) {
            before
        } else {
            before.push((n - 1) as usize)
        }
    }
}

/// Those of the first `n` items that are references' targets: all of them, or,
/// where `plain`, those that do not aggregate.
pub open spec fn targets(items: Seq<Draft>, n: nat, plain: bool) -> Seq<BoundExprView>
    decreases n,
{
    if n == 0 || n > items.len() {
        seq![]
    } else {
        let before = targets(items, (n - 1) as nat, plain);
        if plain && subtrees::has_aggregate(items[n - 1].expr) {
            before
        } else {
            before.push(items[n - 1].expr)
        }
    }
}

/// The error of the first aggregating item from `i` on that refers to what is no
/// grouping key.
pub open spec fn mixture(items: Seq<Draft>, i: int, b: Bindings) -> Option<BindErrorView>
    decreases items.len() - i,
{
    if i < 0 || i >= items.len() {
        None
    } else {
        let rule = RefRule {
            keys: targets(items, items.len(), true),
            outputs: seq![],
            mode: RefErrorMode::Ambiguous,
            span: items[i].span,
            variables: b.variables,
        };
        let bad = if subtrees::has_aggregate(items[i].expr) {
            grouping::bad_ref(items[i].expr, rule, seq![])
        } else {
            None
        };
        match bad {
            Some(e) => Some(e),
            None => mixture(items, i + 1, b),
        }
    }
}

/// The kind that a projected variable has: a plain variable keeps its own.
pub open spec fn projected_kind(e: BoundExprView, b: Bindings) -> EntityKind {
    match e {
        BoundExprView::Variable { id, .. } => b.kind_of(id),
        _ => EntityKind::Value,
    }
}

/// The labels that a projected variable has: a plain variable keeps its own.
pub open spec fn projected_labels(e: BoundExprView, b: Bindings) -> Seq<Seq<char>> {
    match e {
        BoundExprView::Variable { id, .. } => b.labels_of(id),
        _ => seq![],
    }
}

/// Items with their variables, the bindings with those variables, and the scope
/// of the projected names.
pub struct Projected {
    pub items: Seq<BoundProjectionItemView>,
    pub bindings: Bindings,
    pub scope: Seq<(Seq<char>, VarId)>,
}

/// Declares a variable for each of the first `n` items; none of them is visible
/// yet.
#[verifier::opaque]
pub open spec fn items_declared(items: Seq<Draft>, n: nat, b: Bindings) -> Projected
    decreases n,
{
    if n == 0 || n > items.len() {
        Projected { items: seq![], bindings: b, scope: seq![] }
    } else {
        let before = items_declared(items, (n - 1) as nat, b);
        let d = items[n - 1];
        let id = before.bindings.next_id();
        Projected {
            items: before.items.push(
                BoundProjectionItemView { expr: d.expr, name: d.name, var: id, span: d.span },
            ),
            bindings: before.bindings.with_variable(
                d.name,
                projected_kind(d.expr, before.bindings),
                projected_labels(d.expr, before.bindings),
            ),
            scope: names::bound_in(before.scope, d.name, id),
        }
    }
}

/// `scope` with the first `n` names of `more` in place of its own.
pub open spec fn united(
    scope: Seq<(Seq<char>, VarId)>,
    more: Seq<(Seq<char>, VarId)>,
    n: nat,
) -> Seq<(Seq<char>, VarId)>
    decreases n,
{
    if n == 0 || n > more.len() {
        scope
    } else {
        names::bound_in(united(scope, more, (n - 1) as nat), more[n - 1].0, more[n - 1].1)
    }
}

/// Binds the sort items from `i` on, behind those bound so far.
#[verifier::opaque]
pub open spec fn sorts_bound(
    sorts: Seq<SortItemView>,
    i: int,
    ctx: ExprCtx,
    b: Bindings,
    st: Setting,
    out: Seq<(BoundExprView, bool)>,
) -> Lowered<Seq<(BoundExprView, bool)>>
    decreases sorts.len() - i,
{
    if i < 0 || i >= sorts.len() {
        Ok((out, b))
    } else {
        match rules::expr_bound(sorts[i].expr, ctx, b, st) {
            Err(e) => Err(e),
            Ok((x, b)) => {
                sorts_bound(sorts, i + 1, ctx, b, st, out.push((x, sorts[i].descending)))
            },
        }
    }
}

/// The ids that a scope shows.
pub open spec fn ids_in(scope: Seq<(Seq<char>, VarId)>) -> Seq<u32> {
    Seq::new(scope.len(), |i: int| scope[i].1.0)
}

/// The error of the first sort item from `i` on that does not reduce to what is
/// projected.
pub open spec fn unreduced(order_by: Seq<(BoundExprView, bool)>, i: int, rule: RefRule) -> Option<
    BindErrorView,
>
    decreases order_by.len() - i,
{
    if i < 0 || i >= order_by.len() {
        None
    } else {
        match grouping::bad_ref(order_by[i].0, rule, seq![]) {
            Some(e) => Some(e),
            None => unreduced(order_by, i + 1, rule),
        }
    }
}

/// The check of `ORDER BY`: after `DISTINCT` or aggregation it may refer to what
/// is projected only.
#[verifier::opaque]
pub open spec fn order_checked(
    order_by: Seq<(BoundExprView, bool)>,
    drafts: Seq<Draft>,
    scope: Seq<(Seq<char>, VarId)>,
    p: ProjectionView,
    b: Bindings,
) -> Option<BindErrorView> {
    let aggregating = aggregates(drafts, drafts.len());
    if p.distinct || aggregating {
        unreduced(
            order_by,
            0,
            RefRule {
                keys: targets(drafts, drafts.len(), aggregating),
                outputs: ids_in(scope),
                mode: RefErrorMode::Undefined,
                span: p.span,
                variables: b.variables,
            },
        )
    } else {
        None
    }
}

/// The check of the items: names are unique, and what stands beside an aggregate
/// refers to grouping keys.
#[verifier::opaque]
pub open spec fn items_checked(drafts: Seq<Draft>, b: Bindings) -> Option<BindErrorView> {
    match name_conflict(drafts, 0) {
        Some(e) => Some(e),
        None => if aggregates(drafts, drafts.len()) {
            mixture(drafts, 0, b)
        } else {
            None
        },
    }
}

/// What binding the items, `SKIP` and `LIMIT` of a projection comes to.
pub struct Drafted {
    pub drafts: Seq<Draft>,
    pub skip: Option<BoundExprView>,
    pub limit: Option<BoundExprView>,
}

/// Binds what sees the scope before a projection.
#[verifier::opaque]
pub open spec fn drafted(p: ProjectionView, is_with: bool, b: Bindings, st: Setting) -> Lowered<
    Drafted,
> {
    match items_bound(p.items, 0, is_with, b, st, seq![]) {
        Err(e) => Err(e),
        Ok((drafts, b)) => {
            match items_checked(drafts, b) {
                Some(e) => Err(e),
                None => {
                    match optional_bound(p.skip, b, st) {
                        Err(e) => Err(e),
                        Ok((skip, b)) => {
                            match optional_bound(p.limit, b, st) {
                                Err(e) => Err(e),
                                Ok((limit, b)) => {
                                    Ok((Drafted { drafts, skip, limit }, b))
                                },
                            }
                        },
                    }
                },
            }
        },
    }
}

/// What binding `ORDER BY` and `WHERE` of a projection comes to.
pub struct Ordered {
    pub order_by: Seq<(BoundExprView, bool)>,
    pub where_clause: Option<BoundExprView>,
}

/// Binds what sees the scope before a projection and the projected names.
#[verifier::opaque]
pub open spec fn ordered(
    p: ProjectionView,
    drafts: Seq<Draft>,
    scope: Seq<(Seq<char>, VarId)>,
    b: Bindings,
    st: Setting,
) -> Lowered<Ordered> {
    let ctx = if aggregates(drafts, drafts.len()) {
        rules::aggregates_ok()
    } else {
        rules::no_aggregates()
    };
    match sorts_bound(p.order_by, 0, ctx, b, st, seq![]) {
        Err(e) => Err(e),
        Ok((order_by, b)) => {
            match order_checked(order_by, drafts, scope, p, b) {
                Some(e) => Err(e),
                None => {
                    match optional_bound(p.where_clause, b, st) {
                        Err(e) => Err(e),
                        Ok((where_clause, b)) => {
                            Ok((Ordered { order_by, where_clause }, b))
                        },
                    }
                },
            }
        },
    }
}

/// Binds the body of `WITH` or `RETURN`. The items see the scope before it,
/// `ORDER BY` and `WHERE` that and the projected names; only the projected names
/// survive.
#[verifier::opaque]
pub open spec fn projection_bound(
    p: ProjectionView,
    is_with: bool,
    b: Bindings,
    st: Setting,
) -> Lowered<
    BoundProjectionView,
> {
    match drafted(p, is_with, b, st) {
        Err(e) => Err(e),
        Ok((d, b)) => {
            let made = items_declared(d.drafts, d.drafts.len(), b);
            let both = Bindings {
                variables: made.bindings.variables,
                scope: united(b.scope, made.scope, made.scope.len()),
                coined: made.bindings.coined,
            };
            match ordered(p, d.drafts, made.scope, both, st) {
                Err(e) => Err(e),
                Ok((o, b)) => {
                    Ok(
                        (
                            BoundProjectionView {
                                distinct: p.distinct,
                                items: made.items,
                                order_by: o.order_by,
                                skip: d.skip,
                                limit: d.limit,
                                where_clause: o.where_clause,
                                grouping_items: grouping_indices(d.drafts, d.drafts.len()),
                                aggregating: aggregates(d.drafts, d.drafts.len()),
                                span: p.span,
                            },
                            Bindings { scope: made.scope, ..b },
                        ),
                    )
                },
            }
        },
    }
}

// --- Queries ----------------------------------------------------------------------------------------

/// Binds a `MATCH`.
#[verifier::opaque]
pub open spec fn match_bound(m: MatchClauseView, b: Bindings, st: Setting) -> Lowered<
    BoundClauseView,
> {
    match paths_bound(m.patterns, 0, b, st, seq![]) {
        Err(e) => Err(e),
        Ok((patterns, b)) => {
            match optional_bound(m.where_clause, b, st) {
                Err(e) => Err(e),
                Ok((where_clause, b)) => {
                    Ok(
                        (
                            BoundClauseView::Match {
                                optional: m.optional,
                                patterns,
                                at_ref: m.at_ref,
                                where_clause,
                                span: m.span,
                            },
                            b,
                        ),
                    )
                },
            }
        },
    }
}

/// Binds an `UNWIND`, whose alias cannot shadow a bound name.
#[verifier::opaque]
pub open spec fn unwind_bound(u: UnwindClauseView, b: Bindings, st: Setting) -> Lowered<
    BoundClauseView,
> {
    match rules::expr_bound(u.expr, rules::no_aggregates(), b, st) {
        Err(e) => Err(e),
        Ok((expr, b)) => {
            if b.seen(u.alias) is Some {
                Err(BindErrorView::VariableAlreadyBound { name: u.alias, span: u.span })
            } else {
                Ok(
                    (
                        BoundClauseView::Unwind { expr, alias: b.next_id(), span: u.span },
                        b.declared(u.alias, EntityKind::Value, seq![]),
                    ),
                )
            }
        },
    }
}

/// Binds a `DELETE`.
#[verifier::opaque]
pub open spec fn delete_bound(d: DeleteClauseView, b: Bindings, st: Setting) -> Lowered<
    BoundClauseView,
> {
    match rules::exprs_bound(d.targets, 0, rules::no_aggregates(), b, st, seq![]) {
        Err(e) => Err(e),
        Ok((bound, b)) => {
            Ok((BoundClauseView::Delete { detach: d.detach, targets: bound, span: d.span }, b))
        },
    }
}

/// Binds a `MERGE`. Its pattern may be created, so it obeys the rules of
/// `CREATE`; its variables are then in scope for the actions.
#[verifier::opaque]
pub open spec fn merge_bound(m: MergeClauseView, b: Bindings, st: Setting) -> Lowered<
    BoundClauseView,
> {
    match new_path_bound(m.pattern, b, st) {
        Err(e) => Err(e),
        Ok((pattern, b)) => {
            match set_items_bound(m.on_create, 0, b, st, seq![]) {
                Err(e) => Err(e),
                Ok((on_create, b)) => {
                    match set_items_bound(m.on_match, 0, b, st, seq![]) {
                        Err(e) => Err(e),
                        Ok((on_match, b)) => {
                            Ok(
                                (
                                    BoundClauseView::Merge { pattern, on_create, on_match, span: m.span },
                                    b,
                                ),
                            )
                        },
                    }
                },
            }
        },
    }
}

/// Binds one clause. `last` says whether it ends the query.
#[verifier::opaque]
pub open spec fn clause_bound(c: ClauseView, last: bool, b: Bindings, st: Setting) -> Lowered<
    BoundClauseView,
> {
    match c {
        ClauseView::Match(m) => match_bound(m, b, st),
        ClauseView::Unwind(u) => unwind_bound(u, b, st),
        ClauseView::With(p) => {
            match projection_bound(p, true, b, st) {
                Err(e) => Err(e),
                Ok((projection, b)) => {
                    Ok((BoundClauseView::With(projection), b))
                },
            }
        },
        ClauseView::Return(p) => {
            match projection_bound(p, false, b, st) {
                Err(e) => Err(e),
                Ok((projection, b)) => {
                    Ok((BoundClauseView::Return(projection), b))
                },
            }
        },
        ClauseView::Call(call) => call_clause_bound(call, last, b, st),
        ClauseView::Create(create) => {
            match new_paths_bound(create.patterns, 0, b, st, seq![]) {
                Err(e) => Err(e),
                Ok((patterns, b)) => {
                    Ok((BoundClauseView::Create { patterns, span: create.span }, b))
                },
            }
        },
        ClauseView::SetItems(set) => {
            match set_items_bound(set.items, 0, b, st, seq![]) {
                Err(e) => Err(e),
                Ok((items, b)) => {
                    Ok((BoundClauseView::SetItems { items, span: set.span }, b))
                },
            }
        },
        ClauseView::Remove(remove) => {
            match remove_items_bound(remove.items, 0, b, st, seq![]) {
                Err(e) => Err(e),
                Ok(items) => {
                    Ok((BoundClauseView::Remove { items, span: remove.span }, b))
                },
            }
        },
        ClauseView::Delete(delete) => delete_bound(delete, b, st),
        ClauseView::Merge(merge) => merge_bound(merge, b, st),
    }
}

/// Binds the clauses from `i` on, behind those bound so far.
#[verifier::opaque]
pub open spec fn clauses_bound(
    clauses: Seq<ClauseView>,
    i: int,
    b: Bindings,
    st: Setting,
    out: Seq<BoundClauseView>,
) -> Lowered<Seq<BoundClauseView>>
    decreases clauses.len() - i,
{
    if i < 0 || i >= clauses.len() {
        Ok((out, b))
    } else {
        match clause_bound(clauses[i], i == clauses.len() - 1, b, st) {
            Err(e) => Err(e),
            Ok((c, b)) => {
                clauses_bound(clauses, i + 1, b, st, out.push(c))
            },
        }
    }
}

/// The relationship types that a query which binds declares itself, by name.
pub open spec fn types_coined(query: QueryView, st: Setting) -> Seq<Seq<char>> {
    match clauses_bound(query.clauses, 0, Bindings::none(), st, seq![]) {
        Err(e) => seq![],
        Ok((_, b)) => names::names_of(b.coined),
    }
}

/// Binds a query.
pub open spec fn query_bound(query: QueryView, st: Setting) -> Result<
    BoundQueryView,
    BindErrorView,
> {
    match clauses_bound(query.clauses, 0, Bindings::none(), st, seq![]) {
        Err(e) => Err(e),
        Ok((clauses, b)) => {
            Ok(BoundQueryView { clauses, variables: b.variables })
        },
    }
}

} // verus!
