//! The binding rules: how the names of a query resolve, as functions from trees
//! to bound trees.

use vstd::prelude::*;
use vstd::string::*;

use crate::ast::{ExprView, Literal, NodePatternView, PathPatternView, RelPatternView};
use crate::bind::bound::{
    self, BoundExprView, BoundNodePatternView, BoundPathPatternView, BoundRelPatternView,
    EntityKind, IndexHintView, VarBindingView, VarId,
};
use crate::bind::catalogue::CatalogueView;
use crate::bind::error::BindErrorView;
use crate::names;
use crate::span::Span;
use crate::suggest;
use crate::text;

verus! {

/// How unknown labels, relationship types and properties are treated.
#[derive(Debug, Clone, Copy, PartialEq, Eq, Structural)]
pub enum BindMode {
    /// Workbench default: the schema map is authoritative, so a label or
    /// relationship type it does not declare is a precise error, and a property
    /// undeclared by a label that declares a shape is too.
    Strict,
    /// Schema-free binding: unknown labels and types bind as
    /// valid-but-undeclared (openCypher read semantics, where matching an
    /// undeclared label simply yields nothing). Name/scope/aggregation rules
    /// still apply in full.
    Lenient,
}

/// Expression context: where aggregates may appear.
#[derive(Debug, Clone, Copy, PartialEq, Eq, Structural)]
pub struct ExprCtx {
    pub aggregates_allowed: bool,
    pub in_aggregate: bool,
}

/// Where no aggregate may appear.
pub open spec fn no_aggregates() -> ExprCtx {
    ExprCtx { aggregates_allowed: false, in_aggregate: false }
}

/// Where aggregates may appear.
pub open spec fn aggregates_ok() -> ExprCtx {
    ExprCtx { aggregates_allowed: true, in_aggregate: false }
}

/// What a query is bound against.
pub struct Setting {
    /// The query's text.
    pub source: Seq<char>,
    pub catalogue: CatalogueView,
    pub mode: BindMode,
    /// Whether creating a relationship declares its type.
    pub autodeclare: bool,
}

/// The variables declared so far, and which of them are visible under which
/// name.
pub struct Bindings {
    pub variables: Seq<VarBindingView>,
    pub scope: Seq<(Seq<char>, VarId)>,
    /// The relationship types that the query itself declares.
    pub coined: Seq<(Seq<char>, ())>,
}

/// What binding comes to: a bound tree and the bindings behind it.
pub type Lowered<V> = Result<(V, Bindings), BindErrorView>;

impl Bindings {
    pub open spec fn none() -> Bindings {
        Bindings { variables: seq![], scope: seq![], coined: seq![] }
    }

    /// The variable visible under a name.
    pub open spec fn seen(self, name: Seq<char>) -> Option<VarId> {
        names::found(self.scope, name)
    }

    /// The id of the next variable: ids are dense.
    pub open spec fn next_id(self) -> VarId {
        VarId(self.variables.len() as u32)
    }

    /// With one more variable, not visible.
    pub open spec fn with_variable(
        self,
        name: Seq<char>,
        kind: EntityKind,
        labels: Seq<Seq<char>>,
    ) -> Bindings {
        Bindings {
            variables: self.variables.push(
                VarBindingView { id: self.next_id(), name, kind, labels },
            ),
            ..self
        }
    }

    /// With one more variable, visible under its name.
    pub open spec fn declared(
        self,
        name: Seq<char>,
        kind: EntityKind,
        labels: Seq<Seq<char>>,
    ) -> Bindings {
        Bindings {
            scope: names::bound_in(self.scope, name, self.next_id()),
            ..self.with_variable(name, kind, labels)
        }
    }

    /// With a name as it was before a scoped subexpression.
    pub open spec fn restored(self, name: Seq<char>, before: Option<VarId>) -> Bindings {
        match before {
            Some(id) => Bindings { scope: names::bound_in(self.scope, name, id), ..self },
            None => Bindings { scope: names::dropped(self.scope, name), ..self },
        }
    }

    /// With a type that a created relationship declares, if it is not declared.
    pub open spec fn coining(self, name: Seq<char>, st: Setting) -> Bindings {
        if st.mode == BindMode::Strict && st.autodeclare && st.catalogue.rel_type(name) is None {
            Bindings { coined: names::bound_in(self.coined, name, ()), ..self }
        } else {
            self
        }
    }

    pub open spec fn kind_of(self, id: VarId) -> EntityKind {
        if id.0 < self.variables.len() {
            self.variables[id.0 as int].kind
        } else {
            EntityKind::Value
        }
    }

    pub open spec fn labels_of(self, id: VarId) -> Seq<Seq<char>> {
        if id.0 < self.variables.len() {
            self.variables[id.0 as int].labels
        } else {
            seq![]
        }
    }
}

// --- Against the schema -----------------------------------------------------------------------------

/// The error of a label that is not declared.
pub open spec fn unknown_label(name: Seq<char>, span: Span, st: Setting) -> BindErrorView {
    BindErrorView::UnknownLabel {
        name,
        span,
        suggestion: suggest::nearest_of(name, names::names_of(st.catalogue.labels)),
    }
}

/// The error of the first of `labels` from `i` on that is not declared.
pub open spec fn undeclared_label(
    labels: Seq<Seq<char>>,
    i: int,
    span: Span,
    st: Setting,
) -> Option<
    BindErrorView,
>
    decreases labels.len() - i,
{
    if st.mode != BindMode::Strict || i < 0 || i >= labels.len() {
        None
    } else if st.catalogue.label(labels[i]) is None {
        Some(unknown_label(labels[i], span, st))
    } else {
        undeclared_label(labels, i + 1, span, st)
    }
}

/// The error of the first of `types` from `i` on that is declared neither by the
/// schema nor by the query before.
pub open spec fn undeclared_type(
    types: Seq<Seq<char>>,
    i: int,
    span: Span,
    b: Bindings,
    st: Setting,
) -> Option<BindErrorView>
    decreases types.len() - i,
{
    if st.mode != BindMode::Strict || i < 0 || i >= types.len() {
        None
    } else if st.catalogue.rel_type(types[i]) is None && names::found(b.coined, types[i]) is None {
        Some(
            BindErrorView::UnknownRelType {
                name: types[i],
                declare_cmd: text::quoted(types[i]),
                span,
                suggestion: suggest::nearest_of(types[i], names::names_of(st.catalogue.rel_types)),
            },
        )
    } else {
        undeclared_type(types, i + 1, span, b, st)
    }
}

/// Whether one of `labels` declares a property.
pub open spec fn any_declares(labels: Seq<Seq<char>>, property: Seq<char>, st: Setting) -> bool {
    exists|i: int|
    0 <= i < labels.len() && st.catalogue.declares_property(#[trigger] labels[i], property)
}

/// The first of `labels` from `i` on that declares types.
pub open spec fn first_shaped(labels: Seq<Seq<char>>, i: int, st: Setting) -> Option<Seq<char>>
    decreases labels.len() - i,
{
    if i < 0 || i >= labels.len() {
        None
    } else if st.catalogue.is_shaped(labels[i]) {
        Some(labels[i])
    } else {
        first_shaped(labels, i + 1, st)
    }
}

/// The error of the first of `entries` from `i` on whose name no label of the
/// pattern declares, where one of them declares types.
pub open spec fn undeclared_property(
    entries: Seq<(Seq<char>, ExprView)>,
    i: int,
    labels: Seq<Seq<char>>,
    span: Span,
    st: Setting,
) -> Option<BindErrorView>
    decreases entries.len() - i,
{
    if st.mode != BindMode::Strict || i < 0 || i >= entries.len() {
        None
    } else if any_declares(labels, entries[i].0, st) {
        undeclared_property(entries, i + 1, labels, span, st)
    } else {
        match first_shaped(labels, 0, st) {
            Some(label) => Some(
                BindErrorView::UnknownProperty {
                    label,
                    property: entries[i].0,
                    span,
                    suggestion: suggest::nearest_of(
                        entries[i].0,
                        st.catalogue.property_names(label),
                    ),
                },
            ),
            None => undeclared_property(entries, i + 1, labels, span, st),
        }
    }
}

/// As [`undeclared_property`], for a pattern's properties; a parameter carries
/// no names.
pub open spec fn undeclared_in(
    properties: Option<ExprView>,
    labels: Seq<Seq<char>>,
    st: Setting,
) -> Option<BindErrorView> {
    match properties {
        Some(ExprView::MapLiteral { entries, span }) => undeclared_property(
            entries,
            0,
            labels,
            span,
            st,
        ),
        _ => None,
    }
}

/// Whether a value is constant: a literal or a parameter.
pub open spec fn is_constant(e: ExprView) -> bool {
    e is Literal || e is Parameter
}

/// Whether one of `entries` from `i` on pins the leading key property.
pub open spec fn pins_key(
    entries: Seq<(Seq<char>, ExprView)>,
    i: int,
    label: Seq<char>,
    st: Setting,
) -> bool
    decreases entries.len() - i,
{
    if i < 0 || i >= entries.len() {
        false
    } else {
        (is_constant(entries[i].1) && st.catalogue.is_key_prefix(label, entries[i].0)) || pins_key(
            entries,
            i + 1,
            label,
            st,
        )
    }
}

/// The first of `entries` from `i` on that pins an indexed property.
pub open spec fn pinned_index(
    entries: Seq<(Seq<char>, ExprView)>,
    i: int,
    label: Seq<char>,
    st: Setting,
) -> Option<IndexHintView>
    decreases entries.len() - i,
{
    if i < 0 || i >= entries.len() {
        None
    } else {
        let covering = if is_constant(entries[i].1) {
            st.catalogue.index_on(label, entries[i].0)
        } else {
            None
        };
        match covering {
            Some((name, def)) => Some(
                IndexHintView::IndexSeek { name, label, property: entries[i].0 },
            ),
            None => pinned_index(entries, i + 1, label, st),
        }
    }
}

/// Planner hint: does the pattern's property map pin the leading key property
/// or an indexed property with a constant?
pub open spec fn hint_for(node: NodePatternView, st: Setting) -> Option<IndexHintView> {
    if node.labels.len() != 1 {
        None
    } else {
        match node.properties {
            Some(ExprView::MapLiteral { entries, .. }) => if pins_key(
                entries,
                0,
                node.labels[0],
                st,
            ) {
                Some(IndexHintView::KeySeek { label: node.labels[0] })
            } else {
                pinned_index(entries, 0, node.labels[0], st)
            },
            _ => None,
        }
    }
}

// --- Expressions ------------------------------------------------------------------------------------

/// The first `n` segments of a name, joined by dots.
pub open spec fn dotted(segments: Seq<Seq<char>>, n: nat) -> Seq<char>
    decreases n,
{
    if n == 0 || n > segments.len() {
        seq![]
    } else if n == 1 {
        segments[0]
    } else {
        dotted(segments, (n - 1) as nat) + "."@ + segments[n - 1]
    }
}

/// How many arguments are expected, in words.
pub open spec fn arity_text(min: usize, max: usize) -> Seq<char> {
    if max == usize::MAX {
        "at least "@ + text::decimal(min as nat)
    } else if min == max {
        text::decimal(min as nat)
    } else {
        text::decimal(min as nat) + ".."@ + text::decimal(max as nat)
    }
}

/// The names of the functions.
pub open spec fn known_functions() -> Seq<Seq<char>> {
    Seq::new(36, |i: int| bound::function_entry(i).name)
}

/// Binds an expression.
pub open spec fn expr_bound(e: ExprView, ctx: ExprCtx, b: Bindings, st: Setting) -> Lowered<
    BoundExprView,
>
    decreases e, 1int, 0int,
{
    match e {
        ExprView::Literal { value, span } => Ok((BoundExprView::Literal { value, span }, b)),
        ExprView::Parameter { name, span } => Ok((BoundExprView::Parameter { name, span }, b)),
        ExprView::Variable { name, span } => match b.seen(name) {
            Some(id) => Ok((BoundExprView::Variable { id, span }, b)),
            None => Err(BindErrorView::UndefinedVariable { name, span }),
        },
        ExprView::Property { base, key, span } => {
            match expr_bound(*base, ctx, b, st) {
                Err(e) => Err(e),
                Ok((x, b)) => {
                    Ok((BoundExprView::Property { base: Box::new(x), key, span }, b))
                },
            }
        },
        ExprView::Unary { op, operand, span } => {
            match expr_bound(*operand, ctx, b, st) {
                Err(e) => Err(e),
                Ok((x, b)) => {
                    Ok((BoundExprView::Unary { op, operand: Box::new(x), span }, b))
                },
            }
        },
        ExprView::Binary { op, lhs, rhs, span } => {
            match expr_bound(*lhs, ctx, b, st) {
                Err(e) => Err(e),
                Ok((x, b)) => {
                    match expr_bound(*rhs, ctx, b, st) {
                        Err(e) => Err(e),
                        Ok((y, b)) => {
                            Ok(
                                (
                                    BoundExprView::Binary { op, lhs: Box::new(x), rhs: Box::new(y), span },
                                    b,
                                ),
                            )
                        },
                    }
                },
            }
        },
        ExprView::IsNull { operand, negated, span } => {
            match expr_bound(*operand, ctx, b, st) {
                Err(e) => Err(e),
                Ok((x, b)) => {
                    Ok((BoundExprView::IsNull { operand: Box::new(x), negated, span }, b))
                },
            }
        },
        ExprView::FunctionCall { name, distinct, args, star, span } => call_bound(
            dotted(name, name.len()),
            distinct,
            args,
            star,
            span,
            ctx,
            b,
            st,
        ),
        ExprView::Case { operand, whens, else_expr, span } => {
            match boxed_bound(operand, ctx, b, st) {
                Err(e) => Err(e),
                Ok((x, b)) => {
                    match branches_bound(whens, 0, ctx, b, st, seq![]) {
                        Err(e) => Err(e),
                        Ok((bound, b)) => {
                            match boxed_bound(else_expr, ctx, b, st) {
                                Err(e) => Err(e),
                                Ok((y, b)) => {
                                    Ok(
                                        (
                                            BoundExprView::Case { operand: x, whens: bound, else_expr: y, span },
                                            b,
                                        ),
                                    )
                                },
                            }
                        },
                    }
                },
            }
        },
        ExprView::ListLiteral { items, span } => {
            match exprs_bound(items, 0, ctx, b, st, seq![]) {
                Err(e) => Err(e),
                Ok((bound, b)) => {
                    Ok((BoundExprView::ListLiteral { items: bound, span }, b))
                },
            }
        },
        ExprView::ListComprehension { variable, list, where_clause, map, span } => {
            match expr_bound(*list, ctx, b, st) {
                Err(e) => Err(e),
                Ok((x, b)) => {
                    // The comprehension variable shadows any outer binding for the
                    // where/map subexpressions, which run per element, outside any
                    // grouping.
                    let before = b.seen(variable);
                    let id = b.next_id();
                    let b = b.declared(variable, EntityKind::Value, seq![]);
                    match boxed_bound(where_clause, no_aggregates(), b, st) {
                        Err(e) => Err(e),
                        Ok((filter, b)) => {
                            match boxed_bound(map, no_aggregates(), b, st) {
                                Err(e) => Err(e),
                                Ok((mapped, b)) => {
                                    Ok(
                                        (
                                            BoundExprView::ListComprehension {
                                                variable: id,
                                                list: Box::new(x),
                                                where_clause: filter,
                                                map: mapped,
                                                span,
                                            },
                                            b.restored(variable, before),
                                        ),
                                    )
                                },
                            }
                        },
                    }
                },
            }
        },
        ExprView::Quantifier { kind, variable, list, predicate, span } => {
            match expr_bound(*list, ctx, b, st) {
                Err(e) => Err(e),
                Ok((x, b)) => {
                    let before = b.seen(variable);
                    let id = b.next_id();
                    let b = b.declared(variable, EntityKind::Value, seq![]);
                    match expr_bound(*predicate, no_aggregates(), b, st) {
                        Err(e) => Err(e),
                        Ok((p, b)) => {
                            Ok(
                                (
                                    BoundExprView::Quantifier {
                                        kind,
                                        variable: id,
                                        list: Box::new(x),
                                        predicate: Box::new(p),
                                        span,
                                    },
                                    b.restored(variable, before),
                                ),
                            )
                        },
                    }
                },
            }
        },
        ExprView::Reduce { accumulator, init, variable, list, expr, span } => {
            match expr_bound(*init, ctx, b, st) {
                Err(e) => Err(e),
                Ok((x, b)) => {
                    match expr_bound(*list, ctx, b, st) {
                        Err(e) => Err(e),
                        Ok((y, b)) => {
                            let outer = b.seen(accumulator);
                            let acc = b.next_id();
                            let b = b.declared(accumulator, EntityKind::Value, seq![]);
                            let before = b.seen(variable);
                            let id = b.next_id();
                            let b = b.declared(variable, EntityKind::Value, seq![]);
                            match expr_bound(*expr, no_aggregates(), b, st) {
                                Err(e) => Err(e),
                                Ok((body, b)) => {
                                    Ok(
                                        (
                                            BoundExprView::Reduce {
                                                accumulator: acc,
                                                init: Box::new(x),
                                                variable: id,
                                                list: Box::new(y),
                                                expr: Box::new(body),
                                                span,
                                            },
                                            b.restored(variable, before).restored(accumulator, outer),
                                        ),
                                    )
                                },
                            }
                        },
                    }
                },
            }
        },
        ExprView::MapLiteral { entries, span } => {
            match entries_bound(entries, 0, ctx, b, st, seq![]) {
                Err(e) => Err(e),
                Ok((bound, b)) => {
                    Ok((BoundExprView::MapLiteral { entries: bound, span }, b))
                },
            }
        },
        ExprView::Index { base, index, span } => {
            match expr_bound(*base, ctx, b, st) {
                Err(e) => Err(e),
                Ok((x, b)) => {
                    match expr_bound(*index, ctx, b, st) {
                        Err(e) => Err(e),
                        Ok((y, b)) => {
                            Ok(
                                (
                                    BoundExprView::Index { base: Box::new(x), index: Box::new(y), span },
                                    b,
                                ),
                            )
                        },
                    }
                },
            }
        },
        ExprView::Slice { base, from, to, span } => {
            match expr_bound(*base, ctx, b, st) {
                Err(e) => Err(e),
                Ok((x, b)) => {
                    match boxed_bound(from, ctx, b, st) {
                        Err(e) => Err(e),
                        Ok((y, b)) => {
                            match boxed_bound(to, ctx, b, st) {
                                Err(e) => Err(e),
                                Ok((z, b)) => {
                                    Ok(
                                        (
                                            BoundExprView::Slice { base: Box::new(x), from: y, to: z, span },
                                            b,
                                        ),
                                    )
                                },
                            }
                        },
                    }
                },
            }
        },
        ExprView::PatternPredicate { pattern, span } => {
            match pattern_bound(*pattern, false, b, st) {
                Err(e) => Err(e),
                Ok((p, b)) => {
                    Ok((BoundExprView::PatternPredicate { pattern: Box::new(p), span }, b))
                },
            }
        },
    }
}

/// Binds an expression that may be absent.
pub open spec fn boxed_bound(
    e: Option<Box<ExprView>>,
    ctx: ExprCtx,
    b: Bindings,
    st: Setting,
) -> Lowered<Option<Box<BoundExprView>>>
    decreases e, 0int, 0int,
{
    match e {
        Some(x) => {
            match expr_bound(*x, ctx, b, st) {
                Err(e) => Err(e),
                Ok((y, b)) => {
                    Ok((Some(Box::new(y)), b))
                },
            }
        },
        None => Ok((None, b)),
    }
}

/// Binds the expressions from `i` on, behind those bound so far.
pub open spec fn exprs_bound(
    items: Seq<ExprView>,
    i: int,
    ctx: ExprCtx,
    b: Bindings,
    st: Setting,
    out: Seq<BoundExprView>,
) -> Lowered<Seq<BoundExprView>>
    decreases items, 0int, items.len() - i,
{
    if i < 0 || i >= items.len() {
        Ok((out, b))
    } else {
        match expr_bound(items[i], ctx, b, st) {
            Err(e) => Err(e),
            Ok((x, b)) => {
                exprs_bound(items, i + 1, ctx, b, st, out.push(x))
            },
        }
    }
}

/// Binds the branches from `i` on, behind those bound so far.
pub open spec fn branches_bound(
    whens: Seq<(ExprView, ExprView)>,
    i: int,
    ctx: ExprCtx,
    b: Bindings,
    st: Setting,
    out: Seq<(BoundExprView, BoundExprView)>,
) -> Lowered<Seq<(BoundExprView, BoundExprView)>>
    decreases whens, 0int, whens.len() - i,
{
    if i < 0 || i >= whens.len() {
        Ok((out, b))
    } else {
        match expr_bound(whens[i].0, ctx, b, st) {
            Err(e) => Err(e),
            Ok((x, b)) => {
                match expr_bound(whens[i].1, ctx, b, st) {
                    Err(e) => Err(e),
                    Ok((y, b)) => {
                        branches_bound(whens, i + 1, ctx, b, st, out.push((x, y)))
                    },
                }
            },
        }
    }
}

/// Binds the entries from `i` on, behind those bound so far.
pub open spec fn entries_bound(
    entries: Seq<(Seq<char>, ExprView)>,
    i: int,
    ctx: ExprCtx,
    b: Bindings,
    st: Setting,
    out: Seq<(Seq<char>, BoundExprView)>,
) -> Lowered<Seq<(Seq<char>, BoundExprView)>>
    decreases entries, 0int, entries.len() - i,
{
    if i < 0 || i >= entries.len() {
        Ok((out, b))
    } else {
        match expr_bound(entries[i].1, ctx, b, st) {
            Err(e) => Err(e),
            Ok((x, b)) => {
                entries_bound(entries, i + 1, ctx, b, st, out.push((entries[i].0, x)))
            },
        }
    }
}

/// Binds a call of a function or an aggregate.
pub open spec fn call_bound(
    name: Seq<char>,
    distinct: bool,
    args: Seq<ExprView>,
    star: bool,
    span: Span,
    ctx: ExprCtx,
    b: Bindings,
    st: Setting,
) -> Lowered<BoundExprView>
    decreases args, 1int, 0int,
{
    match bound::aggregate_named(name, 0) {
        Some(def) => if !ctx.aggregates_allowed {
            Err(BindErrorView::InvalidAggregation { span })
        } else if ctx.in_aggregate {
            Err(BindErrorView::NestedAggregation { span })
        } else if star {
            if def.name != "count"@ {
                Err(
                    BindErrorView::InvalidNumberOfArguments { name, expected: "1"@, got: 0, span },
                )
            } else {
                Ok((BoundExprView::Aggregate { def, distinct, arg: None, span }, b))
            }
        } else if args.len() != 1 {
            Err(
                BindErrorView::InvalidNumberOfArguments {
                    name,
                    expected: "1"@,
                    got: args.len() as usize,
                    span,
                },
            )
        } else {
            match expr_bound(
                args[0],
                ExprCtx { aggregates_allowed: true, in_aggregate: true },
                b,
                st,
            ) {
                Err(e) => Err(e),
                Ok((x, b)) => {
                    Ok(
                        (
                            BoundExprView::Aggregate { def, distinct, arg: Some(Box::new(x)), span },
                            b,
                        ),
                    )
                },
            }
        },
        None => match bound::function_named(name, 0) {
            None => Err(
                BindErrorView::UnknownFunction {
                    name,
                    span,
                    suggestion: suggest::nearest_of(name, known_functions()),
                },
            ),
            Some(def) => if star || distinct {
                Err(BindErrorView::InvalidAggregation { span })
            } else if args.len() < def.min_args || args.len() > def.max_args {
                Err(
                    BindErrorView::InvalidNumberOfArguments {
                        name,
                        expected: arity_text(def.min_args, def.max_args),
                        got: args.len() as usize,
                        span,
                    },
                )
            } else {
                match exprs_bound(args, 0, ctx, b, st, seq![]) {
                    Err(e) => Err(e),
                    Ok((bound, b)) => {
                        Ok((BoundExprView::Function { def, args: bound, span }, b))
                    },
                }
            },
        },
    }
}

// --- Patterns ---------------------------------------------------------------------------------------

/// Binds the variable of a path: it is always a new one.
pub open spec fn path_var_bound(
    variable: Option<Seq<char>>,
    introduce: bool,
    span: Span,
    b: Bindings,
) -> Lowered<Option<VarId>> {
    match variable {
        None => Ok((None, b)),
        Some(name) => if b.seen(name) is Some {
            Err(BindErrorView::VariableAlreadyBound { name, span })
        } else if !introduce {
            Err(BindErrorView::NewVariableInPatternPredicate { name, span })
        } else {
            Ok((Some(b.next_id()), b.declared(name, EntityKind::Path, seq![])))
        },
    }
}

/// Binds a path pattern. A pattern predicate introduces no variables.
#[verifier::opaque]
pub open spec fn pattern_bound(
    p: PathPatternView,
    introduce: bool,
    b: Bindings,
    st: Setting,
) -> Lowered<
    BoundPathPatternView,
>
    decreases p, 0int, 0int,
{
    match path_var_bound(p.variable, introduce, p.span, b) {
        Err(e) => Err(e),
        Ok((path_var, b)) => {
            match node_bound(p.start, introduce, b, st) {
                Err(e) => Err(e),
                Ok((start, b)) => {
                    match steps_bound(p.steps, 0, introduce, b, st, seq![]) {
                        Err(e) => Err(e),
                        Ok((steps, b)) => {
                            Ok((BoundPathPatternView { path_var, start, steps, span: p.span }, b))
                        },
                    }
                },
            }
        },
    }
}

/// Binds the steps from `i` on, behind those bound so far.
#[verifier::opaque]
pub open spec fn steps_bound(
    steps: Seq<(RelPatternView, NodePatternView)>,
    i: int,
    introduce: bool,
    b: Bindings,
    st: Setting,
    out: Seq<(BoundRelPatternView, BoundNodePatternView)>,
) -> Lowered<Seq<(BoundRelPatternView, BoundNodePatternView)>>
    decreases steps, 0int, steps.len() - i,
{
    if i < 0 || i >= steps.len() {
        Ok((out, b))
    } else {
        match rel_bound(steps[i].0, introduce, b, st) {
            Err(e) => Err(e),
            Ok((rel, b)) => {
                match node_bound(steps[i].1, introduce, b, st) {
                    Err(e) => Err(e),
                    Ok((node, b)) => {
                        steps_bound(steps, i + 1, introduce, b, st, out.push((rel, node)))
                    },
                }
            },
        }
    }
}

/// Binds a property map that may be absent.
pub open spec fn properties_bound(e: Option<ExprView>, b: Bindings, st: Setting) -> Lowered<
    Option<BoundExprView>,
>
    decreases e, 0int, 0int,
{
    match e {
        Some(x) => {
            match expr_bound(x, no_aggregates(), b, st) {
                Err(e) => Err(e),
                Ok((y, b)) => {
                    Ok((Some(y), b))
                },
            }
        },
        None => Ok((None, b)),
    }
}

/// Binds the variable of a node. Values may hold nodes at run time (UNWIND
/// elements, coalesce results, nulls); paths rebind nowhere.
pub open spec fn node_var_bound(node: NodePatternView, introduce: bool, b: Bindings) -> Lowered<
    Option<VarId>,
> {
    match node.variable {
        None => Ok((None, b)),
        Some(name) => match b.seen(name) {
            Some(id) => match b.kind_of(id) {
                EntityKind::Node => Ok((Some(id), b)),
                EntityKind::Value => Ok((Some(id), b)),
                EntityKind::Path => Err(
                    BindErrorView::VariableAlreadyBound { name, span: node.span },
                ),
                kind => Err(
                    BindErrorView::VariableTypeConflict {
                        name,
                        expected: bound::kind_name(EntityKind::Node),
                        actual: bound::kind_name(kind),
                        span: node.span,
                    },
                ),
            },
            None => if introduce {
                Ok((Some(b.next_id()), b.declared(name, EntityKind::Node, node.labels)))
            } else {
                Err(BindErrorView::NewVariableInPatternPredicate { name, span: node.span })
            },
        },
    }
}

/// Binds a node pattern.
#[verifier::opaque]
pub open spec fn node_bound(
    node: NodePatternView,
    introduce: bool,
    b: Bindings,
    st: Setting,
) -> Lowered<
    BoundNodePatternView,
>
    decreases node, 0int, 0int,
{
    match undeclared_label(node.labels, 0, node.span, st) {
        Some(e) => Err(e),
        None => {
            match node_var_bound(node, introduce, b) {
                Err(e) => Err(e),
                Ok((var, b)) => {
                    match undeclared_in(node.properties, node.labels, st) {
                        Some(e) => Err(e),
                        None => {
                            match properties_bound(node.properties, b, st) {
                                Err(e) => Err(e),
                                Ok((properties, b)) => {
                                    Ok(
                                        (
                                            BoundNodePatternView {
                                                var,
                                                labels: node.labels,
                                                properties,
                                                index_hint: hint_for(node, st),
                                                span: node.span,
                                            },
                                            b,
                                        ),
                                    )
                                },
                            }
                        },
                    }
                },
            }
        },
    }
}

/// Binds the variable of a relationship. A bound relationship (or list, or
/// projected value) may reappear as an equality constraint; nodes and paths in
/// its position are conflicts.
pub open spec fn rel_var_bound(rel: RelPatternView, introduce: bool, b: Bindings) -> Lowered<
    Option<VarId>,
> {
    match rel.variable {
        None => Ok((None, b)),
        Some(name) => match b.seen(name) {
            Some(id) => match b.kind_of(id) {
                EntityKind::Node => Err(
                    BindErrorView::VariableTypeConflict {
                        name,
                        expected: bound::kind_name(EntityKind::Relationship),
                        actual: bound::kind_name(EntityKind::Node),
                        span: rel.span,
                    },
                ),
                EntityKind::Path => Err(
                    BindErrorView::VariableAlreadyBound { name, span: rel.span },
                ),
                _ => Ok((Some(id), b)),
            },
            None => if introduce {
                Ok(
                    (
                        Some(b.next_id()),
                        b.declared(
                            name,
                            if rel.var_length is Some {
                                EntityKind::RelationshipList
                            } else {
                                EntityKind::Relationship
                            },
                            seq![],
                        ),
                    ),
                )
            } else {
                Err(BindErrorView::NewVariableInPatternPredicate { name, span: rel.span })
            },
        },
    }
}

pub open spec fn rel_with(
    rel: RelPatternView,
    var: Option<VarId>,
    properties: Option<BoundExprView>,
) -> BoundRelPatternView {
    BoundRelPatternView {
        var,
        types: rel.types,
        direction: rel.direction,
        var_length: rel.var_length,
        properties,
        span: rel.span,
    }
}

/// Binds a relationship pattern.
#[verifier::opaque]
pub open spec fn rel_bound(
    rel: RelPatternView,
    introduce: bool,
    b: Bindings,
    st: Setting,
) -> Lowered<
    BoundRelPatternView,
>
    decreases rel, 0int, 0int,
{
    match undeclared_type(rel.types, 0, rel.span, b, st) {
        Some(e) => Err(e),
        None => {
            match rel_var_bound(rel, introduce, b) {
                Err(e) => Err(e),
                Ok((var, b)) => {
                    match properties_bound(rel.properties, b, st) {
                        Err(e) => Err(e),
                        Ok((properties, b)) => {
                            Ok((rel_with(rel, var, properties), b))
                        },
                    }
                },
            }
        },
    }
}

} // verus!
