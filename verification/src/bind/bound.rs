//! The bound form of a query: the syntax tree with names resolved to variable
//! ids, functions resolved against the registry, and planner-facing
//! annotations (index hints, grouping keys).

use vstd::prelude::*;
use vstd::string::*;

use crate::ast::{
    AtRef, AtRefView, BinaryOp, Direction, Literal, LiteralView, QuantifierKind, UnaryOp, VarLength,
};
use crate::exec::value::Value;
use crate::span::Span;
use crate::text;

verus! {

/// A resolved variable. Ids are dense and stable within one `BoundQuery`.
#[derive(Debug, Clone, Copy, PartialEq, Eq, PartialOrd, Ord, Hash, Structural)]
pub struct VarId(pub u32);

/// What a variable denotes.
#[derive(Debug, Clone, Copy, PartialEq, Eq, Structural)]
pub enum EntityKind {
    Node,
    Relationship,
    /// A var-length relationship variable: a list of relationships.
    RelationshipList,
    Path,
    /// Any computed value (`UNWIND` element, projection alias).
    Value,
}

/// One variable's binding record.
#[derive(Debug, PartialEq, Eq)]
pub struct VarBinding {
    pub id: VarId,
    pub name: String,
    pub kind: EntityKind,
    /// Labels known for a node variable from the pattern that bound it
    /// (planner: scan pruning).
    pub labels: Vec<String>,
}

/// The value that a [`VarBinding`] stands for.
pub struct VarBindingView {
    pub id: VarId,
    pub name: Seq<char>,
    pub kind: EntityKind,
    pub labels: Seq<Seq<char>>,
}

#[derive(Debug, PartialEq, Eq)]
pub struct BoundQuery {
    pub clauses: Vec<BoundClause>,
    /// All bindings, indexed by VarId.
    pub variables: Vec<VarBinding>,
}

/// The value that a [`BoundQuery`] stands for.
pub struct BoundQueryView {
    pub clauses: Seq<BoundClauseView>,
    pub variables: Seq<VarBindingView>,
}

#[derive(Debug, PartialEq, Eq)]
#[allow(inconsistent_fields)]
pub enum BoundClause {
    Match {
        optional: bool,
        patterns: Vec<BoundPathPattern>,
        at_ref: Option<AtRef>,
        where_clause: Option<BoundExpr>,
        span: Span,
    },
    Unwind { expr: BoundExpr, alias: VarId, span: Span },
    With(BoundProjection),
    Return(BoundProjection),
    /// The yielded columns are bound as fresh `Value` variables.
    Call {
        procedure: ProcedureDef,
        args: Vec<BoundExpr>,
        yields: Vec<(String, VarId)>,
        where_clause: Option<BoundExpr>,
        span: Span,
    },
    Create { patterns: Vec<BoundPathPattern>, span: Span },
    SetItems { items: Vec<BoundSetItem>, span: Span },
    Remove { items: Vec<BoundRemoveItem>, span: Span },
    Delete { detach: bool, targets: Vec<BoundExpr>, span: Span },
    Merge {
        pattern: BoundPathPattern,
        on_create: Vec<BoundSetItem>,
        on_match: Vec<BoundSetItem>,
        span: Span,
    },
}

/// The value that a [`BoundClause`] stands for.
#[allow(inconsistent_fields)]
pub enum BoundClauseView {
    Match { optional: bool, patterns: Seq<BoundPathPatternView>, at_ref: Option<AtRefView>, where_clause: Option<BoundExprView>, span: Span },
    Unwind { expr: BoundExprView, alias: VarId, span: Span },
    With(BoundProjectionView),
    Return(BoundProjectionView),
    Call { procedure: ProcedureDefView, args: Seq<BoundExprView>, yields: Seq<(Seq<char>, VarId)>, where_clause: Option<BoundExprView>, span: Span },
    Create { patterns: Seq<BoundPathPatternView>, span: Span },
    SetItems { items: Seq<BoundSetItemView>, span: Span },
    Remove { items: Seq<BoundRemoveItemView>, span: Span },
    Delete { detach: bool, targets: Seq<BoundExprView>, span: Span },
    Merge { pattern: BoundPathPatternView, on_create: Seq<BoundSetItemView>, on_match: Seq<BoundSetItemView>, span: Span },
}

#[derive(Debug, PartialEq, Eq)]
pub enum BoundSetItem {
    Property { target: VarId, key: String, value: BoundExpr, span: Span },
    Replace { target: VarId, value: BoundExpr, span: Span },
    Merge { target: VarId, value: BoundExpr, span: Span },
    AddLabels { target: VarId, labels: Vec<String>, span: Span },
}

/// The value that a [`BoundSetItem`] stands for.
pub enum BoundSetItemView {
    Property { target: VarId, key: Seq<char>, value: BoundExprView, span: Span },
    Replace { target: VarId, value: BoundExprView, span: Span },
    Merge { target: VarId, value: BoundExprView, span: Span },
    AddLabels { target: VarId, labels: Seq<Seq<char>>, span: Span },
}

#[derive(Debug, PartialEq, Eq)]
pub enum BoundRemoveItem {
    Property { target: VarId, key: String, span: Span },
    Labels { target: VarId, labels: Vec<String>, span: Span },
}

/// The value that a [`BoundRemoveItem`] stands for.
pub enum BoundRemoveItemView {
    Property { target: VarId, key: Seq<char>, span: Span },
    Labels { target: VarId, labels: Seq<Seq<char>>, span: Span },
}

#[derive(Debug, PartialEq, Eq)]
pub struct BoundProjection {
    pub distinct: bool,
    pub items: Vec<BoundProjectionItem>,
    pub order_by: Vec<(BoundExpr, bool)>,
    pub skip: Option<BoundExpr>,
    pub limit: Option<BoundExpr>,
    pub where_clause: Option<BoundExpr>,
    /// Item indices that contain no aggregate: the grouping keys when any
    /// item aggregates.
    pub grouping_items: Vec<usize>,
    /// Whether any item aggregates.
    pub aggregating: bool,
    pub span: Span,
}

/// The value that a [`BoundProjection`] stands for.
pub struct BoundProjectionView {
    pub distinct: bool,
    pub items: Seq<BoundProjectionItemView>,
    pub order_by: Seq<(BoundExprView, bool)>,
    pub skip: Option<BoundExprView>,
    pub limit: Option<BoundExprView>,
    pub where_clause: Option<BoundExprView>,
    pub grouping_items: Seq<usize>,
    pub aggregating: bool,
    pub span: Span,
}

#[derive(Debug, PartialEq, Eq)]
pub struct BoundProjectionItem {
    pub expr: BoundExpr,
    /// The output column name (alias, or the rendered expression text).
    pub name: String,
    /// The variable this item binds in the next scope.
    pub var: VarId,
    pub span: Span,
}

/// The value that a [`BoundProjectionItem`] stands for.
pub struct BoundProjectionItemView {
    pub expr: BoundExprView,
    pub name: Seq<char>,
    pub var: VarId,
    pub span: Span,
}

#[derive(Debug, PartialEq, Eq)]
pub struct BoundPathPattern {
    pub path_var: Option<VarId>,
    pub start: BoundNodePattern,
    pub steps: Vec<(BoundRelPattern, BoundNodePattern)>,
    pub span: Span,
}

/// The value that a [`BoundPathPattern`] stands for.
pub struct BoundPathPatternView {
    pub path_var: Option<VarId>,
    pub start: BoundNodePatternView,
    pub steps: Seq<(BoundRelPatternView, BoundNodePatternView)>,
    pub span: Span,
}

#[derive(Debug, PartialEq, Eq)]
pub struct BoundNodePattern {
    pub var: Option<VarId>,
    pub labels: Vec<String>,
    pub properties: Option<BoundExpr>,
    /// Planner hint: an equality the primary key map can seek on (`label`
    /// key-prefix property equated to a literal/parameter in the pattern's
    /// property map), or a declared secondary index.
    pub index_hint: Option<IndexHint>,
    pub span: Span,
}

/// The value that a [`BoundNodePattern`] stands for.
pub struct BoundNodePatternView {
    pub var: Option<VarId>,
    pub labels: Seq<Seq<char>>,
    pub properties: Option<BoundExprView>,
    pub index_hint: Option<IndexHintView>,
    pub span: Span,
}

#[derive(Debug, PartialEq, Eq)]
pub enum IndexHint {
    /// The pattern pins the leading key property of `label`.
    KeySeek { label: String },
    /// A declared index `name` on `(label, property)` covers an equality.
    IndexSeek { name: String, label: String, property: String },
}

/// The value that a [`IndexHint`] stands for.
pub enum IndexHintView {
    KeySeek { label: Seq<char> },
    IndexSeek { name: Seq<char>, label: Seq<char>, property: Seq<char> },
}

#[derive(Debug, PartialEq, Eq)]
pub struct BoundRelPattern {
    pub var: Option<VarId>,
    pub types: Vec<String>,
    pub direction: Direction,
    pub var_length: Option<VarLength>,
    pub properties: Option<BoundExpr>,
    pub span: Span,
}

/// The value that a [`BoundRelPattern`] stands for.
pub struct BoundRelPatternView {
    pub var: Option<VarId>,
    pub types: Seq<Seq<char>>,
    pub direction: Direction,
    pub var_length: Option<VarLength>,
    pub properties: Option<BoundExprView>,
    pub span: Span,
}

#[derive(Debug, PartialEq, Eq)]
#[allow(inconsistent_fields)]
pub enum BoundExpr {
    Literal { value: Literal, span: Span },
    Parameter { name: String, span: Span },
    Variable { id: VarId, span: Span },
    Property { base: Box<BoundExpr>, key: String, span: Span },
    Unary { op: UnaryOp, operand: Box<BoundExpr>, span: Span },
    Binary { op: BinaryOp, lhs: Box<BoundExpr>, rhs: Box<BoundExpr>, span: Span },
    IsNull { operand: Box<BoundExpr>, negated: bool, span: Span },
    Function { def: FunctionDef, args: Vec<BoundExpr>, span: Span },
    Aggregate { def: AggregateDef, distinct: bool, arg: Option<Box<BoundExpr>>, span: Span },
    Case {
        operand: Option<Box<BoundExpr>>,
        whens: Vec<(BoundExpr, BoundExpr)>,
        else_expr: Option<Box<BoundExpr>>,
        span: Span,
    },
    ListLiteral { items: Vec<BoundExpr>, span: Span },
    ListComprehension {
        variable: VarId,
        list: Box<BoundExpr>,
        where_clause: Option<Box<BoundExpr>>,
        map: Option<Box<BoundExpr>>,
        span: Span,
    },
    Quantifier {
        kind: QuantifierKind,
        variable: VarId,
        list: Box<BoundExpr>,
        predicate: Box<BoundExpr>,
        span: Span,
    },
    Reduce {
        accumulator: VarId,
        init: Box<BoundExpr>,
        variable: VarId,
        list: Box<BoundExpr>,
        expr: Box<BoundExpr>,
        span: Span,
    },
    MapLiteral { entries: Vec<(String, BoundExpr)>, span: Span },
    Index { base: Box<BoundExpr>, index: Box<BoundExpr>, span: Span },
    Slice {
        base: Box<BoundExpr>,
        from: Option<Box<BoundExpr>>,
        to: Option<Box<BoundExpr>>,
        span: Span,
    },
    PatternPredicate { pattern: Box<BoundPathPattern>, span: Span },
}

/// The value that a [`BoundExpr`] stands for.
#[allow(inconsistent_fields)]
pub enum BoundExprView {
    Literal { value: LiteralView, span: Span },
    Parameter { name: Seq<char>, span: Span },
    Variable { id: VarId, span: Span },
    Property { base: Box<BoundExprView>, key: Seq<char>, span: Span },
    Unary { op: UnaryOp, operand: Box<BoundExprView>, span: Span },
    Binary { op: BinaryOp, lhs: Box<BoundExprView>, rhs: Box<BoundExprView>, span: Span },
    IsNull { operand: Box<BoundExprView>, negated: bool, span: Span },
    Function { def: FunctionDefView, args: Seq<BoundExprView>, span: Span },
    Aggregate { def: AggregateDefView, distinct: bool, arg: Option<Box<BoundExprView>>, span: Span },
    Case { operand: Option<Box<BoundExprView>>, whens: Seq<(BoundExprView, BoundExprView)>, else_expr: Option<Box<BoundExprView>>, span: Span },
    ListLiteral { items: Seq<BoundExprView>, span: Span },
    ListComprehension { variable: VarId, list: Box<BoundExprView>, where_clause: Option<Box<BoundExprView>>, map: Option<Box<BoundExprView>>, span: Span },
    Quantifier { kind: QuantifierKind, variable: VarId, list: Box<BoundExprView>, predicate: Box<BoundExprView>, span: Span },
    Reduce { accumulator: VarId, init: Box<BoundExprView>, variable: VarId, list: Box<BoundExprView>, expr: Box<BoundExprView>, span: Span },
    MapLiteral { entries: Seq<(Seq<char>, BoundExprView)>, span: Span },
    Index { base: Box<BoundExprView>, index: Box<BoundExprView>, span: Span },
    Slice { base: Box<BoundExprView>, from: Option<Box<BoundExprView>>, to: Option<Box<BoundExprView>>, span: Span },
    PatternPredicate { pattern: Box<BoundPathPatternView>, span: Span },
}

/// A scalar/list/string function. Arity is `min..=max` arguments.
#[derive(Debug, Clone, Copy, PartialEq, Eq)]
pub struct FunctionDef {
    pub name: &'static str,
    pub min_args: usize,
    pub max_args: usize,
}

/// The value that a [`FunctionDef`] stands for.
pub struct FunctionDefView {
    pub name: Seq<char>,
    pub min_args: usize,
    pub max_args: usize,
}

/// An aggregate function. All take exactly one argument except `count`, which
/// also has the `count(*)` form.
#[derive(Debug, Clone, Copy, PartialEq, Eq)]
pub struct AggregateDef {
    pub name: &'static str,
}

/// The value that a [`AggregateDef`] stands for.
pub struct AggregateDefView {
    pub name: Seq<char>,
}

/// A procedure. Yield columns are its output row shape.
#[derive(Debug, PartialEq, Eq)]
pub struct ProcedureDef {
    pub name: &'static str,
    pub min_args: usize,
    pub max_args: usize,
    pub yields: Vec<&'static str>,
}

/// The value that a [`ProcedureDef`] stands for.
pub struct ProcedureDefView {
    pub name: Seq<char>,
    pub min_args: usize,
    pub max_args: usize,
    pub yields: Seq<Seq<char>>,
}

impl VarBinding {
    pub open spec fn view(&self) -> VarBindingView
    {
        VarBindingView {
            id: self.id,
            name: self.name@,
            kind: self.kind,
            labels: text::strings_view(self.labels@),
        }
    }
}

impl BoundQuery {
    pub open spec fn view(&self) -> BoundQueryView
    {
        BoundQueryView {
            clauses: bound_clauses_view(self.clauses@),
            variables: var_bindings_view(self.variables@),
        }
    }
}

impl BoundClause {
    pub open spec fn view(&self) -> BoundClauseView
    {
        match self {
            BoundClause::Match { optional, patterns, at_ref, where_clause, span } => BoundClauseView::Match {
                optional: *optional,
                patterns: bound_path_patterns_view(patterns@),
                at_ref: match at_ref { Some(x) => Some(x@), None => None },
                where_clause: match where_clause { Some(x) => Some(x@), None => None },
                span: *span,
            },
            BoundClause::Unwind { expr, alias, span } => BoundClauseView::Unwind {
                expr: expr@,
                alias: *alias,
                span: *span,
            },
            BoundClause::With(x) => BoundClauseView::With(x@),
            BoundClause::Return(x) => BoundClauseView::Return(x@),
            BoundClause::Call { procedure, args, yields, where_clause, span } => BoundClauseView::Call {
                procedure: procedure@,
                args: bound_exprs_view(args@),
                yields: string_var_ids_view(yields@),
                where_clause: match where_clause { Some(x) => Some(x@), None => None },
                span: *span,
            },
            BoundClause::Create { patterns, span } => BoundClauseView::Create {
                patterns: bound_path_patterns_view(patterns@),
                span: *span,
            },
            BoundClause::SetItems { items, span } => BoundClauseView::SetItems {
                items: bound_set_items_view(items@),
                span: *span,
            },
            BoundClause::Remove { items, span } => BoundClauseView::Remove {
                items: bound_remove_items_view(items@),
                span: *span,
            },
            BoundClause::Delete { detach, targets, span } => BoundClauseView::Delete {
                detach: *detach,
                targets: bound_exprs_view(targets@),
                span: *span,
            },
            BoundClause::Merge { pattern, on_create, on_match, span } => BoundClauseView::Merge {
                pattern: pattern@,
                on_create: bound_set_items_view(on_create@),
                on_match: bound_set_items_view(on_match@),
                span: *span,
            },
        }
    }
}

impl BoundSetItem {
    pub open spec fn view(&self) -> BoundSetItemView
    {
        match self {
            BoundSetItem::Property { target, key, value, span } => BoundSetItemView::Property {
                target: *target,
                key: key@,
                value: value@,
                span: *span,
            },
            BoundSetItem::Replace { target, value, span } => BoundSetItemView::Replace {
                target: *target,
                value: value@,
                span: *span,
            },
            BoundSetItem::Merge { target, value, span } => BoundSetItemView::Merge {
                target: *target,
                value: value@,
                span: *span,
            },
            BoundSetItem::AddLabels { target, labels, span } => BoundSetItemView::AddLabels {
                target: *target,
                labels: text::strings_view(labels@),
                span: *span,
            },
        }
    }
}

impl BoundRemoveItem {
    pub open spec fn view(&self) -> BoundRemoveItemView
    {
        match self {
            BoundRemoveItem::Property { target, key, span } => BoundRemoveItemView::Property {
                target: *target,
                key: key@,
                span: *span,
            },
            BoundRemoveItem::Labels { target, labels, span } => BoundRemoveItemView::Labels {
                target: *target,
                labels: text::strings_view(labels@),
                span: *span,
            },
        }
    }
}

impl BoundProjection {
    pub open spec fn view(&self) -> BoundProjectionView
    {
        BoundProjectionView {
            distinct: self.distinct,
            items: bound_projection_items_view(self.items@),
            order_by: bound_expr_bools_view(self.order_by@),
            skip: match self.skip { Some(x) => Some(x@), None => None },
            limit: match self.limit { Some(x) => Some(x@), None => None },
            where_clause: match self.where_clause { Some(x) => Some(x@), None => None },
            grouping_items: self.grouping_items@,
            aggregating: self.aggregating,
            span: self.span,
        }
    }
}

impl BoundProjectionItem {
    pub open spec fn view(&self) -> BoundProjectionItemView
    {
        BoundProjectionItemView {
            expr: self.expr@,
            name: self.name@,
            var: self.var,
            span: self.span,
        }
    }
}

impl BoundPathPattern {
    #[verifier::opaque]
    pub open spec fn view(&self) -> BoundPathPatternView
        decreases self,
    {
        BoundPathPatternView {
            path_var: self.path_var,
            start: self.start@,
            steps: bound_rel_pattern_bound_node_patterns_view(self.steps@),
            span: self.span,
        }
    }

    /// What the fields of the view are.
    pub proof fn lemma_view(&self)
        ensures
            self@.path_var == self.path_var,
            self@.start == self.start@,
            self@.steps == bound_rel_pattern_bound_node_patterns_view(self.steps@),
            self@.span == self.span,
    {
        reveal(BoundPathPattern::view);
        reveal(BoundNodePattern::view);
    }
}

impl BoundNodePattern {
    #[verifier::opaque]
    pub open spec fn view(&self) -> BoundNodePatternView
        decreases self,
    {
        BoundNodePatternView {
            var: self.var,
            labels: text::strings_view(self.labels@),
            properties: match self.properties { Some(x) => Some(x@), None => None },
            index_hint: match self.index_hint { Some(x) => Some(x@), None => None },
            span: self.span,
        }
    }

    /// What the fields of the view are.
    pub proof fn lemma_view(&self)
        ensures
            self@.var == self.var,
            self@.labels == text::strings_view(self.labels@),
            self@.properties == (match self.properties { Some(x) => Some(x@), None => None }),
            self@.index_hint == (match self.index_hint { Some(x) => Some(x@), None => None }),
            self@.span == self.span,
    {
        reveal(BoundNodePattern::view);
    }
}

impl IndexHint {
    pub open spec fn view(&self) -> IndexHintView
    {
        match self {
            IndexHint::KeySeek { label } => IndexHintView::KeySeek {
                label: label@,
            },
            IndexHint::IndexSeek { name, label, property } => IndexHintView::IndexSeek {
                name: name@,
                label: label@,
                property: property@,
            },
        }
    }
}

impl BoundRelPattern {
    #[verifier::opaque]
    pub open spec fn view(&self) -> BoundRelPatternView
        decreases self,
    {
        BoundRelPatternView {
            var: self.var,
            types: text::strings_view(self.types@),
            direction: self.direction,
            var_length: self.var_length,
            properties: match self.properties { Some(x) => Some(x@), None => None },
            span: self.span,
        }
    }

    /// What the fields of the view are.
    pub proof fn lemma_view(&self)
        ensures
            self@.var == self.var,
            self@.types == text::strings_view(self.types@),
            self@.direction == self.direction,
            self@.var_length == self.var_length,
            self@.properties == (match self.properties { Some(x) => Some(x@), None => None }),
            self@.span == self.span,
    {
        reveal(BoundRelPattern::view);
    }
}

impl BoundExpr {
    pub open spec fn view(&self) -> BoundExprView
        decreases self,
    {
        match self {
            BoundExpr::Literal { value, span } => BoundExprView::Literal {
                value: value@,
                span: *span,
            },
            BoundExpr::Parameter { name, span } => BoundExprView::Parameter {
                name: name@,
                span: *span,
            },
            BoundExpr::Variable { id, span } => BoundExprView::Variable {
                id: *id,
                span: *span,
            },
            BoundExpr::Property { base, key, span } => BoundExprView::Property {
                base: Box::new(base@),
                key: key@,
                span: *span,
            },
            BoundExpr::Unary { op, operand, span } => BoundExprView::Unary {
                op: *op,
                operand: Box::new(operand@),
                span: *span,
            },
            BoundExpr::Binary { op, lhs, rhs, span } => BoundExprView::Binary {
                op: *op,
                lhs: Box::new(lhs@),
                rhs: Box::new(rhs@),
                span: *span,
            },
            BoundExpr::IsNull { operand, negated, span } => BoundExprView::IsNull {
                operand: Box::new(operand@),
                negated: *negated,
                span: *span,
            },
            BoundExpr::Function { def, args, span } => BoundExprView::Function {
                def: def@,
                args: bound_exprs_view(args@),
                span: *span,
            },
            BoundExpr::Aggregate { def, distinct, arg, span } => BoundExprView::Aggregate {
                def: def@,
                distinct: *distinct,
                arg: match arg { Some(x) => Some(Box::new(x@)), None => None },
                span: *span,
            },
            BoundExpr::Case { operand, whens, else_expr, span } => BoundExprView::Case {
                operand: match operand { Some(x) => Some(Box::new(x@)), None => None },
                whens: bound_expr_bound_exprs_view(whens@),
                else_expr: match else_expr { Some(x) => Some(Box::new(x@)), None => None },
                span: *span,
            },
            BoundExpr::ListLiteral { items, span } => BoundExprView::ListLiteral {
                items: bound_exprs_view(items@),
                span: *span,
            },
            BoundExpr::ListComprehension { variable, list, where_clause, map, span } => BoundExprView::ListComprehension {
                variable: *variable,
                list: Box::new(list@),
                where_clause: match where_clause { Some(x) => Some(Box::new(x@)), None => None },
                map: match map { Some(x) => Some(Box::new(x@)), None => None },
                span: *span,
            },
            BoundExpr::Quantifier { kind, variable, list, predicate, span } => BoundExprView::Quantifier {
                kind: *kind,
                variable: *variable,
                list: Box::new(list@),
                predicate: Box::new(predicate@),
                span: *span,
            },
            BoundExpr::Reduce { accumulator, init, variable, list, expr, span } => BoundExprView::Reduce {
                accumulator: *accumulator,
                init: Box::new(init@),
                variable: *variable,
                list: Box::new(list@),
                expr: Box::new(expr@),
                span: *span,
            },
            BoundExpr::MapLiteral { entries, span } => BoundExprView::MapLiteral {
                entries: string_bound_exprs_view(entries@),
                span: *span,
            },
            BoundExpr::Index { base, index, span } => BoundExprView::Index {
                base: Box::new(base@),
                index: Box::new(index@),
                span: *span,
            },
            BoundExpr::Slice { base, from, to, span } => BoundExprView::Slice {
                base: Box::new(base@),
                from: match from { Some(x) => Some(Box::new(x@)), None => None },
                to: match to { Some(x) => Some(Box::new(x@)), None => None },
                span: *span,
            },
            BoundExpr::PatternPredicate { pattern, span } => BoundExprView::PatternPredicate {
                pattern: Box::new(pattern@),
                span: *span,
            },
        }
    }
}

impl FunctionDef {
    pub open spec fn view(&self) -> FunctionDefView
    {
        FunctionDefView {
            name: self.name@,
            min_args: self.min_args,
            max_args: self.max_args,
        }
    }
}

impl AggregateDef {
    pub open spec fn view(&self) -> AggregateDefView
    {
        AggregateDefView {
            name: self.name@,
        }
    }
}

impl ProcedureDef {
    pub open spec fn view(&self) -> ProcedureDefView
    {
        ProcedureDefView {
            name: self.name@,
            min_args: self.min_args,
            max_args: self.max_args,
            yields: strs_view(self.yields@),
        }
    }
}

pub open spec fn bound_clauses_view(v: Seq<BoundClause>) -> Seq<BoundClauseView>
{
    Seq::new(v.len(), |i: int| v[i]@)
}

pub open spec fn var_bindings_view(v: Seq<VarBinding>) -> Seq<VarBindingView>
{
    Seq::new(v.len(), |i: int| v[i]@)
}

pub open spec fn bound_path_patterns_view(v: Seq<BoundPathPattern>) -> Seq<BoundPathPatternView>
    decreases v,
{
    Seq::new(v.len(), |i: int| if 0 <= i < v.len() { v[i]@ } else { arbitrary() })
}

pub open spec fn bound_exprs_view(v: Seq<BoundExpr>) -> Seq<BoundExprView>
    decreases v,
{
    Seq::new(v.len(), |i: int| if 0 <= i < v.len() { v[i]@ } else { arbitrary() })
}

pub open spec fn string_var_ids_view(v: Seq<(String, VarId)>) -> Seq<(Seq<char>, VarId)>
{
    Seq::new(v.len(), |i: int| (v[i].0@, v[i].1))
}

pub open spec fn bound_set_items_view(v: Seq<BoundSetItem>) -> Seq<BoundSetItemView>
{
    Seq::new(v.len(), |i: int| v[i]@)
}

pub open spec fn bound_remove_items_view(v: Seq<BoundRemoveItem>) -> Seq<BoundRemoveItemView>
{
    Seq::new(v.len(), |i: int| v[i]@)
}

pub open spec fn bound_projection_items_view(
    v: Seq<BoundProjectionItem>,
) -> Seq<BoundProjectionItemView>
{
    Seq::new(v.len(), |i: int| v[i]@)
}

pub open spec fn bound_expr_bools_view(v: Seq<(BoundExpr, bool)>) -> Seq<(BoundExprView, bool)>
    decreases v,
{
    Seq::new(v.len(), |i: int| if 0 <= i < v.len() { (v[i].0@, v[i].1) } else { arbitrary() })
}

pub open spec fn bound_rel_pattern_bound_node_patterns_view(
    v: Seq<(BoundRelPattern, BoundNodePattern)>,
) -> Seq<(BoundRelPatternView, BoundNodePatternView)>
    decreases v,
{
    Seq::new(v.len(), |i: int| if 0 <= i < v.len() { (v[i].0@, v[i].1@) } else { arbitrary() })
}

pub open spec fn bound_expr_bound_exprs_view(
    v: Seq<(BoundExpr, BoundExpr)>,
) -> Seq<(BoundExprView, BoundExprView)>
    decreases v,
{
    Seq::new(v.len(), |i: int| if 0 <= i < v.len() { (v[i].0@, v[i].1@) } else { arbitrary() })
}

pub open spec fn string_bound_exprs_view(
    v: Seq<(String, BoundExpr)>,
) -> Seq<(Seq<char>, BoundExprView)>
    decreases v,
{
    Seq::new(v.len(), |i: int| if 0 <= i < v.len() { (v[i].0@, v[i].1@) } else { arbitrary() })
}

pub open spec fn strs_view(v: Seq<&'static str>) -> Seq<Seq<char>>
{
    Seq::new(v.len(), |i: int| v[i]@)
}

/// The words for a kind of entity.
pub open spec fn kind_name(kind: EntityKind) -> Seq<char> {
    match kind {
        EntityKind::Node => "node"@,
        EntityKind::Relationship => "relationship"@,
        EntityKind::RelationshipList => "relationship list"@,
        EntityKind::Path => "path"@,
        EntityKind::Value => "value"@,
    }
}

impl EntityKind {
    pub fn describe(self) -> (r: &'static str)
        ensures
            r@ == kind_name(self),
    {
        match self {
            EntityKind::Node => "node",
            EntityKind::Relationship => "relationship",
            EntityKind::RelationshipList => "relationship list",
            EntityKind::Path => "path",
            EntityKind::Value => "value",
        }
    }
}

// --- Registries --------------------------------------------------------------------------

/// The functions, in order; names are case-insensitive at lookup.
pub open spec fn function_entry(i: int) -> FunctionDefView {
    if i == 0 {
        FunctionDefView { name: "abs"@, min_args: 1, max_args: 1 }
    }
    else if i == 1 {
        FunctionDefView { name: "ceil"@, min_args: 1, max_args: 1 }
    }
    else if i == 2 {
        FunctionDefView { name: "coalesce"@, min_args: 1, max_args: usize::MAX }
    }
    else if i == 3 {
        FunctionDefView { name: "endNode"@, min_args: 1, max_args: 1 }
    }
    else if i == 4 {
        FunctionDefView { name: "floor"@, min_args: 1, max_args: 1 }
    }
    else if i == 5 {
        FunctionDefView { name: "head"@, min_args: 1, max_args: 1 }
    }
    else if i == 6 {
        FunctionDefView { name: "keys"@, min_args: 1, max_args: 1 }
    }
    else if i == 7 {
        FunctionDefView { name: "labels"@, min_args: 1, max_args: 1 }
    }
    else if i == 8 {
        FunctionDefView { name: "last"@, min_args: 1, max_args: 1 }
    }
    else if i == 9 {
        FunctionDefView { name: "left"@, min_args: 2, max_args: 2 }
    }
    else if i == 10 {
        FunctionDefView { name: "length"@, min_args: 1, max_args: 1 }
    }
    else if i == 11 {
        FunctionDefView { name: "lTrim"@, min_args: 1, max_args: 1 }
    }
    else if i == 12 {
        FunctionDefView { name: "nodes"@, min_args: 1, max_args: 1 }
    }
    else if i == 13 {
        FunctionDefView { name: "properties"@, min_args: 1, max_args: 1 }
    }
    else if i == 14 {
        FunctionDefView { name: "range"@, min_args: 2, max_args: 3 }
    }
    else if i == 15 {
        FunctionDefView { name: "relationships"@, min_args: 1, max_args: 1 }
    }
    else if i == 16 {
        FunctionDefView { name: "replace"@, min_args: 3, max_args: 3 }
    }
    else if i == 17 {
        FunctionDefView { name: "reverse"@, min_args: 1, max_args: 1 }
    }
    else if i == 18 {
        FunctionDefView { name: "right"@, min_args: 2, max_args: 2 }
    }
    else if i == 19 {
        FunctionDefView { name: "round"@, min_args: 1, max_args: 1 }
    }
    else if i == 20 {
        FunctionDefView { name: "rTrim"@, min_args: 1, max_args: 1 }
    }
    else if i == 21 {
        FunctionDefView { name: "sign"@, min_args: 1, max_args: 1 }
    }
    else if i == 22 {
        FunctionDefView { name: "size"@, min_args: 1, max_args: 1 }
    }
    else if i == 23 {
        FunctionDefView { name: "split"@, min_args: 2, max_args: 2 }
    }
    else if i == 24 {
        FunctionDefView { name: "sqrt"@, min_args: 1, max_args: 1 }
    }
    else if i == 25 {
        FunctionDefView { name: "startNode"@, min_args: 1, max_args: 1 }
    }
    else if i == 26 {
        FunctionDefView { name: "substring"@, min_args: 2, max_args: 3 }
    }
    else if i == 27 {
        FunctionDefView { name: "tail"@, min_args: 1, max_args: 1 }
    }
    else if i == 28 {
        FunctionDefView { name: "toBoolean"@, min_args: 1, max_args: 1 }
    }
    else if i == 29 {
        FunctionDefView { name: "toFloat"@, min_args: 1, max_args: 1 }
    }
    else if i == 30 {
        FunctionDefView { name: "toInteger"@, min_args: 1, max_args: 1 }
    }
    else if i == 31 {
        FunctionDefView { name: "toLower"@, min_args: 1, max_args: 1 }
    }
    else if i == 32 {
        FunctionDefView { name: "toString"@, min_args: 1, max_args: 1 }
    }
    else if i == 33 {
        FunctionDefView { name: "toUpper"@, min_args: 1, max_args: 1 }
    }
    else if i == 34 {
        FunctionDefView { name: "trim"@, min_args: 1, max_args: 1 }
    }
    else {
        FunctionDefView { name: "type"@, min_args: 1, max_args: 1 }
    }
}

fn function_at(i: usize) -> (r: FunctionDef)
    ensures
        r@ == function_entry(i as int),
{
    match i {
        0 => FunctionDef { name: "abs", min_args: 1, max_args: 1 },
        1 => FunctionDef { name: "ceil", min_args: 1, max_args: 1 },
        2 => FunctionDef { name: "coalesce", min_args: 1, max_args: usize::MAX },
        3 => FunctionDef { name: "endNode", min_args: 1, max_args: 1 },
        4 => FunctionDef { name: "floor", min_args: 1, max_args: 1 },
        5 => FunctionDef { name: "head", min_args: 1, max_args: 1 },
        6 => FunctionDef { name: "keys", min_args: 1, max_args: 1 },
        7 => FunctionDef { name: "labels", min_args: 1, max_args: 1 },
        8 => FunctionDef { name: "last", min_args: 1, max_args: 1 },
        9 => FunctionDef { name: "left", min_args: 2, max_args: 2 },
        10 => FunctionDef { name: "length", min_args: 1, max_args: 1 },
        11 => FunctionDef { name: "lTrim", min_args: 1, max_args: 1 },
        12 => FunctionDef { name: "nodes", min_args: 1, max_args: 1 },
        13 => FunctionDef { name: "properties", min_args: 1, max_args: 1 },
        14 => FunctionDef { name: "range", min_args: 2, max_args: 3 },
        15 => FunctionDef { name: "relationships", min_args: 1, max_args: 1 },
        16 => FunctionDef { name: "replace", min_args: 3, max_args: 3 },
        17 => FunctionDef { name: "reverse", min_args: 1, max_args: 1 },
        18 => FunctionDef { name: "right", min_args: 2, max_args: 2 },
        19 => FunctionDef { name: "round", min_args: 1, max_args: 1 },
        20 => FunctionDef { name: "rTrim", min_args: 1, max_args: 1 },
        21 => FunctionDef { name: "sign", min_args: 1, max_args: 1 },
        22 => FunctionDef { name: "size", min_args: 1, max_args: 1 },
        23 => FunctionDef { name: "split", min_args: 2, max_args: 2 },
        24 => FunctionDef { name: "sqrt", min_args: 1, max_args: 1 },
        25 => FunctionDef { name: "startNode", min_args: 1, max_args: 1 },
        26 => FunctionDef { name: "substring", min_args: 2, max_args: 3 },
        27 => FunctionDef { name: "tail", min_args: 1, max_args: 1 },
        28 => FunctionDef { name: "toBoolean", min_args: 1, max_args: 1 },
        29 => FunctionDef { name: "toFloat", min_args: 1, max_args: 1 },
        30 => FunctionDef { name: "toInteger", min_args: 1, max_args: 1 },
        31 => FunctionDef { name: "toLower", min_args: 1, max_args: 1 },
        32 => FunctionDef { name: "toString", min_args: 1, max_args: 1 },
        33 => FunctionDef { name: "toUpper", min_args: 1, max_args: 1 },
        34 => FunctionDef { name: "trim", min_args: 1, max_args: 1 },
        _ => FunctionDef { name: "type", min_args: 1, max_args: 1 },
    }
}

/// The first entry from `from` on whose name is `name` up to case.
pub open spec fn function_named(name: Seq<char>, from: int) -> Option<FunctionDefView>
    decreases 36 - from,
{
    if from >= 36 {
        None
    } else if text::same_ignoring_case(function_entry(from).name, name) {
        Some(function_entry(from))
    } else {
        function_named(name, from + 1)
    }
}

/// The names of the functions, in order.
pub(crate) fn function_names() -> (r: Vec<String>)
    ensures
        text::strings_view(r@) == Seq::new(36, |i: int| function_entry(i).name),
{
    let mut out: Vec<String> = Vec::new();
    let mut i: usize = 0;
    while i < 36
        invariant
            i <= 36,
            out@.len() == i,
            forall|k: int| 0 <= k < i ==> (#[trigger] out@[k])@ == function_entry(k).name,
        decreases 36 - i,
    {
        out.push(function_at(i).name.to_owned());
        i += 1;
    }
    assert(text::strings_view(out@) =~= Seq::new(36, |i: int| function_entry(i).name));
    out
}

/// The function called `name`, up to case.
pub fn lookup_function(name: &str) -> (r: Option<FunctionDef>)
    ensures
        function_named(name@, 0) == match r {
            Some(def) => Some(def@),
            None => None,
        },
{
    let mut i: usize = 0;
    while i < 36
        invariant
            i <= 36,
            function_named(name@, 0) == function_named(name@, i as int),
        decreases 36 - i,
    {
        let def = function_at(i);
        if text::eq_ignore_case(def.name, name) {
            return Some(def);
        }
        i += 1;
    }
    None
}

/// The aggregate functions, in order.
pub open spec fn aggregate_entry(i: int) -> AggregateDefView {
    if i == 0 {
        AggregateDefView { name: "avg"@ }
    }
    else if i == 1 {
        AggregateDefView { name: "collect"@ }
    }
    else if i == 2 {
        AggregateDefView { name: "count"@ }
    }
    else if i == 3 {
        AggregateDefView { name: "max"@ }
    }
    else if i == 4 {
        AggregateDefView { name: "min"@ }
    }
    else {
        AggregateDefView { name: "sum"@ }
    }
}

fn aggregate_at(i: usize) -> (r: AggregateDef)
    ensures
        r@ == aggregate_entry(i as int),
{
    match i {
        0 => AggregateDef { name: "avg" },
        1 => AggregateDef { name: "collect" },
        2 => AggregateDef { name: "count" },
        3 => AggregateDef { name: "max" },
        4 => AggregateDef { name: "min" },
        _ => AggregateDef { name: "sum" },
    }
}

/// The first entry from `from` on whose name is `name` up to case.
pub open spec fn aggregate_named(name: Seq<char>, from: int) -> Option<AggregateDefView>
    decreases 6 - from,
{
    if from >= 6 {
        None
    } else if text::same_ignoring_case(aggregate_entry(from).name, name) {
        Some(aggregate_entry(from))
    } else {
        aggregate_named(name, from + 1)
    }
}

/// The aggregate called `name`, up to case.
pub fn lookup_aggregate(name: &str) -> (r: Option<AggregateDef>)
    ensures
        aggregate_named(name@, 0) == match r {
            Some(def) => Some(def@),
            None => None,
        },
{
    let mut i: usize = 0;
    while i < 6
        invariant
            i <= 6,
            aggregate_named(name@, 0) == aggregate_named(name@, i as int),
        decreases 6 - i,
    {
        let def = aggregate_at(i);
        if text::eq_ignore_case(def.name, name) {
            return Some(def);
        }
        i += 1;
    }
    None
}

/// The procedures, in order.
pub open spec fn procedure_entry(i: int) -> ProcedureDefView {
    if i == 0 {
        ProcedureDefView {
            name: "acetone.log"@,
            min_args: 0,
            max_args: 1,
            yields: seq!["commit"@, "subject"@],
        }
    } else if i == 1 {
        ProcedureDefView {
            name: "acetone.diff"@,
            min_args: 2,
            max_args: 2,
            yields: seq!["kind"@, "label"@, "key"@, "node"@],
        }
    } else if i == 2 {
        ProcedureDefView {
            name: "acetone.blame"@,
            min_args: 2,
            max_args: 2,
            yields: seq!["label"@, "key"@, "commit"@],
        }
    } else {
        ProcedureDefView {
            name: "acetone.conflicts"@,
            min_args: 0,
            max_args: 0,
            yields: seq!["label"@, "key"@],
        }
    }
}

fn procedure_at(i: usize) -> (r: ProcedureDef)
    ensures
        r@ == procedure_entry(i as int),
{
    let r = match i {
        0 => ProcedureDef {
            name: "acetone.log",
            min_args: 0,
            max_args: 1,
            yields: vec!["commit", "subject"],
        },
        1 => ProcedureDef {
            name: "acetone.diff",
            min_args: 2,
            max_args: 2,
            yields: vec!["kind", "label", "key", "node"],
        },
        2 => ProcedureDef {
            name: "acetone.blame",
            min_args: 2,
            max_args: 2,
            yields: vec!["label", "key", "commit"],
        },
        _ => ProcedureDef {
            name: "acetone.conflicts",
            min_args: 0,
            max_args: 0,
            yields: vec!["label", "key"],
        },
    };
    proof {
        assert(strs_view(r.yields@) =~= procedure_entry(i as int).yields);
    }
    r
}

/// The first procedure from the entry `from` on whose name is `name` up to
/// case.
pub open spec fn procedure_named(name: Seq<char>, from: int) -> Option<ProcedureDefView>
    decreases 4 - from,
{
    if from >= 4 {
        None
    } else if text::same_ignoring_case(procedure_entry(from).name, name) {
        Some(procedure_entry(from))
    } else {
        procedure_named(name, from + 1)
    }
}

/// The procedure called `name`, up to case.
pub fn lookup_procedure(name: &str) -> (r: Option<ProcedureDef>)
    ensures
        procedure_named(name@, 0) == match r {
            Some(def) => Some(def@),
            None => None,
        },
{
    let mut i: usize = 0;
    while i < 4
        invariant
            i <= 4,
            procedure_named(name@, 0) == procedure_named(name@, i as int),
        decreases 4 - i,
    {
        let def = procedure_at(i);
        if text::eq_ignore_case(def.name, name) {
            return Some(def);
        }
        i += 1;
    }
    None
}

} // verus!
