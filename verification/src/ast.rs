//! Typed, source-spanned syntax tree of a query, with the versioning surface:
//! `AT <ref>` on `MATCH` clause groups and `CALL acetone.*` procedures.
//!
//! Every node carries a [`Span`] so the binder, planner and error paths can
//! always point back into the query text.

use vstd::prelude::*;
use vstd::string::*;

use crate::span::Span;
use crate::text;

verus! {

#[derive(Debug, Clone, Copy, PartialEq, Eq, Structural)]
pub enum Direction {
    Out,
    In,
    Undirected,
}

/// `*`, `*n`, `*n..m`, `*n..`, `*..m`. An exact length `*n` is represented as
/// `min == max == Some(n)`.
#[derive(Debug, Clone, Copy, PartialEq, Eq, Structural)]
pub struct VarLength {
    pub min: Option<u64>,
    pub max: Option<u64>,
}

#[derive(Debug, Clone, Copy, PartialEq, Eq, Structural)]
pub enum QuantifierKind {
    All,
    Any,
    NoneOf,
    Single,
}

#[derive(Debug, Clone, Copy, PartialEq, Eq, Structural)]
pub enum UnaryOp {
    Not,
    Minus,
    Plus,
}

#[derive(Debug, Clone, Copy, PartialEq, Eq, Structural)]
pub enum BinaryOp {
    Or,
    Xor,
    And,
    Eq,
    Ne,
    Lt,
    Le,
    Gt,
    Ge,
    Add,
    Sub,
    Mul,
    Div,
    Mod,
    Pow,
    In,
    StartsWith,
    EndsWith,
    Contains,
    RegexMatch,
}

/// A single openCypher query: a sequence of clauses ending in `RETURN`, a
/// write clause or a standalone procedure `CALL`.
#[derive(Debug, PartialEq, Eq)]
pub struct Query {
    pub clauses: Vec<Clause>,
    pub span: Span,
}

/// The value that a [`Query`] stands for.
pub struct QueryView {
    pub clauses: Seq<ClauseView>,
    pub span: Span,
}

#[derive(Debug, PartialEq, Eq)]
pub enum Clause {
    Match(MatchClause),
    Unwind(UnwindClause),
    With(Projection),
    Return(Projection),
    Call(CallClause),
    /// `CREATE` of one or more path patterns.
    Create(CreateClause),
    /// `SET` property/label assignments.
    SetItems(SetClause),
    /// `REMOVE` property/label removals.
    Remove(RemoveClause),
    /// `DELETE` / `DETACH DELETE`.
    Delete(DeleteClause),
    /// `MERGE` (match-or-create) with `ON CREATE SET`/`ON MATCH SET`.
    Merge(MergeClause),
}

/// The value that a [`Clause`] stands for.
pub enum ClauseView {
    Match(MatchClauseView),
    Unwind(UnwindClauseView),
    With(ProjectionView),
    Return(ProjectionView),
    Call(CallClauseView),
    Create(CreateClauseView),
    SetItems(SetClauseView),
    Remove(RemoveClauseView),
    Delete(DeleteClauseView),
    Merge(MergeClauseView),
}

#[derive(Debug, PartialEq, Eq)]
pub struct MatchClause {
    pub optional: bool,
    pub patterns: Vec<PathPattern>,
    /// `AT <refspec>`: addresses a commit other than the checked-out one. The
    /// refspec is a string literal or a parameter reference.
    pub at_ref: Option<AtRef>,
    pub where_clause: Option<Expr>,
    pub span: Span,
}

/// The value that a [`MatchClause`] stands for.
pub struct MatchClauseView {
    pub optional: bool,
    pub patterns: Seq<PathPatternView>,
    pub at_ref: Option<AtRefView>,
    pub where_clause: Option<ExprView>,
    pub span: Span,
}

#[derive(Debug, PartialEq, Eq)]
pub enum AtRef {
    Refspec { value: String, span: Span },
    Parameter { name: String, span: Span },
}

/// The value that a [`AtRef`] stands for.
pub enum AtRefView {
    Refspec { value: Seq<char>, span: Span },
    Parameter { name: Seq<char>, span: Span },
}

/// `CREATE (a:Label {..})-[:TYPE]->(b)`: one or more path patterns whose
/// unbound node/relationship variables are created.
#[derive(Debug, PartialEq, Eq)]
pub struct CreateClause {
    pub patterns: Vec<PathPattern>,
    pub span: Span,
}

/// The value that a [`CreateClause`] stands for.
pub struct CreateClauseView {
    pub patterns: Seq<PathPatternView>,
    pub span: Span,
}

/// `SET`: one or more assignments, comma-separated.
#[derive(Debug, PartialEq, Eq)]
pub struct SetClause {
    pub items: Vec<SetItem>,
    pub span: Span,
}

/// The value that a [`SetClause`] stands for.
pub struct SetClauseView {
    pub items: Seq<SetItemView>,
    pub span: Span,
}

#[derive(Debug, PartialEq, Eq)]
pub enum SetItem {
    /// `x.key = value` (a `null` value removes the property).
    Property { var: String, key: String, value: Expr, span: Span },
    /// `x = {..}`: replace the whole property map.
    Replace { var: String, value: Expr, span: Span },
    /// `x += {..}`: merge into the property map.
    Merge { var: String, value: Expr, span: Span },
    /// `x:A:B`: add labels (nodes only).
    AddLabels { var: String, labels: Vec<String>, span: Span },
}

/// The value that a [`SetItem`] stands for.
pub enum SetItemView {
    Property { var: Seq<char>, key: Seq<char>, value: ExprView, span: Span },
    Replace { var: Seq<char>, value: ExprView, span: Span },
    Merge { var: Seq<char>, value: ExprView, span: Span },
    AddLabels { var: Seq<char>, labels: Seq<Seq<char>>, span: Span },
}

/// `MERGE`: match the pattern, or create it whole if it does not exist.
/// `ON CREATE SET`/`ON MATCH SET` apply conditionally.
#[derive(Debug, PartialEq, Eq)]
pub struct MergeClause {
    pub pattern: PathPattern,
    pub on_create: Vec<SetItem>,
    pub on_match: Vec<SetItem>,
    pub span: Span,
}

/// The value that a [`MergeClause`] stands for.
pub struct MergeClauseView {
    pub pattern: PathPatternView,
    pub on_create: Seq<SetItemView>,
    pub on_match: Seq<SetItemView>,
    pub span: Span,
}

/// `DELETE` / `DETACH DELETE`: delete the entities the listed expressions
/// evaluate to. `DETACH` first removes a node's incident relationships; plain
/// `DELETE` of a connected node is an error.
#[derive(Debug, PartialEq, Eq)]
pub struct DeleteClause {
    pub detach: bool,
    pub targets: Vec<Expr>,
    pub span: Span,
}

/// The value that a [`DeleteClause`] stands for.
pub struct DeleteClauseView {
    pub detach: bool,
    pub targets: Seq<ExprView>,
    pub span: Span,
}

/// `REMOVE`: property or label removals.
#[derive(Debug, PartialEq, Eq)]
pub struct RemoveClause {
    pub items: Vec<RemoveItem>,
    pub span: Span,
}

/// The value that a [`RemoveClause`] stands for.
pub struct RemoveClauseView {
    pub items: Seq<RemoveItemView>,
    pub span: Span,
}

#[derive(Debug, PartialEq, Eq)]
pub enum RemoveItem {
    /// `REMOVE x.key`.
    Property { var: String, key: String, span: Span },
    /// `REMOVE x:A:B`: remove labels (nodes only).
    Labels { var: String, labels: Vec<String>, span: Span },
}

/// The value that a [`RemoveItem`] stands for.
pub enum RemoveItemView {
    Property { var: Seq<char>, key: Seq<char>, span: Span },
    Labels { var: Seq<char>, labels: Seq<Seq<char>>, span: Span },
}

#[derive(Debug, PartialEq, Eq)]
pub struct UnwindClause {
    pub expr: Expr,
    pub alias: String,
    pub span: Span,
}

/// The value that a [`UnwindClause`] stands for.
pub struct UnwindClauseView {
    pub expr: ExprView,
    pub alias: Seq<char>,
    pub span: Span,
}

/// The shared body of `WITH` and `RETURN`.
#[derive(Debug, PartialEq, Eq)]
pub struct Projection {
    pub distinct: bool,
    pub items: Vec<ProjectionItem>,
    pub order_by: Vec<SortItem>,
    pub skip: Option<Expr>,
    pub limit: Option<Expr>,
    /// Only meaningful on `WITH`.
    pub where_clause: Option<Expr>,
    pub span: Span,
}

/// The value that a [`Projection`] stands for.
pub struct ProjectionView {
    pub distinct: bool,
    pub items: Seq<ProjectionItemView>,
    pub order_by: Seq<SortItemView>,
    pub skip: Option<ExprView>,
    pub limit: Option<ExprView>,
    pub where_clause: Option<ExprView>,
    pub span: Span,
}

#[derive(Debug, PartialEq, Eq)]
pub enum ProjectionItem {
    /// `RETURN *`
    Star { span: Span },
    Expr { expr: Expr, alias: Option<String>, span: Span },
}

/// The value that a [`ProjectionItem`] stands for.
pub enum ProjectionItemView {
    Star { span: Span },
    Expr { expr: ExprView, alias: Option<Seq<char>>, span: Span },
}

#[derive(Debug, PartialEq, Eq)]
pub struct SortItem {
    pub expr: Expr,
    pub descending: bool,
}

/// The value that a [`SortItem`] stands for.
pub struct SortItemView {
    pub expr: ExprView,
    pub descending: bool,
}

#[derive(Debug, PartialEq, Eq)]
pub struct CallClause {
    /// Dotted procedure name, e.g. `["acetone", "diff"]`.
    pub procedure: Vec<String>,
    pub args: Vec<Expr>,
    pub yield_items: Vec<String>,
    pub where_clause: Option<Expr>,
    pub span: Span,
}

/// The value that a [`CallClause`] stands for.
pub struct CallClauseView {
    pub procedure: Seq<Seq<char>>,
    pub args: Seq<ExprView>,
    pub yield_items: Seq<Seq<char>>,
    pub where_clause: Option<ExprView>,
    pub span: Span,
}

#[derive(Debug, PartialEq, Eq)]
pub struct PathPattern {
    /// `p = (a)-[]->(b)` path binding.
    pub variable: Option<String>,
    pub start: NodePattern,
    pub steps: Vec<(RelPattern, NodePattern)>,
    pub span: Span,
}

/// The value that a [`PathPattern`] stands for.
pub struct PathPatternView {
    pub variable: Option<Seq<char>>,
    pub start: NodePatternView,
    pub steps: Seq<(RelPatternView, NodePatternView)>,
    pub span: Span,
}

#[derive(Debug, PartialEq, Eq)]
pub struct NodePattern {
    pub variable: Option<String>,
    pub labels: Vec<String>,
    /// Property map: a `MapLiteral` or a `Parameter` expression.
    pub properties: Option<Expr>,
    pub span: Span,
}

/// The value that a [`NodePattern`] stands for.
pub struct NodePatternView {
    pub variable: Option<Seq<char>>,
    pub labels: Seq<Seq<char>>,
    pub properties: Option<ExprView>,
    pub span: Span,
}

#[derive(Debug, PartialEq, Eq)]
pub struct RelPattern {
    pub variable: Option<String>,
    /// Alternatives: `[:RUNS|HOSTS]`.
    pub types: Vec<String>,
    pub direction: Direction,
    pub var_length: Option<VarLength>,
    pub properties: Option<Expr>,
    pub span: Span,
}

/// The value that a [`RelPattern`] stands for.
pub struct RelPatternView {
    pub variable: Option<Seq<char>>,
    pub types: Seq<Seq<char>>,
    pub direction: Direction,
    pub var_length: Option<VarLength>,
    pub properties: Option<ExprView>,
    pub span: Span,
}

#[derive(Debug, PartialEq, Eq)]
#[allow(inconsistent_fields)]
pub enum Expr {
    Literal { value: Literal, span: Span },
    Parameter { name: String, span: Span },
    Variable { name: String, span: Span },
    Property { base: Box<Expr>, key: String, span: Span },
    Unary { op: UnaryOp, operand: Box<Expr>, span: Span },
    Binary { op: BinaryOp, lhs: Box<Expr>, rhs: Box<Expr>, span: Span },
    IsNull { operand: Box<Expr>, negated: bool, span: Span },
    /// Function or aggregate invocation; the binder distinguishes them.
    /// `star` is the `count(*)` form.
    FunctionCall { name: Vec<String>, distinct: bool, args: Vec<Expr>, star: bool, span: Span },
    /// `CASE <expr> WHEN ...` has an operand; the searched form has none.
    Case {
        operand: Option<Box<Expr>>,
        whens: Vec<(Expr, Expr)>,
        else_expr: Option<Box<Expr>>,
        span: Span,
    },
    ListLiteral { items: Vec<Expr>, span: Span },
    ListComprehension {
        variable: String,
        list: Box<Expr>,
        where_clause: Option<Box<Expr>>,
        map: Option<Box<Expr>>,
        span: Span,
    },
    /// A list-predicate quantifier: `all|any|none|single (x IN list
    /// WHERE predicate)`.
    Quantifier {
        kind: QuantifierKind,
        variable: String,
        list: Box<Expr>,
        predicate: Box<Expr>,
        span: Span,
    },
    /// `reduce(acc = init, x IN list | expr)`.
    Reduce {
        accumulator: String,
        init: Box<Expr>,
        variable: String,
        list: Box<Expr>,
        expr: Box<Expr>,
        span: Span,
    },
    MapLiteral { entries: Vec<(String, Expr)>, span: Span },
    Index { base: Box<Expr>, index: Box<Expr>, span: Span },
    Slice { base: Box<Expr>, from: Option<Box<Expr>>, to: Option<Box<Expr>>, span: Span },
    /// A relationship pattern used as a boolean predicate in `WHERE`.
    PatternPredicate { pattern: Box<PathPattern>, span: Span },
}

/// The value that a [`Expr`] stands for.
#[allow(inconsistent_fields)]
pub enum ExprView {
    Literal { value: LiteralView, span: Span },
    Parameter { name: Seq<char>, span: Span },
    Variable { name: Seq<char>, span: Span },
    Property { base: Box<ExprView>, key: Seq<char>, span: Span },
    Unary { op: UnaryOp, operand: Box<ExprView>, span: Span },
    Binary { op: BinaryOp, lhs: Box<ExprView>, rhs: Box<ExprView>, span: Span },
    IsNull { operand: Box<ExprView>, negated: bool, span: Span },
    FunctionCall { name: Seq<Seq<char>>, distinct: bool, args: Seq<ExprView>, star: bool, span: Span },
    Case { operand: Option<Box<ExprView>>, whens: Seq<(ExprView, ExprView)>, else_expr: Option<Box<ExprView>>, span: Span },
    ListLiteral { items: Seq<ExprView>, span: Span },
    ListComprehension { variable: Seq<char>, list: Box<ExprView>, where_clause: Option<Box<ExprView>>, map: Option<Box<ExprView>>, span: Span },
    Quantifier { kind: QuantifierKind, variable: Seq<char>, list: Box<ExprView>, predicate: Box<ExprView>, span: Span },
    Reduce { accumulator: Seq<char>, init: Box<ExprView>, variable: Seq<char>, list: Box<ExprView>, expr: Box<ExprView>, span: Span },
    MapLiteral { entries: Seq<(Seq<char>, ExprView)>, span: Span },
    Index { base: Box<ExprView>, index: Box<ExprView>, span: Span },
    Slice { base: Box<ExprView>, from: Option<Box<ExprView>>, to: Option<Box<ExprView>>, span: Span },
    PatternPredicate { pattern: Box<PathPatternView>, span: Span },
}

#[derive(Debug, Clone, PartialEq, Eq)]
pub enum Literal {
    Null,
    Boolean(bool),
    Integer(i64),
    /// The bit pattern of an IEEE-754 binary64 number.
    Float(u64),
    String(String),
}

/// The value that a [`Literal`] stands for.
pub enum LiteralView {
    Null,
    Boolean(bool),
    Integer(i64),
    Float(u64),
    String(Seq<char>),
}

impl Query {
    pub open spec fn view(&self) -> QueryView
    {
        QueryView {
            clauses: clauses_view(self.clauses@),
            span: self.span,
        }
    }
}

impl Clause {
    pub open spec fn view(&self) -> ClauseView
    {
        match self {
            Clause::Match(x) => ClauseView::Match(x@),
            Clause::Unwind(x) => ClauseView::Unwind(x@),
            Clause::With(x) => ClauseView::With(x@),
            Clause::Return(x) => ClauseView::Return(x@),
            Clause::Call(x) => ClauseView::Call(x@),
            Clause::Create(x) => ClauseView::Create(x@),
            Clause::SetItems(x) => ClauseView::SetItems(x@),
            Clause::Remove(x) => ClauseView::Remove(x@),
            Clause::Delete(x) => ClauseView::Delete(x@),
            Clause::Merge(x) => ClauseView::Merge(x@),
        }
    }
}

impl MatchClause {
    pub open spec fn view(&self) -> MatchClauseView
    {
        MatchClauseView {
            optional: self.optional,
            patterns: path_patterns_view(self.patterns@),
            at_ref: match self.at_ref { Some(x) => Some(x@), None => None },
            where_clause: match self.where_clause { Some(x) => Some(x@), None => None },
            span: self.span,
        }
    }
}

impl AtRef {
    pub open spec fn view(&self) -> AtRefView
    {
        match self {
            AtRef::Refspec { value, span } => AtRefView::Refspec {
                value: value@,
                span: *span,
            },
            AtRef::Parameter { name, span } => AtRefView::Parameter {
                name: name@,
                span: *span,
            },
        }
    }
}

impl CreateClause {
    pub open spec fn view(&self) -> CreateClauseView
    {
        CreateClauseView {
            patterns: path_patterns_view(self.patterns@),
            span: self.span,
        }
    }
}

impl SetClause {
    pub open spec fn view(&self) -> SetClauseView
    {
        SetClauseView {
            items: set_items_view(self.items@),
            span: self.span,
        }
    }
}

impl SetItem {
    pub open spec fn view(&self) -> SetItemView
    {
        match self {
            SetItem::Property { var, key, value, span } => SetItemView::Property {
                var: var@,
                key: key@,
                value: value@,
                span: *span,
            },
            SetItem::Replace { var, value, span } => SetItemView::Replace {
                var: var@,
                value: value@,
                span: *span,
            },
            SetItem::Merge { var, value, span } => SetItemView::Merge {
                var: var@,
                value: value@,
                span: *span,
            },
            SetItem::AddLabels { var, labels, span } => SetItemView::AddLabels {
                var: var@,
                labels: text::strings_view(labels@),
                span: *span,
            },
        }
    }
}

impl MergeClause {
    pub open spec fn view(&self) -> MergeClauseView
    {
        MergeClauseView {
            pattern: self.pattern@,
            on_create: set_items_view(self.on_create@),
            on_match: set_items_view(self.on_match@),
            span: self.span,
        }
    }
}

impl DeleteClause {
    pub open spec fn view(&self) -> DeleteClauseView
    {
        DeleteClauseView {
            detach: self.detach,
            targets: exprs_view(self.targets@),
            span: self.span,
        }
    }
}

impl RemoveClause {
    pub open spec fn view(&self) -> RemoveClauseView
    {
        RemoveClauseView {
            items: remove_items_view(self.items@),
            span: self.span,
        }
    }
}

impl RemoveItem {
    pub open spec fn view(&self) -> RemoveItemView
    {
        match self {
            RemoveItem::Property { var, key, span } => RemoveItemView::Property {
                var: var@,
                key: key@,
                span: *span,
            },
            RemoveItem::Labels { var, labels, span } => RemoveItemView::Labels {
                var: var@,
                labels: text::strings_view(labels@),
                span: *span,
            },
        }
    }
}

impl UnwindClause {
    pub open spec fn view(&self) -> UnwindClauseView
    {
        UnwindClauseView {
            expr: self.expr@,
            alias: self.alias@,
            span: self.span,
        }
    }
}

impl Projection {
    pub open spec fn view(&self) -> ProjectionView
    {
        ProjectionView {
            distinct: self.distinct,
            items: projection_items_view(self.items@),
            order_by: sort_items_view(self.order_by@),
            skip: match self.skip { Some(x) => Some(x@), None => None },
            limit: match self.limit { Some(x) => Some(x@), None => None },
            where_clause: match self.where_clause { Some(x) => Some(x@), None => None },
            span: self.span,
        }
    }
}

impl ProjectionItem {
    pub open spec fn view(&self) -> ProjectionItemView
    {
        match self {
            ProjectionItem::Star { span } => ProjectionItemView::Star {
                span: *span,
            },
            ProjectionItem::Expr { expr, alias, span } => ProjectionItemView::Expr {
                expr: expr@,
                alias: match alias { Some(x) => Some(x@), None => None },
                span: *span,
            },
        }
    }
}

impl SortItem {
    pub open spec fn view(&self) -> SortItemView
    {
        SortItemView {
            expr: self.expr@,
            descending: self.descending,
        }
    }
}

impl CallClause {
    pub open spec fn view(&self) -> CallClauseView
    {
        CallClauseView {
            procedure: text::strings_view(self.procedure@),
            args: exprs_view(self.args@),
            yield_items: text::strings_view(self.yield_items@),
            where_clause: match self.where_clause { Some(x) => Some(x@), None => None },
            span: self.span,
        }
    }
}

impl PathPattern {
    #[verifier::opaque]
    pub open spec fn view(&self) -> PathPatternView
        decreases self,
    {
        PathPatternView {
            variable: match self.variable { Some(x) => Some(x@), None => None },
            start: self.start@,
            steps: rel_pattern_node_patterns_view(self.steps@),
            span: self.span,
        }
    }

    /// What the fields of the view are.
    pub proof fn lemma_view(&self)
        ensures
            self@.variable == (match self.variable { Some(x) => Some(x@), None => None }),
            self@.start == self.start@,
            self@.steps == rel_pattern_node_patterns_view(self.steps@),
            self@.span == self.span,
    {
        reveal(PathPattern::view);
        reveal(NodePattern::view);
    }
}

impl NodePattern {
    #[verifier::opaque]
    pub open spec fn view(&self) -> NodePatternView
        decreases self,
    {
        NodePatternView {
            variable: match self.variable { Some(x) => Some(x@), None => None },
            labels: text::strings_view(self.labels@),
            properties: match self.properties { Some(x) => Some(x@), None => None },
            span: self.span,
        }
    }

    /// What the fields of the view are.
    pub proof fn lemma_view(&self)
        ensures
            self@.variable == (match self.variable { Some(x) => Some(x@), None => None }),
            self@.labels == text::strings_view(self.labels@),
            self@.properties == (match self.properties { Some(x) => Some(x@), None => None }),
            self@.span == self.span,
    {
        reveal(NodePattern::view);
    }
}

impl RelPattern {
    #[verifier::opaque]
    pub open spec fn view(&self) -> RelPatternView
        decreases self,
    {
        RelPatternView {
            variable: match self.variable { Some(x) => Some(x@), None => None },
            types: text::strings_view(self.types@),
            direction: self.direction,
            var_length: self.var_length,
            properties: match self.properties { Some(x) => Some(x@), None => None },
            span: self.span,
        }
    }

    /// What the fields of the view are.
    pub proof fn lemma_view(&self)
        ensures
            self@.variable == (match self.variable { Some(x) => Some(x@), None => None }),
            self@.types == text::strings_view(self.types@),
            self@.direction == self.direction,
            self@.var_length == self.var_length,
            self@.properties == (match self.properties { Some(x) => Some(x@), None => None }),
            self@.span == self.span,
    {
        reveal(RelPattern::view);
    }
}

impl Expr {
    pub open spec fn view(&self) -> ExprView
        decreases self,
    {
        match self {
            Expr::Literal { value, span } => ExprView::Literal {
                value: value@,
                span: *span,
            },
            Expr::Parameter { name, span } => ExprView::Parameter {
                name: name@,
                span: *span,
            },
            Expr::Variable { name, span } => ExprView::Variable {
                name: name@,
                span: *span,
            },
            Expr::Property { base, key, span } => ExprView::Property {
                base: Box::new(base@),
                key: key@,
                span: *span,
            },
            Expr::Unary { op, operand, span } => ExprView::Unary {
                op: *op,
                operand: Box::new(operand@),
                span: *span,
            },
            Expr::Binary { op, lhs, rhs, span } => ExprView::Binary {
                op: *op,
                lhs: Box::new(lhs@),
                rhs: Box::new(rhs@),
                span: *span,
            },
            Expr::IsNull { operand, negated, span } => ExprView::IsNull {
                operand: Box::new(operand@),
                negated: *negated,
                span: *span,
            },
            Expr::FunctionCall { name, distinct, args, star, span } => ExprView::FunctionCall {
                name: text::strings_view(name@),
                distinct: *distinct,
                args: exprs_view(args@),
                star: *star,
                span: *span,
            },
            Expr::Case { operand, whens, else_expr, span } => ExprView::Case {
                operand: match operand { Some(x) => Some(Box::new(x@)), None => None },
                whens: expr_exprs_view(whens@),
                else_expr: match else_expr { Some(x) => Some(Box::new(x@)), None => None },
                span: *span,
            },
            Expr::ListLiteral { items, span } => ExprView::ListLiteral {
                items: exprs_view(items@),
                span: *span,
            },
            Expr::ListComprehension { variable, list, where_clause, map, span } => ExprView::ListComprehension {
                variable: variable@,
                list: Box::new(list@),
                where_clause: match where_clause { Some(x) => Some(Box::new(x@)), None => None },
                map: match map { Some(x) => Some(Box::new(x@)), None => None },
                span: *span,
            },
            Expr::Quantifier { kind, variable, list, predicate, span } => ExprView::Quantifier {
                kind: *kind,
                variable: variable@,
                list: Box::new(list@),
                predicate: Box::new(predicate@),
                span: *span,
            },
            Expr::Reduce { accumulator, init, variable, list, expr, span } => ExprView::Reduce {
                accumulator: accumulator@,
                init: Box::new(init@),
                variable: variable@,
                list: Box::new(list@),
                expr: Box::new(expr@),
                span: *span,
            },
            Expr::MapLiteral { entries, span } => ExprView::MapLiteral {
                entries: string_exprs_view(entries@),
                span: *span,
            },
            Expr::Index { base, index, span } => ExprView::Index {
                base: Box::new(base@),
                index: Box::new(index@),
                span: *span,
            },
            Expr::Slice { base, from, to, span } => ExprView::Slice {
                base: Box::new(base@),
                from: match from { Some(x) => Some(Box::new(x@)), None => None },
                to: match to { Some(x) => Some(Box::new(x@)), None => None },
                span: *span,
            },
            Expr::PatternPredicate { pattern, span } => ExprView::PatternPredicate {
                pattern: Box::new(pattern@),
                span: *span,
            },
        }
    }
}

impl Literal {
    pub open spec fn view(&self) -> LiteralView
    {
        match self {
            Literal::Null => LiteralView::Null,
            Literal::Boolean(x) => LiteralView::Boolean(*x),
            Literal::Integer(x) => LiteralView::Integer(*x),
            Literal::Float(x) => LiteralView::Float(*x),
            Literal::String(x) => LiteralView::String(x@),
        }
    }
}

pub open spec fn clauses_view(v: Seq<Clause>) -> Seq<ClauseView>
{
    Seq::new(v.len(), |i: int| v[i]@)
}

pub open spec fn path_patterns_view(v: Seq<PathPattern>) -> Seq<PathPatternView>
    decreases v,
{
    Seq::new(v.len(), |i: int| if 0 <= i < v.len() { v[i]@ } else { arbitrary() })
}

pub open spec fn set_items_view(v: Seq<SetItem>) -> Seq<SetItemView>
{
    Seq::new(v.len(), |i: int| v[i]@)
}

pub open spec fn exprs_view(v: Seq<Expr>) -> Seq<ExprView>
    decreases v,
{
    Seq::new(v.len(), |i: int| if 0 <= i < v.len() { v[i]@ } else { arbitrary() })
}

pub open spec fn remove_items_view(v: Seq<RemoveItem>) -> Seq<RemoveItemView>
{
    Seq::new(v.len(), |i: int| v[i]@)
}

pub open spec fn projection_items_view(v: Seq<ProjectionItem>) -> Seq<ProjectionItemView>
{
    Seq::new(v.len(), |i: int| v[i]@)
}

pub open spec fn sort_items_view(v: Seq<SortItem>) -> Seq<SortItemView>
{
    Seq::new(v.len(), |i: int| v[i]@)
}

pub open spec fn rel_pattern_node_patterns_view(
    v: Seq<(RelPattern, NodePattern)>,
) -> Seq<(RelPatternView, NodePatternView)>
    decreases v,
{
    Seq::new(v.len(), |i: int| if 0 <= i < v.len() { (v[i].0@, v[i].1@) } else { arbitrary() })
}

pub open spec fn expr_exprs_view(v: Seq<(Expr, Expr)>) -> Seq<(ExprView, ExprView)>
    decreases v,
{
    Seq::new(v.len(), |i: int| if 0 <= i < v.len() { (v[i].0@, v[i].1@) } else { arbitrary() })
}

pub open spec fn string_exprs_view(v: Seq<(String, Expr)>) -> Seq<(Seq<char>, ExprView)>
    decreases v,
{
    Seq::new(v.len(), |i: int| if 0 <= i < v.len() { (v[i].0@, v[i].1@) } else { arbitrary() })
}

// --- Spans -----------------------------------------------------------------------------

impl ExprView {
    /// The source range of the expression.
    pub open spec fn place(self) -> Span {
        match self {
            ExprView::Literal { span, .. } => span,
            ExprView::Parameter { span, .. } => span,
            ExprView::Variable { span, .. } => span,
            ExprView::Property { span, .. } => span,
            ExprView::Unary { span, .. } => span,
            ExprView::Binary { span, .. } => span,
            ExprView::IsNull { span, .. } => span,
            ExprView::FunctionCall { span, .. } => span,
            ExprView::Case { span, .. } => span,
            ExprView::ListLiteral { span, .. } => span,
            ExprView::ListComprehension { span, .. } => span,
            ExprView::Quantifier { span, .. } => span,
            ExprView::Reduce { span, .. } => span,
            ExprView::MapLiteral { span, .. } => span,
            ExprView::Index { span, .. } => span,
            ExprView::Slice { span, .. } => span,
            ExprView::PatternPredicate { span, .. } => span,
        }
    }
}

impl Clause {
    /// The source range of the clause.
    pub open spec fn place(&self) -> Span {
        match self {
            Clause::Match(c) => c.span,
            Clause::Unwind(c) => c.span,
            Clause::With(p) => p.span,
            Clause::Return(p) => p.span,
            Clause::Call(c) => c.span,
            Clause::Create(c) => c.span,
            Clause::SetItems(c) => c.span,
            Clause::Remove(c) => c.span,
            Clause::Delete(c) => c.span,
            Clause::Merge(c) => c.span,
        }
    }

    pub fn span(&self) -> (r: Span)
        ensures
            r == self.place(),
    {
        match self {
            Clause::Match(c) => c.span,
            Clause::Unwind(c) => c.span,
            Clause::With(p) | Clause::Return(p) => p.span,
            Clause::Call(c) => c.span,
            Clause::Create(c) => c.span,
            Clause::SetItems(c) => c.span,
            Clause::Remove(c) => c.span,
            Clause::Delete(c) => c.span,
            Clause::Merge(c) => c.span,
        }
    }

    /// Whether this clause writes to the graph. A query may end on a write
    /// clause with no trailing `RETURN`.
    pub fn is_write(&self) -> (r: bool)
        ensures
            r == writes(self@),
    {
        matches!(
            self,
            Clause::Create(_)
                | Clause::SetItems(_)
                | Clause::Remove(_)
                | Clause::Delete(_)
                | Clause::Merge(_)
        )
    }
}

/// Whether a clause writes to the graph.
pub open spec fn writes(clause: ClauseView) -> bool {
    clause is Create || clause is SetItems || clause is Remove || clause is Delete
        || clause is Merge
}

/// The source range of a clause.
pub open spec fn clause_place(clause: ClauseView) -> Span {
    match clause {
        ClauseView::Match(c) => c.span,
        ClauseView::Unwind(c) => c.span,
        ClauseView::With(p) => p.span,
        ClauseView::Return(p) => p.span,
        ClauseView::Call(c) => c.span,
        ClauseView::Create(c) => c.span,
        ClauseView::SetItems(c) => c.span,
        ClauseView::Remove(c) => c.span,
        ClauseView::Delete(c) => c.span,
        ClauseView::Merge(c) => c.span,
    }
}

impl AtRef {
    pub open spec fn place(&self) -> Span {
        match self {
            AtRef::Refspec { span, .. } => *span,
            AtRef::Parameter { span, .. } => *span,
        }
    }

    pub fn span(&self) -> (r: Span)
        ensures
            r == self.place(),
    {
        match self {
            AtRef::Refspec { span, .. } | AtRef::Parameter { span, .. } => *span,
        }
    }
}

impl SetItem {
    pub open spec fn place(&self) -> Span {
        match self {
            SetItem::Property { span, .. } => *span,
            SetItem::Replace { span, .. } => *span,
            SetItem::Merge { span, .. } => *span,
            SetItem::AddLabels { span, .. } => *span,
        }
    }

    pub fn span(&self) -> (r: Span)
        ensures
            r == self.place(),
    {
        match self {
            SetItem::Property { span, .. }
            | SetItem::Replace { span, .. }
            | SetItem::Merge { span, .. }
            | SetItem::AddLabels { span, .. } => *span,
        }
    }
}

impl RemoveItem {
    pub open spec fn place(&self) -> Span {
        match self {
            RemoveItem::Property { span, .. } => *span,
            RemoveItem::Labels { span, .. } => *span,
        }
    }

    pub fn span(&self) -> (r: Span)
        ensures
            r == self.place(),
    {
        match self {
            RemoveItem::Property { span, .. } | RemoveItem::Labels { span, .. } => *span,
        }
    }
}

/// `e` with the source range `new_span`.
pub open spec fn with_span(e: ExprView, new_span: Span) -> ExprView {
    match e {
        ExprView::Literal { value, span } => ExprView::Literal { value, span: new_span },
        ExprView::Parameter { name, span } => ExprView::Parameter { name, span: new_span },
        ExprView::Variable { name, span } => ExprView::Variable { name, span: new_span },
        ExprView::Property { base, key, span } => ExprView::Property { base, key, span: new_span },
        ExprView::Unary { op, operand, span } => ExprView::Unary { op, operand, span: new_span },
        ExprView::Binary { op, lhs, rhs, span } => ExprView::Binary { op, lhs, rhs, span: new_span },
        ExprView::IsNull { operand, negated, span } => ExprView::IsNull { operand, negated, span: new_span },
        ExprView::FunctionCall { name, distinct, args, star, span } => ExprView::FunctionCall { name, distinct, args, star, span: new_span },
        ExprView::Case { operand, whens, else_expr, span } => ExprView::Case { operand, whens, else_expr, span: new_span },
        ExprView::ListLiteral { items, span } => ExprView::ListLiteral { items, span: new_span },
        ExprView::ListComprehension { variable, list, where_clause, map, span } => ExprView::ListComprehension { variable, list, where_clause, map, span: new_span },
        ExprView::Quantifier { kind, variable, list, predicate, span } => ExprView::Quantifier { kind, variable, list, predicate, span: new_span },
        ExprView::Reduce { accumulator, init, variable, list, expr, span } => ExprView::Reduce { accumulator, init, variable, list, expr, span: new_span },
        ExprView::MapLiteral { entries, span } => ExprView::MapLiteral { entries, span: new_span },
        ExprView::Index { base, index, span } => ExprView::Index { base, index, span: new_span },
        ExprView::Slice { base, from, to, span } => ExprView::Slice { base, from, to, span: new_span },
        ExprView::PatternPredicate { pattern, span } => ExprView::PatternPredicate { pattern, span: new_span },
    }
}

impl Expr {
    pub fn span(&self) -> (r: Span)
        ensures
            r == self@.place(),
    {
        match self {
            Expr::Literal { span, .. }
            | Expr::Parameter { span, .. }
            | Expr::Variable { span, .. }
            | Expr::Property { span, .. }
            | Expr::Unary { span, .. }
            | Expr::Binary { span, .. }
            | Expr::IsNull { span, .. }
            | Expr::FunctionCall { span, .. }
            | Expr::Case { span, .. }
            | Expr::ListLiteral { span, .. }
            | Expr::ListComprehension { span, .. }
            | Expr::Quantifier { span, .. }
            | Expr::Reduce { span, .. }
            | Expr::MapLiteral { span, .. }
            | Expr::Index { span, .. }
            | Expr::Slice { span, .. }
            | Expr::PatternPredicate { span, .. } => *span,
        }
    }

    /// Overwrite this node's span (parenthesised expressions cover their
    /// parentheses for faithful source rendering).
    pub fn set_span(&mut self, new_span: Span)
        ensures
            final(self)@ == with_span(old(self)@, new_span),
    {
        match self {
            Expr::Literal { span, .. } => {
                *span = new_span;
            },
            Expr::Parameter { span, .. } => {
                *span = new_span;
            },
            Expr::Variable { span, .. } => {
                *span = new_span;
            },
            Expr::Property { span, .. } => {
                *span = new_span;
            },
            Expr::Unary { span, .. } => {
                *span = new_span;
            },
            Expr::Binary { span, .. } => {
                *span = new_span;
            },
            Expr::IsNull { span, .. } => {
                *span = new_span;
            },
            Expr::FunctionCall { span, .. } => {
                *span = new_span;
            },
            Expr::Case { span, .. } => {
                *span = new_span;
            },
            Expr::ListLiteral { span, .. } => {
                *span = new_span;
            },
            Expr::ListComprehension { span, .. } => {
                *span = new_span;
            },
            Expr::Quantifier { span, .. } => {
                *span = new_span;
            },
            Expr::Reduce { span, .. } => {
                *span = new_span;
            },
            Expr::MapLiteral { span, .. } => {
                *span = new_span;
            },
            Expr::Index { span, .. } => {
                *span = new_span;
            },
            Expr::Slice { span, .. } => {
                *span = new_span;
            },
            Expr::PatternPredicate { span, .. } => {
                *span = new_span;
            },
        }
    }
}

} // verus!
