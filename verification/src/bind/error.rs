//! Binder errors. Every variant carries a span; `tck_detail` maps a variant to
//! the openCypher TCK's error-detail vocabulary.

use vstd::prelude::*;
use vstd::string::*;

use crate::span::{self, Span};
use crate::text;

verus! {

/// An optional "did you mean ...?" suffix of an "unknown X" error: the closest
/// candidate, if any. Candidates come from the schema catalogue, so the name is
/// escaped rather than shown raw.
#[derive(Debug, Clone, PartialEq, Eq)]
pub struct Suggestion(pub Option<String>);

/// The value that a [`Suggestion`] stands for.
pub type SuggestionView = Option<Seq<char>>;

/// How a suggestion reads; nothing where there is none.
pub open spec fn hint(suggestion: SuggestionView) -> Seq<char> {
    match suggestion {
        Some(name) => " — did you mean "@ + text::quoted(name) + "?"@,
        None => ""@,
    }
}

impl Suggestion {
    pub open spec fn view(&self) -> SuggestionView {
        match self.0 {
            Some(name) => Some(name@),
            None => None,
        }
    }

    /// No near match.
    pub fn none() -> (r: Suggestion)
        ensures
            r@ is None,
    {
        Suggestion(None)
    }

    /// The suffix.
    pub fn display(&self) -> (r: String)
        ensures
            r@ == hint(self@),
    {
        match &self.0 {
            Some(name) => text::join3(" — did you mean ", text::quote(name.as_str()).as_str(), "?"),
            None => "".to_owned(),
        }
    }
}

/// Why a query does not bind. Every variant carries a [`Span`] into the query's
/// source.
#[derive(Debug, Clone, PartialEq, Eq)]
pub enum BindError {
    UndefinedVariable { name: String, span: Span },
    VariableAlreadyBound { name: String, span: Span },
    VariableTypeConflict {
        name: String,
        expected: &'static str,
        actual: &'static str,
        span: Span,
    },
    UnknownFunction { name: String, span: Span, suggestion: Suggestion },
    InvalidNumberOfArguments { name: String, expected: String, got: usize, span: Span },
    InvalidAggregation { span: Span },
    NestedAggregation { span: Span },
    /// A value that is no grouping key stands beside an aggregate.
    AmbiguousAggregation { span: Span },
    ColumnNameConflict { name: String, span: Span },
    NoVariablesInScope { span: Span },
    NoExpressionAlias { span: Span },
    UnknownLabel { name: String, span: Span, suggestion: Suggestion },
    /// The relationship type is echoed into a suggested shell command, where it
    /// is escaped (`declare_cmd`): a backquoted name can carry control
    /// characters.
    UnknownRelType { name: String, declare_cmd: String, span: Span, suggestion: Suggestion },
    UnknownProperty { label: String, property: String, span: Span, suggestion: Suggestion },
    ProcedureNotFound { name: String, span: Span },
    UnknownYieldColumn { procedure: String, column: String, span: Span },
    NewVariableInPatternPredicate { name: String, span: Span },
    CreateRequiresDirectedRelationship { span: Span },
    CreateRequiresRelType { span: Span },
    CreateRequiresSingleRelType { span: Span },
    CreateVarLengthRelationship { span: Span },
    CreateBoundNodeWithProperties { name: String, span: Span },
    SetKeyProperty { label: String, property: String, span: Span },
}

/// The value that a [`BindError`] stands for.
pub enum BindErrorView {
    UndefinedVariable { name: Seq<char>, span: Span },
    VariableAlreadyBound { name: Seq<char>, span: Span },
    VariableTypeConflict { name: Seq<char>, expected: Seq<char>, actual: Seq<char>, span: Span },
    UnknownFunction { name: Seq<char>, span: Span, suggestion: SuggestionView },
    InvalidNumberOfArguments { name: Seq<char>, expected: Seq<char>, got: usize, span: Span },
    InvalidAggregation { span: Span },
    NestedAggregation { span: Span },
    AmbiguousAggregation { span: Span },
    ColumnNameConflict { name: Seq<char>, span: Span },
    NoVariablesInScope { span: Span },
    NoExpressionAlias { span: Span },
    UnknownLabel { name: Seq<char>, span: Span, suggestion: SuggestionView },
    UnknownRelType { name: Seq<char>, declare_cmd: Seq<char>, span: Span, suggestion: SuggestionView },
    UnknownProperty { label: Seq<char>, property: Seq<char>, span: Span, suggestion: SuggestionView },
    ProcedureNotFound { name: Seq<char>, span: Span },
    UnknownYieldColumn { procedure: Seq<char>, column: Seq<char>, span: Span },
    NewVariableInPatternPredicate { name: Seq<char>, span: Span },
    CreateRequiresDirectedRelationship { span: Span },
    CreateRequiresRelType { span: Span },
    CreateRequiresSingleRelType { span: Span },
    CreateVarLengthRelationship { span: Span },
    CreateBoundNodeWithProperties { name: Seq<char>, span: Span },
    SetKeyProperty { label: Seq<char>, property: Seq<char>, span: Span },
}

impl BindError {
    pub open spec fn view(&self) -> BindErrorView
    {
        match self {
            BindError::UndefinedVariable { name, span } => BindErrorView::UndefinedVariable {
                name: name@,
                span: *span,
            },
            BindError::VariableAlreadyBound { name, span } => BindErrorView::VariableAlreadyBound {
                name: name@,
                span: *span,
            },
            BindError::VariableTypeConflict { name, expected, actual, span } => BindErrorView::VariableTypeConflict {
                name: name@,
                expected: expected@,
                actual: actual@,
                span: *span,
            },
            BindError::UnknownFunction { name, span, suggestion } => BindErrorView::UnknownFunction {
                name: name@,
                span: *span,
                suggestion: suggestion@,
            },
            BindError::InvalidNumberOfArguments { name, expected, got, span } => BindErrorView::InvalidNumberOfArguments {
                name: name@,
                expected: expected@,
                got: *got,
                span: *span,
            },
            BindError::InvalidAggregation { span } => BindErrorView::InvalidAggregation {
                span: *span,
            },
            BindError::NestedAggregation { span } => BindErrorView::NestedAggregation {
                span: *span,
            },
            BindError::AmbiguousAggregation { span } => BindErrorView::AmbiguousAggregation {
                span: *span,
            },
            BindError::ColumnNameConflict { name, span } => BindErrorView::ColumnNameConflict {
                name: name@,
                span: *span,
            },
            BindError::NoVariablesInScope { span } => BindErrorView::NoVariablesInScope {
                span: *span,
            },
            BindError::NoExpressionAlias { span } => BindErrorView::NoExpressionAlias {
                span: *span,
            },
            BindError::UnknownLabel { name, span, suggestion } => BindErrorView::UnknownLabel {
                name: name@,
                span: *span,
                suggestion: suggestion@,
            },
            BindError::UnknownRelType { name, declare_cmd, span, suggestion } => BindErrorView::UnknownRelType {
                name: name@,
                declare_cmd: declare_cmd@,
                span: *span,
                suggestion: suggestion@,
            },
            BindError::UnknownProperty { label, property, span, suggestion } => BindErrorView::UnknownProperty {
                label: label@,
                property: property@,
                span: *span,
                suggestion: suggestion@,
            },
            BindError::ProcedureNotFound { name, span } => BindErrorView::ProcedureNotFound {
                name: name@,
                span: *span,
            },
            BindError::UnknownYieldColumn { procedure, column, span } => BindErrorView::UnknownYieldColumn {
                procedure: procedure@,
                column: column@,
                span: *span,
            },
            BindError::NewVariableInPatternPredicate { name, span } => BindErrorView::NewVariableInPatternPredicate {
                name: name@,
                span: *span,
            },
            BindError::CreateRequiresDirectedRelationship { span } => BindErrorView::CreateRequiresDirectedRelationship {
                span: *span,
            },
            BindError::CreateRequiresRelType { span } => BindErrorView::CreateRequiresRelType {
                span: *span,
            },
            BindError::CreateRequiresSingleRelType { span } => BindErrorView::CreateRequiresSingleRelType {
                span: *span,
            },
            BindError::CreateVarLengthRelationship { span } => BindErrorView::CreateVarLengthRelationship {
                span: *span,
            },
            BindError::CreateBoundNodeWithProperties { name, span } => BindErrorView::CreateBoundNodeWithProperties {
                name: name@,
                span: *span,
            },
            BindError::SetKeyProperty { label, property, span } => BindErrorView::SetKeyProperty {
                label: label@,
                property: property@,
                span: *span,
            },
        }
    }
}

impl BindErrorView {
    /// The source range the error points at.
    pub open spec fn place(self) -> Span {
        match self {
            BindErrorView::UndefinedVariable { span, .. } => span,
            BindErrorView::VariableAlreadyBound { span, .. } => span,
            BindErrorView::VariableTypeConflict { span, .. } => span,
            BindErrorView::UnknownFunction { span, .. } => span,
            BindErrorView::InvalidNumberOfArguments { span, .. } => span,
            BindErrorView::InvalidAggregation { span, .. } => span,
            BindErrorView::NestedAggregation { span, .. } => span,
            BindErrorView::AmbiguousAggregation { span, .. } => span,
            BindErrorView::ColumnNameConflict { span, .. } => span,
            BindErrorView::NoVariablesInScope { span, .. } => span,
            BindErrorView::NoExpressionAlias { span, .. } => span,
            BindErrorView::UnknownLabel { span, .. } => span,
            BindErrorView::UnknownRelType { span, .. } => span,
            BindErrorView::UnknownProperty { span, .. } => span,
            BindErrorView::ProcedureNotFound { span, .. } => span,
            BindErrorView::UnknownYieldColumn { span, .. } => span,
            BindErrorView::NewVariableInPatternPredicate { span, .. } => span,
            BindErrorView::CreateRequiresDirectedRelationship { span, .. } => span,
            BindErrorView::CreateRequiresRelType { span, .. } => span,
            BindErrorView::CreateRequiresSingleRelType { span, .. } => span,
            BindErrorView::CreateVarLengthRelationship { span, .. } => span,
            BindErrorView::CreateBoundNodeWithProperties { span, .. } => span,
            BindErrorView::SetKeyProperty { span, .. } => span,
        }
    }

    /// The error's text.
    pub open spec fn shown(self) -> Seq<char> {
        match self {
            BindErrorView::UndefinedVariable { name, .. } => "undefined variable '"@ + name + "'"@,
            BindErrorView::VariableAlreadyBound { name, .. } => "variable '"@ + name + "' is already bound"@,
            BindErrorView::VariableTypeConflict { name, expected, actual, .. } => "variable '"@ + name + "' is a "@ + actual + ", expected a "@ + expected,
            BindErrorView::UnknownFunction { name, suggestion, .. } => "unknown function '"@ + name + "'"@ + hint(suggestion),
            BindErrorView::InvalidNumberOfArguments { name, expected, got, .. } => "wrong number of arguments for '"@ + name + "': got "@ + text::decimal(got as nat) + ", expected "@ + expected,
            BindErrorView::InvalidAggregation { .. } => "aggregation is not allowed here"@,
            BindErrorView::NestedAggregation { .. } => "aggregate functions cannot be nested"@,
            BindErrorView::AmbiguousAggregation { .. } => "an expression beside an aggregate may only refer to grouping keys"@,
            BindErrorView::ColumnNameConflict { name, .. } => "duplicate column name '"@ + name + "'"@,
            BindErrorView::NoVariablesInScope { .. } => "RETURN * requires at least one variable in scope"@,
            BindErrorView::NoExpressionAlias { .. } => "expressions in a projection must be aliased before reuse"@,
            BindErrorView::UnknownLabel { name, suggestion, .. } => "unknown label '"@ + name + "' (declared labels come from the schema map)"@ + hint(suggestion),
            BindErrorView::UnknownRelType { name, declare_cmd, suggestion, .. } => "unknown relationship type '"@ + name + "' — declare it first with `acetone declare-rel-type "@ + declare_cmd + "`"@ + hint(suggestion),
            BindErrorView::UnknownProperty { label, property, suggestion, .. } => "unknown property '"@ + property + "' on label '"@ + label + "'"@ + hint(suggestion),
            BindErrorView::ProcedureNotFound { name, .. } => "unknown procedure '"@ + name + "'"@,
            BindErrorView::UnknownYieldColumn { procedure, column, .. } => "procedure '"@ + procedure + "' does not yield '"@ + column + "'"@,
            BindErrorView::NewVariableInPatternPredicate { name, .. } => "pattern predicates cannot introduce new variables ('"@ + name + "')"@,
            BindErrorView::CreateRequiresDirectedRelationship { .. } => "CREATE requires a directed relationship"@,
            BindErrorView::CreateRequiresRelType { .. } => "CREATE requires a relationship type — write it with a colon, e.g. `[:LINK]`; a bare `[LINK]` is a variable, not a type"@,
            BindErrorView::CreateRequiresSingleRelType { .. } => "CREATE requires exactly one relationship type"@,
            BindErrorView::CreateVarLengthRelationship { .. } => "variable-length relationships cannot be created"@,
            BindErrorView::CreateBoundNodeWithProperties { name, .. } => "cannot create node '"@ + name + "' with labels or properties here; it is already bound"@,
            BindErrorView::SetKeyProperty { label, property, .. } => "cannot modify key property '"@ + property + "' of label '"@ + label + "' (node identity is immutable; SET/REMOVE must not touch key properties)"@,
        }
    }

    /// The TCK's name for this error, where one exists.
    pub open spec fn detail(self) -> Option<Seq<char>> {
        match self {
            BindErrorView::UndefinedVariable { .. } => Some("UndefinedVariable"@),
            BindErrorView::VariableAlreadyBound { .. } => Some("VariableAlreadyBound"@),
            BindErrorView::VariableTypeConflict { .. } => Some("VariableTypeConflict"@),
            BindErrorView::UnknownFunction { .. } => Some("UnknownFunction"@),
            BindErrorView::InvalidNumberOfArguments { .. } => Some("InvalidNumberOfArguments"@),
            BindErrorView::InvalidAggregation { .. } => Some("InvalidAggregation"@),
            BindErrorView::NestedAggregation { .. } => Some("NestedAggregation"@),
            BindErrorView::AmbiguousAggregation { .. } => Some("AmbiguousAggregationExpression"@),
            BindErrorView::ColumnNameConflict { .. } => Some("ColumnNameConflict"@),
            BindErrorView::NoVariablesInScope { .. } => Some("NoVariablesInScope"@),
            BindErrorView::NoExpressionAlias { .. } => Some("NoExpressionAlias"@),
            BindErrorView::UnknownLabel { .. } => None,
            BindErrorView::UnknownRelType { .. } => None,
            BindErrorView::UnknownProperty { .. } => None,
            BindErrorView::ProcedureNotFound { .. } => Some("ProcedureNotFound"@),
            BindErrorView::UnknownYieldColumn { .. } => None,
            BindErrorView::NewVariableInPatternPredicate { .. } => Some("UndefinedVariable"@),
            BindErrorView::CreateRequiresDirectedRelationship { .. } => Some(
                "RequiresDirectedRelationship"@,
            ),
            BindErrorView::CreateRequiresRelType { .. } => Some("NoSingleRelationshipType"@),
            BindErrorView::CreateRequiresSingleRelType { .. } => Some("NoSingleRelationshipType"@),
            BindErrorView::CreateVarLengthRelationship { .. } => Some("CreatingVarLength"@),
            BindErrorView::CreateBoundNodeWithProperties { .. } => Some("VariableAlreadyBound"@),
            BindErrorView::SetKeyProperty { .. } => None,
        }
    }
}

impl BindError {
    /// The source range the error points at.
    pub fn span(&self) -> (r: Span)
        ensures
            r == self@.place(),
    {
        match self {
            BindError::UndefinedVariable { span, .. }
            | BindError::VariableAlreadyBound { span, .. }
            | BindError::VariableTypeConflict { span, .. }
            | BindError::UnknownFunction { span, .. }
            | BindError::InvalidNumberOfArguments { span, .. }
            | BindError::InvalidAggregation { span, .. }
            | BindError::NestedAggregation { span, .. }
            | BindError::AmbiguousAggregation { span, .. }
            | BindError::ColumnNameConflict { span, .. }
            | BindError::NoVariablesInScope { span, .. }
            | BindError::NoExpressionAlias { span, .. }
            | BindError::UnknownLabel { span, .. }
            | BindError::UnknownRelType { span, .. }
            | BindError::UnknownProperty { span, .. }
            | BindError::ProcedureNotFound { span, .. }
            | BindError::UnknownYieldColumn { span, .. }
            | BindError::NewVariableInPatternPredicate { span, .. }
            | BindError::CreateRequiresDirectedRelationship { span, .. }
            | BindError::CreateRequiresRelType { span, .. }
            | BindError::CreateRequiresSingleRelType { span, .. }
            | BindError::CreateVarLengthRelationship { span, .. }
            | BindError::CreateBoundNodeWithProperties { span, .. }
            | BindError::SetKeyProperty { span, .. } => *span,
        }
    }

    /// The TCK's error-detail name for this error, where one exists. The TCK
    /// phrases these as `SyntaxError: <detail>` (its SyntaxError covers
    /// post-parse compile errors too) except ProcedureNotFound, which is a
    /// `ProcedureError`. Attaching labels or properties to an already-bound
    /// variable in CREATE is reported as VariableAlreadyBound.
    pub fn tck_detail(&self) -> (r: Option<&'static str>)
        ensures
            self@.detail() == match r {
                Some(name) => Some(name@),
                None => None,
            },
    {
        match self {
            BindError::UndefinedVariable { .. } => Some("UndefinedVariable"),
            BindError::VariableAlreadyBound { .. } => Some("VariableAlreadyBound"),
            BindError::VariableTypeConflict { .. } => Some("VariableTypeConflict"),
            BindError::UnknownFunction { .. } => Some("UnknownFunction"),
            BindError::InvalidNumberOfArguments { .. } => Some("InvalidNumberOfArguments"),
            BindError::InvalidAggregation { .. } => Some("InvalidAggregation"),
            BindError::NestedAggregation { .. } => Some("NestedAggregation"),
            BindError::AmbiguousAggregation { .. } => Some("AmbiguousAggregationExpression"),
            BindError::ColumnNameConflict { .. } => Some("ColumnNameConflict"),
            BindError::NoVariablesInScope { .. } => Some("NoVariablesInScope"),
            BindError::NoExpressionAlias { .. } => Some("NoExpressionAlias"),
            BindError::UnknownLabel { .. } => None,
            BindError::UnknownRelType { .. } => None,
            BindError::UnknownProperty { .. } => None,
            BindError::ProcedureNotFound { .. } => Some("ProcedureNotFound"),
            BindError::UnknownYieldColumn { .. } => None,
            BindError::NewVariableInPatternPredicate { .. } => Some("UndefinedVariable"),
            BindError::CreateRequiresDirectedRelationship { .. } => Some(
                "RequiresDirectedRelationship",
            ),
            BindError::CreateRequiresRelType { .. } => Some("NoSingleRelationshipType"),
            BindError::CreateRequiresSingleRelType { .. } => Some("NoSingleRelationshipType"),
            BindError::CreateVarLengthRelationship { .. } => Some("CreatingVarLength"),
            BindError::CreateBoundNodeWithProperties { .. } => Some("VariableAlreadyBound"),
            BindError::SetKeyProperty { .. } => None,
        }
    }

    /// The error's text.
    pub fn display(&self) -> (r: String)
        ensures
            r@ == self@.shown(),
    {
        match self {
            BindError::UndefinedVariable { name, .. } => {
                text::join3("undefined variable '", name.as_str(), "'")
            },
            BindError::VariableAlreadyBound { name, .. } => {
                text::join3("variable '", name.as_str(), "' is already bound")
            },
            BindError::VariableTypeConflict { name, expected, actual, .. } => {
                let part1 = text::join3("variable '", name.as_str(), "' is a ");
                let part2 = text::join3(part1.as_str(), actual, ", expected a ");
                text::join2(part2.as_str(), expected)
            },
            BindError::UnknownFunction { name, suggestion, .. } => {
                let part1 = text::join3("unknown function '", name.as_str(), "'");
                text::join2(part1.as_str(), suggestion.display().as_str())
            },
            BindError::InvalidNumberOfArguments { name, expected, got, .. } => {
                let part1 = text::join3(
                    "wrong number of arguments for '",
                    name.as_str(),
                    "': got ",
                );
                let part2 = text::join3(
                    part1.as_str(),
                    text::decimal_text(*got as u64).as_str(),
                    ", expected ",
                );
                text::join2(part2.as_str(), expected.as_str())
            },
            BindError::InvalidAggregation { .. } => "aggregation is not allowed here".to_owned(),
            BindError::NestedAggregation { .. } => "aggregate functions cannot be nested".to_owned(),
            BindError::AmbiguousAggregation { .. } => "an expression beside an aggregate may only refer to grouping keys".to_owned(),
            BindError::ColumnNameConflict { name, .. } => {
                text::join3("duplicate column name '", name.as_str(), "'")
            },
            BindError::NoVariablesInScope { .. } => "RETURN * requires at least one variable in scope".to_owned(),
            BindError::NoExpressionAlias { .. } => "expressions in a projection must be aliased before reuse".to_owned(),
            BindError::UnknownLabel { name, suggestion, .. } => {
                let part1 = text::join3(
                    "unknown label '",
                    name.as_str(),
                    "' (declared labels come from the schema map)",
                );
                text::join2(part1.as_str(), suggestion.display().as_str())
            },
            BindError::UnknownRelType { name, declare_cmd, suggestion, .. } => {
                let part1 = text::join3(
                    "unknown relationship type '",
                    name.as_str(),
                    "' — declare it first with `acetone declare-rel-type ",
                );
                let part2 = text::join3(part1.as_str(), declare_cmd.as_str(), "`");
                text::join2(part2.as_str(), suggestion.display().as_str())
            },
            BindError::UnknownProperty { label, property, suggestion, .. } => {
                let part1 = text::join3("unknown property '", property.as_str(), "' on label '");
                let part2 = text::join3(part1.as_str(), label.as_str(), "'");
                text::join2(part2.as_str(), suggestion.display().as_str())
            },
            BindError::ProcedureNotFound { name, .. } => {
                text::join3("unknown procedure '", name.as_str(), "'")
            },
            BindError::UnknownYieldColumn { procedure, column, .. } => {
                let part1 = text::join3("procedure '", procedure.as_str(), "' does not yield '");
                text::join3(part1.as_str(), column.as_str(), "'")
            },
            BindError::NewVariableInPatternPredicate { name, .. } => {
                text::join3(
                    "pattern predicates cannot introduce new variables ('",
                    name.as_str(),
                    "')",
                )
            },
            BindError::CreateRequiresDirectedRelationship { .. } => "CREATE requires a directed relationship".to_owned(),
            BindError::CreateRequiresRelType { .. } => "CREATE requires a relationship type — write it with a colon, e.g. `[:LINK]`; a bare `[LINK]` is a variable, not a type".to_owned(),
            BindError::CreateRequiresSingleRelType { .. } => "CREATE requires exactly one relationship type".to_owned(),
            BindError::CreateVarLengthRelationship { .. } => "variable-length relationships cannot be created".to_owned(),
            BindError::CreateBoundNodeWithProperties { name, .. } => {
                text::join3(
                    "cannot create node '",
                    name.as_str(),
                    "' with labels or properties here; it is already bound",
                )
            },
            BindError::SetKeyProperty { label, property, .. } => {
                let part1 = text::join3(
                    "cannot modify key property '",
                    property.as_str(),
                    "' of label '",
                );
                text::join3(
                    part1.as_str(),
                    label.as_str(),
                    "' (node identity is immutable; SET/REMOVE must not touch key properties)",
                )
            },
        }
    }

    /// Render with 1-based line/column against the source.
    pub fn render(&self, source: &str) -> (r: String)
        ensures
            r@ == span::rendered(self@.place(), self@.shown(), source@),
    {
        span::render_at(self.span(), self.display().as_str(), source)
    }
}

} // verus!
