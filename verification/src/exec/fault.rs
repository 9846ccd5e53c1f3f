//! Execution errors.

use vstd::prelude::*;
use vstd::string::*;

use crate::span::{self, Span};
use crate::text;

verus! {

/// Which governed resource a query exhausted. Carried by
/// [`ExecError::ResourceExceeded`] so a caller can tell which cap tripped
/// without matching on the message.
#[derive(Debug, Clone, Copy, PartialEq, Eq, Structural)]
pub enum ResourceLimit {
    /// The canonical deterministic work-unit odometer.
    WorkUnits,
    /// The size of a single materialised result-row set.
    ResultRows,
    /// Cumulative variable-length / expansion hops.
    ExpansionSteps,
    /// The length of a single list/collection.
    CollectionLen,
    /// The optional wall-clock backstop.
    WallClock,
    /// The container nesting depth of a single constructed value: a fixed
    /// structural cap that keeps recursive value walks stack-safe.
    ValueDepth,
}

/// The name of a limit.
pub open spec fn limit_name(limit: ResourceLimit) -> Seq<char> {
    match limit {
        ResourceLimit::WorkUnits => "work-unit"@,
        ResourceLimit::ResultRows => "result-row"@,
        ResourceLimit::ExpansionSteps => "expansion-step"@,
        ResourceLimit::CollectionLen => "collection-size"@,
        ResourceLimit::WallClock => "wall-clock"@,
        ResourceLimit::ValueDepth => "value-nesting-depth"@,
    }
}

impl ResourceLimit {
    /// The name of the limit.
    pub fn display(&self) -> (r: &'static str)
        ensures
            r@ == limit_name(*self),
    {
        match self {
            ResourceLimit::WorkUnits => "work-unit",
            ResourceLimit::ResultRows => "result-row",
            ResourceLimit::ExpansionSteps => "expansion-step",
            ResourceLimit::CollectionLen => "collection-size",
            ResourceLimit::WallClock => "wall-clock",
            ResourceLimit::ValueDepth => "value-nesting-depth",
        }
    }
}

/// Two-operand floating-point operations.
#[derive(Debug, Clone, Copy, PartialEq, Eq, Structural)]
pub enum FloatOp {
    Add,
    Sub,
    Mul,
    Div,
    Rem,
    Pow,
}

/// One-operand floating-point operations.
#[derive(Debug, Clone, Copy, PartialEq, Eq, Structural)]
pub enum FloatFn {
    Ceil,
    Floor,
    Round,
    Sqrt,
}

/// A floating-point result that the executor needs and does not compute
/// itself; operands are the bit patterns of IEEE-754 binary64 numbers.
#[derive(Debug, Clone, PartialEq, Eq)]
pub enum FloatRequest {
    /// `a op b`.
    Binary { op: FloatOp, a: u64, b: u64 },
    /// `op(a)`.
    Unary { op: FloatFn, a: u64 },
    /// The shortest decimal text that reads back as the number.
    Display { a: u64 },
    /// The number nearest to a decimal text, where the text is one.
    Parse { text: String },
}

/// The value that a [`FloatRequest`] stands for.
pub enum FloatRequestView {
    Binary { op: FloatOp, a: u64, b: u64 },
    Unary { op: FloatFn, a: u64 },
    Display { a: u64 },
    Parse { text: Seq<char> },
}

/// Why a query stops.
#[derive(Debug, Clone, PartialEq, Eq)]
pub enum ExecError {
    Type { message: String, span: Span },
    Overflow { span: Span },
    DivisionByZero { span: Span },
    MissingParameter { name: String, span: Span },
    Unsupported { feature: &'static str, span: Span },
    InvalidArgument { message: String, span: Span },
    ResourceExceeded { limit: ResourceLimit, span: Span },
    /// Evaluation met a floating-point operation whose result it was not
    /// given; with the result at hand it can be run again.
    FloatPending { request: FloatRequest, span: Span },
}

/// The value that a [`ExecError`] stands for.
pub enum ExecErrorView {
    Type { message: Seq<char>, span: Span },
    Overflow { span: Span },
    DivisionByZero { span: Span },
    MissingParameter { name: Seq<char>, span: Span },
    Unsupported { feature: Seq<char>, span: Span },
    InvalidArgument { message: Seq<char>, span: Span },
    ResourceExceeded { limit: ResourceLimit, span: Span },
    FloatPending { request: FloatRequestView, span: Span },
}

impl FloatRequest {
    pub open spec fn view(&self) -> FloatRequestView
    {
        match self {
            FloatRequest::Binary { op, a, b } => FloatRequestView::Binary {
                op: *op,
                a: *a,
                b: *b,
            },
            FloatRequest::Unary { op, a } => FloatRequestView::Unary {
                op: *op,
                a: *a,
            },
            FloatRequest::Display { a } => FloatRequestView::Display {
                a: *a,
            },
            FloatRequest::Parse { text } => FloatRequestView::Parse {
                text: text@,
            },
        }
    }

    /// A copy.
    pub fn dup(&self) -> (r: FloatRequest)
        ensures
            r@ == self@,
    {
        match self {
            FloatRequest::Binary { op, a, b } => FloatRequest::Binary {
                op: *op,
                a: *a,
                b: *b,
            },
            FloatRequest::Unary { op, a } => FloatRequest::Unary {
                op: *op,
                a: *a,
            },
            FloatRequest::Display { a } => FloatRequest::Display {
                a: *a,
            },
            FloatRequest::Parse { text } => FloatRequest::Parse {
                text: text.clone(),
            },
        }
    }
}

impl ExecError {
    pub open spec fn view(&self) -> ExecErrorView
    {
        match self {
            ExecError::Type { message, span } => ExecErrorView::Type {
                message: message@,
                span: *span,
            },
            ExecError::Overflow { span } => ExecErrorView::Overflow {
                span: *span,
            },
            ExecError::DivisionByZero { span } => ExecErrorView::DivisionByZero {
                span: *span,
            },
            ExecError::MissingParameter { name, span } => ExecErrorView::MissingParameter {
                name: name@,
                span: *span,
            },
            ExecError::Unsupported { feature, span } => ExecErrorView::Unsupported {
                feature: feature@,
                span: *span,
            },
            ExecError::InvalidArgument { message, span } => ExecErrorView::InvalidArgument {
                message: message@,
                span: *span,
            },
            ExecError::ResourceExceeded { limit, span } => ExecErrorView::ResourceExceeded {
                limit: *limit,
                span: *span,
            },
            ExecError::FloatPending { request, span } => ExecErrorView::FloatPending {
                request: request@,
                span: *span,
            },
        }
    }

    /// A copy.
    pub fn dup(&self) -> (r: ExecError)
        ensures
            r@ == self@,
    {
        match self {
            ExecError::Type { message, span } => ExecError::Type {
                message: message.clone(),
                span: *span,
            },
            ExecError::Overflow { span } => ExecError::Overflow {
                span: *span,
            },
            ExecError::DivisionByZero { span } => ExecError::DivisionByZero {
                span: *span,
            },
            ExecError::MissingParameter { name, span } => ExecError::MissingParameter {
                name: name.clone(),
                span: *span,
            },
            ExecError::Unsupported { feature, span } => ExecError::Unsupported {
                feature: *feature,
                span: *span,
            },
            ExecError::InvalidArgument { message, span } => ExecError::InvalidArgument {
                message: message.clone(),
                span: *span,
            },
            ExecError::ResourceExceeded { limit, span } => ExecError::ResourceExceeded {
                limit: *limit,
                span: *span,
            },
            ExecError::FloatPending { request, span } => ExecError::FloatPending {
                request: request.dup(),
                span: *span,
            },
        }
    }
}

impl ExecErrorView {
    /// The source range the error points at.
    pub open spec fn place(self) -> Span {
        match self {
            ExecErrorView::Type { span, .. } => span,
            ExecErrorView::Overflow { span } => span,
            ExecErrorView::DivisionByZero { span } => span,
            ExecErrorView::MissingParameter { span, .. } => span,
            ExecErrorView::Unsupported { span, .. } => span,
            ExecErrorView::InvalidArgument { span, .. } => span,
            ExecErrorView::ResourceExceeded { span, .. } => span,
            ExecErrorView::FloatPending { span, .. } => span,
        }
    }

    /// The error's text.
    pub open spec fn shown(self) -> Seq<char> {
        match self {
            ExecErrorView::Type { message, .. } => "type error: "@ + message,
            ExecErrorView::Overflow { .. } => "integer overflow"@,
            ExecErrorView::DivisionByZero { .. } => "division by zero"@,
            ExecErrorView::MissingParameter { name, .. } => "missing parameter '"@ + name + "'"@,
            ExecErrorView::Unsupported { feature, .. } => feature + " is not implemented yet"@,
            ExecErrorView::InvalidArgument { message, .. } => "invalid argument: "@ + message,
            ExecErrorView::ResourceExceeded { limit, .. } => "query exceeded the "@ + limit_name(
                limit,
            ) + " resource limit"@,
            ExecErrorView::FloatPending { .. } =>
                "a floating-point result has not been supplied"@,
        }
    }
}

impl ExecError {
    /// The source span this error points at. Every execution error carries a
    /// span so it can be located in the query the same way parse and bind
    /// errors are.
    pub fn span(&self) -> (r: Span)
        ensures
            r == self@.place(),
    {
        match self {
            ExecError::Type { span, .. }
            | ExecError::Overflow { span }
            | ExecError::DivisionByZero { span }
            | ExecError::MissingParameter { span, .. }
            | ExecError::Unsupported { span, .. }
            | ExecError::InvalidArgument { span, .. }
            | ExecError::ResourceExceeded { span, .. }
            | ExecError::FloatPending { span, .. } => *span,
        }
    }

    /// The error's text.
    pub fn display(&self) -> (r: String)
        ensures
            r@ == self@.shown(),
    {
        match self {
            ExecError::Type { message, .. } => text::join2("type error: ", message.as_str()),
            ExecError::Overflow { .. } => "integer overflow".to_owned(),
            ExecError::DivisionByZero { .. } => "division by zero".to_owned(),
            ExecError::MissingParameter { name, .. } => text::join3(
                "missing parameter '",
                name.as_str(),
                "'",
            ),
            ExecError::Unsupported { feature, .. } => text::join2(
                *feature,
                " is not implemented yet",
            ),
            ExecError::InvalidArgument { message, .. } => text::join2(
                "invalid argument: ",
                message.as_str(),
            ),
            ExecError::ResourceExceeded { limit, .. } => text::join3(
                "query exceeded the ",
                limit.display(),
                " resource limit",
            ),
            ExecError::FloatPending {
                ..
            } => "a floating-point result has not been supplied".to_owned(),
        }
    }

    /// The error's text behind its 1-based line and column in `source`.
    pub fn render(&self, source: &str) -> (r: String)
        ensures
            r@ == span::rendered(self@.place(), self@.shown(), source@),
    {
        span::render_at(self.span(), self.display().as_str(), source)
    }
}

} // verus!
