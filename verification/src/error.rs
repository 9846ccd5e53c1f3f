//! Parser errors. Every variant carries a [`Span`] into the query source.

use vstd::prelude::*;
use vstd::string::*;

use crate::span::{self, Span};
use crate::text;

verus! {

/// Why a query does not parse. Every variant carries a [`Span`] into the
/// query's source.
#[derive(Debug, Clone, PartialEq, Eq)]
pub enum ParseError {
    /// The source does not split into tokens.
    Lex { message: String, span: Span },
    /// A token other than what the grammar asks for.
    Unexpected { expected: String, found: String, span: Span },
    /// A reserved word where a name is bound.
    ReservedWord { word: String, usage: &'static str, span: Span },
    /// Expressions nested too deeply.
    RecursionLimit { limit: usize, span: Span },
    /// Clauses in an order that is no query.
    QueryStructure { message: String, span: Span },
}

/// The value that a [`ParseError`] stands for.
pub enum ParseErrorView {
    Lex { message: Seq<char>, span: Span },
    Unexpected { expected: Seq<char>, found: Seq<char>, span: Span },
    ReservedWord { word: Seq<char>, usage: Seq<char>, span: Span },
    RecursionLimit { limit: usize, span: Span },
    QueryStructure { message: Seq<char>, span: Span },
}

impl ParseError {
    pub open spec fn view(&self) -> ParseErrorView
    {
        match self {
            ParseError::Lex { message, span } => ParseErrorView::Lex {
                message: message@,
                span: *span,
            },
            ParseError::Unexpected { expected, found, span } => ParseErrorView::Unexpected {
                expected: expected@,
                found: found@,
                span: *span,
            },
            ParseError::ReservedWord { word, usage, span } => ParseErrorView::ReservedWord {
                word: word@,
                usage: usage@,
                span: *span,
            },
            ParseError::RecursionLimit { limit, span } => ParseErrorView::RecursionLimit {
                limit: *limit,
                span: *span,
            },
            ParseError::QueryStructure { message, span } => ParseErrorView::QueryStructure {
                message: message@,
                span: *span,
            },
        }
    }
}

impl ParseErrorView {
    /// The source range the error points at.
    pub open spec fn place(self) -> Span {
        match self {
            ParseErrorView::Lex { message, span } => span,
            ParseErrorView::Unexpected { expected, found, span } => span,
            ParseErrorView::ReservedWord { word, usage, span } => span,
            ParseErrorView::RecursionLimit { limit, span } => span,
            ParseErrorView::QueryStructure { message, span } => span,
        }
    }

    /// The error's text.
    pub open spec fn shown(self) -> Seq<char> {
        match self {
            ParseErrorView::Lex { message, span } => message + span::at_bytes(span),
            ParseErrorView::Unexpected { expected, found, span } => "expected "@ + expected
                + ", found "@ + found + span::at_bytes(span),
            ParseErrorView::ReservedWord { word, usage, span } => "'"@ + word
                + "' is a reserved word and cannot be used as "@ + usage + span::at_bytes(span)
                + " (backquote it to use it as a name)"@,
            ParseErrorView::RecursionLimit { limit, span } =>
                "expression nesting exceeds the depth limit ("@ + text::decimal(limit as nat) + ")"@
                + span::at_bytes(span),
            ParseErrorView::QueryStructure { message, span } => message + span::at_bytes(span),
        }
    }
}

impl ParseError {
    /// The source range the error points at.
    pub fn span(&self) -> (r: Span)
        ensures
            r == self@.place(),
    {
        match self {
            ParseError::Lex { span, .. }
            | ParseError::Unexpected { span, .. }
            | ParseError::ReservedWord { span, .. }
            | ParseError::RecursionLimit { span, .. }
            | ParseError::QueryStructure { span, .. } => *span,
        }
    }

    /// The error's text.
    pub fn display(&self) -> (r: String)
        ensures
            r@ == self@.shown(),
    {
        match self {
            ParseError::Lex { message, span } => text::join2(
                message.as_str(),
                span::at_bytes_text(*span).as_str(),
            ),
            ParseError::Unexpected { expected, found, span } => {
                let head = text::join3("expected ", expected.as_str(), ", found ");
                text::join3(head.as_str(), found.as_str(), span::at_bytes_text(*span).as_str())
            },
            ParseError::ReservedWord { word, usage, span } => {
                let head = text::join3(
                    "'",
                    word.as_str(),
                    "' is a reserved word and cannot be used as ",
                );
                let place = text::join3(head.as_str(), *usage, span::at_bytes_text(*span).as_str());
                text::join2(place.as_str(), " (backquote it to use it as a name)")
            },
            ParseError::RecursionLimit { limit, span } => {
                let head = text::join3(
                    "expression nesting exceeds the depth limit (",
                    text::decimal_text(*limit as u64).as_str(),
                    ")",
                );
                text::join2(head.as_str(), span::at_bytes_text(*span).as_str())
            },
            ParseError::QueryStructure { message, span } => text::join2(
                message.as_str(),
                span::at_bytes_text(*span).as_str(),
            ),
        }
    }

    /// The error's text behind its 1-based line and column in `source`.
    pub fn render(&self, source: &str) -> (r: String)
        ensures
            r@ == span::rendered(self@.place(), self@.shown(), source@),
    {
        span::render_at(self.span(), self.display().as_str(), source)
    }
}

} // verus!
