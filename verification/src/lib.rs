//! The openCypher front end and executor of acetone: lexer, parser, binder
//! and a governed clause pipeline over pluggable graph sources.

pub mod ast;
pub mod big;
pub mod bind;
pub mod clause_grammar_laws;
pub mod decimal;
pub mod error;
pub mod exec;
pub mod grammar;
pub mod grammar_laws;
pub mod lex;
pub mod lex_laws;
pub mod names;
pub mod nearest;
pub mod nesting;
pub mod parser;
pub mod pattern_grammar_laws;
pub mod persist;
pub mod span;
pub mod structure;
pub mod structure_laws;
pub mod suggest;
pub mod teardown;
pub mod text;
pub mod token;

pub use error::ParseError;
pub use parser::parse;
pub use span::Span;
