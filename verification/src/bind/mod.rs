//! The binder: resolves a parsed query's names against the schema catalogue,
//! validates scoping and aggregation placement, and lowers the syntax tree to
//! the bound form the executor consumes.

pub mod binder;
pub mod bound;
pub mod catalogue;
pub mod clause_rules;
pub mod digest;
pub mod error;
pub mod grouping;
pub mod hints;
pub mod likeness;
pub mod query_laws;
pub mod rules;
pub mod scope_laws;
pub mod shape_laws;
pub mod subtrees;
pub mod twin_laws;

pub use binder::{bind, bind_with};
pub use bound::{BoundClause, BoundExpr, BoundQuery, EntityKind, IndexHint, VarId};
pub use catalogue::Catalogue;
pub use error::BindError;
pub use rules::BindMode;
