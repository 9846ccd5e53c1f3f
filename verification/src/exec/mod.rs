//! The executor: openCypher value semantics, expression evaluation, pattern
//! matching and the clause pipeline, over pluggable graph sources.

pub mod access;
pub mod adapter;
pub mod aggregate;
pub mod aggregate_laws;
pub mod apply_laws;
pub mod arith;
pub mod budget_laws;
pub mod change;
pub mod clock_laws;
pub mod compare;
pub mod complete_laws;
pub mod create;
pub mod create_laws;
pub mod delete;
pub mod element_laws;
pub mod eval;
pub mod expression_laws;
pub mod exact;
pub mod families;
pub mod fault;
pub mod feed;
pub mod float;
pub mod fold_laws;
pub mod function_laws;
pub mod functions;
pub mod governor;
pub mod graph_laws;
pub mod group_laws;
pub mod hint_laws;
pub mod id_index;
pub mod identity_laws;
pub mod ids;
pub mod inspect;
pub mod match_laws;
pub mod matching;
pub mod memory;
pub mod merge;
pub mod operator_laws;
pub mod operators;
pub mod order_laws;
pub mod overlay;
pub mod overlay_laws;
pub mod pattern_laws;
pub mod poll_laws;
pub mod probe;
pub mod project;
pub mod projection_laws;
pub mod projection_model;
pub mod query;
pub mod records;
pub mod refresh;
pub mod render;
pub mod result_laws;
pub mod row;
pub mod row_laws;
pub mod run;
pub mod run_laws;
pub mod seek;
pub mod seek_laws;
pub mod semantics;
pub mod sound;
pub mod set_laws;
pub mod source;
pub mod store_source;
pub mod strings;
pub mod value;
pub mod walk;
pub mod write_laws;

pub use fault::{ExecError, ResourceLimit};
pub use governor::{Governor, QueryLimits};
pub use overlay::{MutableGraph, Mutation, WriteSummary};
pub use query::{run_query, run_query_with_limits, QueryError};
pub use row::Row;
pub use run::{
    execute, execute_versioned, execute_versioned_with, execute_versioned_with_limits,
    execute_with_governor, execute_with_limits, execute_write, execute_write_with_limits,
    QueryResult,
};
pub use source::{
    EmptyGraph, GraphSource, MemoryGraph, NoProcedures, ProcedureProvider, SingleVersion,
    VersionResolver, WriteChanges,
};
pub use value::Value;
