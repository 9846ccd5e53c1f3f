//! Each error of running a query, with an input that gives it.

use std::time::Duration;

use acetone_cypher::exec::float::FloatTable;
use acetone_cypher::exec::value::PropertyMap;
use acetone_cypher::exec::{
    run_query_with_limits, EmptyGraph, ExecError, QueryError, QueryLimits, QueryResult,
    ResourceLimit, Value,
};

fn run_within(query: &str, limits: QueryLimits) -> Result<QueryResult, QueryError> {
    run_query_with_limits(query, &EmptyGraph, &PropertyMap::new(), &FloatTable::new(), limits)
}

fn fault(query: &str) -> ExecError {
    match run_within(query, QueryLimits::default()) {
        Err(QueryError::Exec(e)) => e,
        other => panic!("{query}: {other:?}"),
    }
}

fn exceeded(query: &str, limits: QueryLimits) -> ResourceLimit {
    match run_within(query, limits) {
        Err(QueryError::Exec(ExecError::ResourceExceeded { limit, .. })) => limit,
        other => panic!("{query}: {other:?}"),
    }
}

#[test]
fn every_fault_has_its_input() {
    assert!(matches!(fault("RETURN 1 AND true"), ExecError::Type { .. }));
    assert!(matches!(fault("RETURN 9223372036854775807 + 1"), ExecError::Overflow { .. }));
    assert!(matches!(fault("RETURN 1 / 0"), ExecError::DivisionByZero { .. }));
    assert!(matches!(fault("RETURN $p"), ExecError::MissingParameter { name, .. } if name == "p"));
    assert!(matches!(fault("RETURN 'a' =~ 'b'"), ExecError::Unsupported { .. }));
    assert!(matches!(fault("RETURN 1 LIMIT -1"), ExecError::InvalidArgument { .. }));
    assert!(matches!(fault("RETURN 0.5 + 1"), ExecError::FloatPending { .. }));
}

#[test]
fn every_limit_has_its_input() {
    let free = QueryLimits::unbounded;
    let rows = QueryLimits { max_result_rows: 2, ..free() };
    assert_eq!(exceeded("UNWIND [1, 2, 3] AS x RETURN x", rows), ResourceLimit::ResultRows);
    let cells = QueryLimits { max_collection_len: 5, ..free() };
    assert_eq!(exceeded("RETURN range(1, 6)", cells), ResourceLimit::CollectionLen);
    assert!(run_within("RETURN range(1, 5)", QueryLimits { max_collection_len: 5, ..free() }).is_ok());
    let work = QueryLimits { max_work_units: 3, ..free() };
    assert_eq!(exceeded("UNWIND [1, 2, 3, 4] AS x RETURN x", work), ResourceLimit::WorkUnits);
    // A clock that has run out stops a query that works long enough.
    let clock = QueryLimits { wall_clock: Some(Duration::ZERO), ..free() };
    assert_eq!(
        exceeded("UNWIND range(1, 100000) AS x RETURN count(x)", clock),
        ResourceLimit::WallClock
    );
    // Nesting is bounded whatever the limits.
    let deep = "RETURN reduce(l = [], x IN range(1, 300) | [l])";
    assert_eq!(exceeded(deep, free()), ResourceLimit::ValueDepth);
}

#[test]
fn a_clock_with_time_left_changes_nothing() {
    let limits = QueryLimits { wall_clock: Some(Duration::MAX), ..QueryLimits::unbounded() };
    let result = run_within("UNWIND range(1, 10000) AS x RETURN sum(x)", limits).unwrap();
    assert!(matches!(result.rows[0][0], Value::Int(50_005_000)));
}
