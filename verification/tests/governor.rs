//! The budget of a query.

use std::time::{Duration, Instant};

use acetone_cypher::exec::governor::CLOCK_POLL_STRIDE;
use acetone_cypher::exec::{ExecError, Governor, QueryLimits, ResourceLimit};

fn limit(err: ExecError) -> ResourceLimit {
    match err {
        ExecError::ResourceExceeded { limit, .. } => limit,
        other => panic!("expected ResourceExceeded, got {other:?}"),
    }
}

#[test]
fn row_cap_rejects_the_row_that_would_exceed_the_set_bound() {
    let limits = QueryLimits {
        max_result_rows: 2,
        ..QueryLimits::unbounded()
    };
    let mut gov = Governor::new(limits);
    // A set may grow up to the cap: pushing into a set of size 0 and 1 is
    // fine, pushing into a set already at 2 is rejected.
    assert!(gov.row(0).is_ok());
    assert!(gov.row(1).is_ok());
    assert_eq!(limit(gov.row(2).unwrap_err()), ResourceLimit::ResultRows);
}

#[test]
fn expansion_cap_bounds_cumulative_hops() {
    let limits = QueryLimits {
        max_expansion_steps: 3,
        ..QueryLimits::unbounded()
    };
    let mut gov = Governor::new(limits);
    assert!(gov.hop().is_ok());
    assert!(gov.hop().is_ok());
    assert!(gov.hop().is_ok());
    assert_eq!(limit(gov.hop().unwrap_err()), ResourceLimit::ExpansionSteps);
}

#[test]
fn collection_cap_rejects_before_allocating() {
    let limits = QueryLimits {
        max_collection_len: 10,
        ..QueryLimits::unbounded()
    };
    let mut gov = Governor::new(limits);
    assert!(gov.collection(10).is_ok());
    assert_eq!(
        limit(gov.collection(11).unwrap_err()),
        ResourceLimit::CollectionLen
    );
}

#[test]
fn work_cap_is_the_odometer_over_every_charge() {
    let limits = QueryLimits {
        max_work_units: 5,
        ..QueryLimits::unbounded()
    };
    let mut gov = Governor::new(limits);
    // Rows, hops and collection cells all charge the same odometer.
    gov.row(0).unwrap(); // +1 -> 1
    gov.hop().unwrap(); // +1 -> 2
    gov.collection(2).unwrap(); // +2 -> 4
    gov.row(0).unwrap(); // +1 -> 5
    assert_eq!(gov.work_units(), 5);
    assert_eq!(limit(gov.hop().unwrap_err()), ResourceLimit::WorkUnits);
}

#[test]
fn work_counting_is_deterministic_across_governors() {
    let run = || {
        let mut gov = Governor::new(QueryLimits::unbounded());
        for _ in 0..100 {
            gov.hop().unwrap();
            gov.row(0).unwrap();
            gov.collection(3).unwrap();
        }
        gov.work_units()
    };
    assert_eq!(run(), run());
}

#[test]
fn unbounded_charges_a_lot_without_erroring() {
    let mut gov = Governor::new(QueryLimits::unbounded());
    for _ in 0..1_000_000 {
        gov.hop().unwrap();
    }
    assert_eq!(gov.work_units(), 1_000_000);
}

#[test]
fn the_clock_is_read_once_per_stride() {
    let limits = QueryLimits { wall_clock: Some(Duration::ZERO), ..QueryLimits::unbounded() };
    let mut gov = Governor::starting_at(limits, Some(Instant::now()));
    // Less than a stride of work: the time is up, but nobody looks.
    assert!(gov.charge_given(CLOCK_POLL_STRIDE - 1, 10, 10).is_ok());
    assert_eq!(limit(gov.charge_given(1, 10, 10).unwrap_err()), ResourceLimit::WallClock);
    // The next reading is due a whole stride later.
    assert!(gov.charge_given(CLOCK_POLL_STRIDE - 1, 10, 10).is_ok());
    assert!(gov.charge_given(1, 9, 10).is_ok());
    assert_eq!(gov.work_units(), 2 * CLOCK_POLL_STRIDE);
}

#[test]
fn an_expired_deadline_stops_the_query_at_the_first_reading() {
    let limits = QueryLimits { wall_clock: Some(Duration::ZERO), ..QueryLimits::unbounded() };
    let mut gov = Governor::new(limits);
    assert!(gov.collection(CLOCK_POLL_STRIDE - 1).is_ok());
    assert_eq!(limit(gov.row(0).unwrap_err()), ResourceLimit::WallClock);
}

#[test]
fn without_a_wall_clock_no_time_counts() {
    let mut gov = Governor::starting_at(QueryLimits::unbounded(), Some(Instant::now()));
    assert!(gov.collection(10 * CLOCK_POLL_STRIDE).is_ok());
    assert!(gov.charge_given(CLOCK_POLL_STRIDE, 10, 10).is_ok());
    let limits = QueryLimits { wall_clock: Some(Duration::ZERO), ..QueryLimits::unbounded() };
    let mut gov = Governor::starting_at(limits, None);
    assert!(gov.collection(10 * CLOCK_POLL_STRIDE).is_ok());
}

#[test]
fn a_generous_wall_clock_lets_the_query_run() {
    let limits =
        QueryLimits { wall_clock: Some(Duration::from_secs(3600)), ..QueryLimits::unbounded() };
    let mut gov = Governor::new(limits);
    assert!(gov.collection(10 * CLOCK_POLL_STRIDE).is_ok());
    // A budget longer than the clock can count is never used up.
    let limits = QueryLimits { wall_clock: Some(Duration::MAX), ..QueryLimits::unbounded() };
    let mut gov = Governor::new(limits);
    assert!(gov.collection(10 * CLOCK_POLL_STRIDE).is_ok());
}

#[test]
fn caps_hold_under_a_wall_clock_too() {
    let limits = QueryLimits {
        max_work_units: 10,
        wall_clock: Some(Duration::ZERO),
        ..QueryLimits::unbounded()
    };
    let mut gov = Governor::new(limits);
    assert_eq!(limit(gov.collection(5000).unwrap_err()), ResourceLimit::WorkUnits);
    // Behind an exhausted budget even a charge of nothing fails.
    assert_eq!(limit(gov.collection(0).unwrap_err()), ResourceLimit::WorkUnits);
}

#[test]
fn a_hop_too_many_charges_no_work() {
    let limits = QueryLimits { max_expansion_steps: 1, ..QueryLimits::unbounded() };
    let mut gov = Governor::new(limits);
    assert!(gov.row(0).is_ok());
    assert!(gov.hop().is_ok());
    assert_eq!(gov.work_units(), 2);
    assert_eq!(limit(gov.hop().unwrap_err()), ResourceLimit::ExpansionSteps);
    assert_eq!(gov.work_units(), 2);
    // Rows and collections are no hops.
    assert!(gov.row(1).is_ok());
    assert!(gov.collection(3).is_ok());
}
