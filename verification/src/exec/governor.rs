//! The query resource governor.
//!
//! A single untrusted query can drive unbounded CPU or memory: an unbounded
//! variable-length `MATCH (a)-[*]->(b)` over a dense graph, or a huge
//! `range(0, N)`. The governor bounds that with a deterministic work budget as
//! the canonical cap: the same query over the same graph charges the same work
//! and yields the same success or error on every machine. Wall-clock time is
//! an optional, off-by-default backstop for the library-embedding case.

use std::time::{Duration, Instant};

use vstd::prelude::*;

use crate::exec::fault::{ExecError, ExecErrorView, ResourceLimit};
use crate::span::{self, Span};

verus! {

/// A point in time.
#[verifier::external_type_specification]
#[verifier::external_body]
pub struct ExInstant(std::time::Instant);

/// `Instant::now`. Nothing is said of the moment: that is a matter of the clock.
#[verifier::external_body]
fn now() -> Instant {
    Instant::now()
}

/// `Instant::saturating_duration_since`: the time from `start` to `at`, or none
/// at all where `at` is earlier. Moments are opaque here, so nothing is said of
/// how long it is.
#[verifier::external_body]
fn since(at: &Instant, start: &Instant) -> Duration {
    at.saturating_duration_since(*start)
}

/// `Duration::as_nanos`: how many whole nanoseconds a duration has. Durations are
/// opaque here, so nothing is said of how many.
#[verifier::external_body]
fn nanos(d: &Duration) -> u128 {
    d.as_nanos()
}

/// The governed configuration surface. Every field is an inclusive cap: a
/// query may reach it but not exceed it.
#[derive(Debug, Clone, Copy, PartialEq, Eq)]
pub struct QueryLimits {
    /// Canonical deterministic odometer: total charged work across the query
    /// (one unit per produced row, per expansion hop, per collection cell).
    /// This is the backstop that no other cap can slip past.
    pub max_work_units: u64,
    /// The largest a single materialised result-row set may grow.
    pub max_result_rows: u64,
    /// Cumulative variable-length / expansion hops over the whole query.
    pub max_expansion_steps: u64,
    /// The largest a single list/collection (e.g. `range()`) may be.
    pub max_collection_len: u64,
    /// Optional wall-clock backstop. `None` (the default) keeps the default
    /// execution path deterministic and free of clock reads.
    pub wall_clock: Option<Duration>,
}

/// The default limits.
pub open spec fn default_limits() -> QueryLimits {
    QueryLimits {
        max_work_units: 100_000_000,
        max_result_rows: 1_000_000,
        max_expansion_steps: 1_000_000,
        max_collection_len: 10_000_000,
        wall_clock: None,
    }
}

impl Default for QueryLimits {
    /// Generous defaults: realistic queries run orders of magnitude under
    /// them, while the known pathologies trip in well under a second.
    fn default() -> (r: Self)
        ensures
            r == default_limits(),
    {
        QueryLimits {
            max_work_units: 100_000_000,
            max_result_rows: 1_000_000,
            max_expansion_steps: 1_000_000,
            max_collection_len: 10_000_000,
            wall_clock: None,
        }
    }
}

impl QueryLimits {
    /// Effectively-unbounded limits, for callers and tests that deliberately
    /// opt out of governing. Still deterministic: no wall clock.
    pub fn unbounded() -> (r: Self)
        ensures
            r.max_work_units == u64::MAX,
            r.max_result_rows == u64::MAX,
            r.max_expansion_steps == u64::MAX,
            r.max_collection_len == u64::MAX,
            r.wall_clock is None,
    {
        QueryLimits {
            max_work_units: u64::MAX,
            max_result_rows: u64::MAX,
            max_expansion_steps: u64::MAX,
            max_collection_len: u64::MAX,
            wall_clock: None,
        }
    }
}

/// Poll the wall clock only once per this many work units, so the backstop
/// (when enabled) costs one clock read per stride rather than per charge.
pub const CLOCK_POLL_STRIDE: u64 = 4096;

/// The per-query budget. Charged at every row/hop/collection growth seam;
/// returns [`ExecError::ResourceExceeded`] the moment a cap is crossed, so the
/// executor stops before it hangs or runs out of memory.
pub struct Governor {
    limits: QueryLimits,
    work: u64,
    expansion: u64,
    start: Option<Instant>,
    work_at_last_poll: u64,
}

/// What a governor has charged, against which limits.
pub struct Budget {
    pub limits: QueryLimits,
    pub work: u64,
    pub expansion: u64,
    /// Whether the wall-clock backstop is on.
    pub timed: bool,
    /// What the odometer showed when the clock was last read.
    pub polled: u64,
}

/// The error for an exhausted resource. Exhaustion is a whole-query
/// condition, not tied to one token, so it points at the query's start.
pub open spec fn exhausted(limit: ResourceLimit) -> ExecErrorView {
    ExecErrorView::ResourceExceeded { limit, span: span::no_span() }
}

/// What a charge comes to: the budget after it, and the error if a cap is
/// crossed.
pub struct Charged {
    pub budget: Budget,
    pub result: Result<(), ExecErrorView>,
}

pub open spec fn saturating_sum(a: u64, b: u64) -> u64 {
    if a + b > u64::MAX {
        u64::MAX
    } else {
        (a + b) as u64
    }
}

impl Budget {
    /// A fresh budget under `limits`.
    pub open spec fn fresh(limits: QueryLimits) -> Budget {
        Budget { limits, work: 0, expansion: 0, timed: limits.wall_clock is Some, polled: 0 }
    }

    /// Whether the clock is read when `n` units are charged: the backstop is
    /// on, the charge is within the work cap, and a whole stride of work lies
    /// behind the last reading.
    pub open spec fn reads_clock(self, n: u64) -> bool {
        let work = saturating_sum(self.work, n);
        self.timed && work <= self.limits.max_work_units && work - self.polled >= CLOCK_POLL_STRIDE
    }

    /// Charge `n` units onto the odometer.
    pub open spec fn charge(self, n: u64) -> Charged {
        let work = saturating_sum(self.work, n);
        Charged {
            budget: Budget {
                work,
                polled: if self.reads_clock(n) {
                    work
                } else {
                    self.polled
                },
                ..self
            },
            result: if work > self.limits.max_work_units {
                Err(exhausted(ResourceLimit::WorkUnits))
            } else {
                Ok(())
            },
        }
    }

    /// Charge one row about to be pushed into a set of `set_len` rows.
    pub open spec fn row(self, set_len: nat) -> Charged {
        if set_len >= self.limits.max_result_rows {
            Charged { budget: self, result: Err(exhausted(ResourceLimit::ResultRows)) }
        } else {
            self.charge(1)
        }
    }

    /// Charge one expansion hop.
    pub open spec fn hop(self) -> Charged {
        let expansion = saturating_sum(self.expansion, 1);
        let after = Budget { expansion, ..self };
        if expansion > self.limits.max_expansion_steps {
            Charged { budget: after, result: Err(exhausted(ResourceLimit::ExpansionSteps)) }
        } else {
            after.charge(1)
        }
    }

    /// Charge building a collection of `len` elements.
    pub open spec fn collection(self, len: u64) -> Charged {
        if len > self.limits.max_collection_len {
            Charged { budget: self, result: Err(exhausted(ResourceLimit::CollectionLen)) }
        } else {
            self.charge(len)
        }
    }

    /// Charge one element about to be pushed into a collection of `len`.
    pub open spec fn collection_push(self, len: nat) -> Charged {
        if len >= self.limits.max_collection_len {
            Charged { budget: self, result: Err(exhausted(ResourceLimit::CollectionLen)) }
        } else {
            self.charge(1)
        }
    }
}

/// Whether the outcome is the wall-clock backstop, and the clock was there to
/// stop it: `after` is what the work leaves of the budget `before`, and on the
/// way from one to the other the clock is read at least once. A reading takes
/// a whole stride of work behind the one before it, so work that charges less
/// than that never ends this way.
pub open spec fn timed_out<T>(before: Budget, after: Budget, r: Result<T, ExecError>) -> bool {
    after.polled > before.polled && match r {
        Ok(_) => false,
        Err(e) => e@ == exhausted(ResourceLimit::WallClock),
    }
}

impl Governor {
    pub closed spec fn view(&self) -> Budget {
        Budget {
            limits: self.limits,
            work: self.work,
            expansion: self.expansion,
            timed: self.start is Some && self.limits.wall_clock is Some,
            polled: self.work_at_last_poll,
        }
    }

    /// The moment from which the wall-clock budget counts.
    pub closed spec fn start(&self) -> Option<Instant> {
        self.start
    }

    /// A governor enforcing `limits`. The wall-clock deadline (if any) is
    /// anchored now, at construction: at the start of the query.
    pub fn new(limits: QueryLimits) -> (r: Self)
        ensures
            r@ == Budget::fresh(limits),
            r.start() is Some <==> limits.wall_clock is Some,
    {
        let start = if limits.wall_clock.is_some() {
            Some(now())
        } else {
            None
        };
        Self::starting_at(limits, start)
    }

    /// A governor enforcing `limits`, whose wall-clock budget (if there is one)
    /// counts from `start`.
    pub fn starting_at(limits: QueryLimits, start: Option<Instant>) -> (r: Self)
        ensures
            r@ == (Budget {
                timed: start is Some && limits.wall_clock is Some,
                ..Budget::fresh(limits)
            }),
            r.start() == start,
    {
        Governor { limits, work: 0, expansion: 0, start, work_at_last_poll: 0 }
    }

    fn exceeded(limit: ResourceLimit) -> (r: ExecError)
        ensures
            r@ == exhausted(limit),
    {
        ExecError::ResourceExceeded { limit, span: Span { start: 0, end: 0 } }
    }

    /// Whether charging `n` units reads the clock.
    fn reads_clock(&self, n: u64) -> (r: bool)
        ensures
            r == self@.reads_clock(n),
    {
        let work: u64 = self.work.saturating_add(n);
        self.start.is_some() && self.limits.wall_clock.is_some() && work
            <= self.limits.max_work_units
            && work.saturating_sub(self.work_at_last_poll) >= CLOCK_POLL_STRIDE
    }

    /// Charge `n` units onto the canonical odometer, given what the clock says
    /// if it is read: how many nanoseconds have passed, of how many that the
    /// query may take.
    pub fn charge_given(&mut self, n: u64, passed: u128, allowed: u128) -> (r: Result<
        (),
        ExecError,
    >)
        ensures
            final(self)@ == old(self)@.charge(n).budget,
            final(self).start() == old(self).start(),
            old(self)@.reads_clock(n) && passed >= allowed ==> r is Err && r->Err_0@ == exhausted(
                ResourceLimit::WallClock,
            ),
            !(old(self)@.reads_clock(n) && passed >= allowed) ==> charged(r, old(self)@.charge(n)),
    {
        let read = self.reads_clock(n);
        self.work = self.work.saturating_add(n);
        if self.work > self.limits.max_work_units {
            return Err(Self::exceeded(ResourceLimit::WorkUnits));
        }
        if read {
            self.work_at_last_poll = self.work;
            if passed >= allowed {
                return Err(Self::exceeded(ResourceLimit::WallClock));
            }
        }
        Ok(())
    }

    /// Charge `n` units onto the canonical odometer and poll the wall-clock
    /// backstop on stride boundaries. Every other charge routes through here,
    /// so `max_work_units` and the deadline bound the query as a whole.
    fn charge_work(&mut self, n: u64) -> (r: Result<(), ExecError>)
        ensures
            final(self)@ == old(self)@.charge(n).budget,
            final(self).start() == old(self).start(),
            charged(r, old(self)@.charge(n)) || (old(self)@.reads_clock(n) && timed_out(
                old(self)@,
                final(self)@,
                r,
            )),
    {
        if self.reads_clock(n) {
            if let Some(start) = &self.start {
                if let Some(budget) = &self.limits.wall_clock {
                    let passed: u128 = nanos(&since(&now(), start));
                    let allowed: u128 = nanos(budget);
                    return self.charge_given(n, passed, allowed);
                }
            }
        }
        // The clock is not read, so it makes no difference what it says.
        self.charge_given(n, 0, 0)
    }

    /// Charge one row about to be pushed into a set that currently holds
    /// `set_len` rows. Errors if that set has reached `max_result_rows`.
    pub fn row(&mut self, set_len: usize) -> (r: Result<(), ExecError>)
        ensures
            final(self)@ == old(self)@.row(set_len as nat).budget,
            final(self).start() == old(self).start(),
            charged(r, old(self)@.row(set_len as nat)) || timed_out(old(self)@, final(self)@, r),
    {
        if set_len as u64 >= self.limits.max_result_rows {
            return Err(Self::exceeded(ResourceLimit::ResultRows));
        }
        self.charge_work(1)
    }

    /// Charge one variable-length / expansion hop (one edge traversal during
    /// pattern matching). Errors past `max_expansion_steps`.
    pub fn hop(&mut self) -> (r: Result<(), ExecError>)
        ensures
            final(self)@ == old(self)@.hop().budget,
            final(self).start() == old(self).start(),
            charged(r, old(self)@.hop()) || timed_out(old(self)@, final(self)@, r),
    {
        self.expansion = self.expansion.saturating_add(1);
        if self.expansion > self.limits.max_expansion_steps {
            return Err(Self::exceeded(ResourceLimit::ExpansionSteps));
        }
        self.charge_work(1)
    }

    /// Charge building a collection of `len` elements before it is allocated,
    /// so an oversized `range()`/list is rejected up front rather than after
    /// exhausting memory. Errors past `max_collection_len`.
    pub fn collection(&mut self, len: u64) -> (r: Result<(), ExecError>)
        ensures
            final(self)@ == old(self)@.collection(len).budget,
            final(self).start() == old(self).start(),
            charged(r, old(self)@.collection(len)) || timed_out(old(self)@, final(self)@, r),
    {
        if len > self.limits.max_collection_len {
            return Err(Self::exceeded(ResourceLimit::CollectionLen));
        }
        self.charge_work(len)
    }

    /// Charge one element about to be pushed into a collection of `len`
    /// elements. Errors if the collection has reached `max_collection_len`.
    pub fn collection_push(&mut self, len: usize) -> (r: Result<(), ExecError>)
        ensures
            final(self)@ == old(self)@.collection_push(len as nat).budget,
            final(self).start() == old(self).start(),
            charged(
                r,
                old(self)@.collection_push(len as nat),
            ) || timed_out(old(self)@, final(self)@, r),
    {
        if len as u64 >= self.limits.max_collection_len {
            return Err(Self::exceeded(ResourceLimit::CollectionLen));
        }
        self.charge_work(1)
    }

    /// Total work charged so far. Deterministic for a given query, graph and
    /// limits.
    pub fn work_units(&self) -> (r: u64)
        ensures
            r == self@.work,
    {
        self.work
    }
}

/// Whether `r` is what the charge comes to.
pub open spec fn charged(r: Result<(), ExecError>, c: Charged) -> bool {
    match r {
        Ok(_) => c.result is Ok,
        Err(e) => c.result == Err::<(), ExecErrorView>(e@),
    }
}

/// The odometer and the hop counter never run backwards, whatever is charged.
pub proof fn charges_only_grow(b: Budget, n: u64, len: nat)
    ensures
        b.charge(n).budget.work >= b.work,
        b.row(len).budget.work >= b.work,
        b.hop().budget.work >= b.work,
        b.hop().budget.expansion >= b.expansion,
        b.collection(n).budget.work >= b.work,
        b.collection_push(len).budget.work >= b.work,
        b.charge(n).budget.polled >= b.polled,
        b.row(len).budget.polled >= b.polled,
        b.hop().budget.polled >= b.polled,
        b.collection(n).budget.polled >= b.polled,
        b.collection_push(len).budget.polled >= b.polled,
{
}

/// A charge that succeeds leaves the odometer within its cap.
pub proof fn a_successful_charge_is_within_the_work_cap(b: Budget, n: u64, len: nat)
    ensures
        b.charge(n).result is Ok ==> b.charge(n).budget.work <= b.limits.max_work_units,
        b.row(len).result is Ok ==> b.row(len).budget.work <= b.limits.max_work_units,
        b.hop().result is Ok ==> b.hop().budget.work <= b.limits.max_work_units
            && b.hop().budget.expansion <= b.limits.max_expansion_steps,
        b.collection(n).result is Ok ==> b.collection(n).budget.work <= b.limits.max_work_units,
{
}

/// Behind a charge that exhausted the work budget every charge fails, even one of
/// nothing.
pub proof fn an_exhausted_budget_stays_exhausted(b: Budget, n: u64, m: u64, len: nat)
    requires
        b.charge(n).result is Err,
    ensures
        ({
            let after = b.charge(n).budget;
            &&& after.charge(m).result == Err::<(), ExecErrorView>(
                exhausted(ResourceLimit::WorkUnits),
            )
            &&& after.charge(0).result is Err
            &&& after.row(len).result is Err
            &&& after.hop().result is Err
            &&& after.collection(m).result is Err
            &&& after.collection_push(len).result is Err
        }),
{
}

/// A hop fails for the hop cap if and only if it would be one too many, and then
/// charges no work; otherwise it is a unit of work. Nothing else counts as a hop.
pub proof fn only_hops_count_as_hops(b: Budget, n: u64, len: nat)
    ensures
        ({
            let one_more = saturating_sum(b.expansion, 1);
            &&& b.hop().result == Err::<(), ExecErrorView>(exhausted(ResourceLimit::ExpansionSteps))
                <==> one_more > b.limits.max_expansion_steps
            &&& one_more > b.limits.max_expansion_steps ==> b.hop().budget == (Budget {
                expansion: one_more,
                ..b
            })
            &&& b.hop().budget.expansion == one_more
            &&& one_more <= b.limits.max_expansion_steps ==> b.hop().budget.work == b.charge(
                1,
            ).budget.work && b.hop().result == b.charge(1).result
        }),
        b.charge(n).budget.expansion == b.expansion,
        b.row(len).budget.expansion == b.expansion,
        b.collection(n).budget.expansion == b.expansion,
        b.collection_push(len).budget.expansion == b.expansion,
{
}

/// Under unbounded limits no charge is refused while the counters are below
/// their ends.
pub proof fn unbounded_limits_refuse_nothing(b: Budget, n: u64, len: nat)
    requires
        b.limits.max_work_units == u64::MAX,
        b.limits.max_result_rows == u64::MAX,
        b.limits.max_expansion_steps == u64::MAX,
        b.limits.max_collection_len == u64::MAX,
        len < u64::MAX,
    ensures
        b.charge(n).result is Ok,
        b.row(len).result is Ok,
        b.hop().result is Ok,
        b.collection(n).result is Ok,
        b.collection_push(len).result is Ok,
{
}

} // verus!
