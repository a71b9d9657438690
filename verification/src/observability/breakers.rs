//! Circuit breakers that have tripped: open or half-open, or closed with as
//! many failures as their threshold.
use vstd::prelude::*;

use crate::observability::collector::BreakerTripRecord;
use crate::observability::signal::opt_view;
use crate::text::{chars_of, string_of};
use crate::timeline::{lemma_sorted_by_stamps_map, sort_by_stamps, sorted_by_stamps};

verus! {

/// The phase of a circuit breaker.
#[derive(Debug, Clone, Copy, PartialEq, Eq, Structural)]
pub enum CircuitPhase {
    Closed,
    Open,
    HalfOpen,
}

/// The stored state of one circuit breaker.
#[derive(Debug)]
pub struct CircuitState {
    pub scope_key: String,
    pub failure_count: u32,
    pub success_count: u32,
    pub phase: CircuitPhase,
    pub opened_at_ms: Option<u64>,
    pub last_failure_ms: Option<u64>,
    pub last_success_ms: Option<u64>,
    pub cooldown_ms: u64,
    pub threshold: u32,
    pub last_reason: Option<String>,
}

/// A breaker trip as plain values.
pub struct TripView {
    pub session_id: Seq<char>,
    pub scope_key: Seq<char>,
    pub phase: Seq<char>,
    pub failure_count: u32,
    pub threshold: u32,
    pub cooldown_ms: u64,
    pub last_reason: Option<Seq<char>>,
    pub observed_at_ms: u64,
}

impl View for BreakerTripRecord {
    type V = TripView;

    open spec fn view(&self) -> TripView {
        TripView {
            session_id: self.session_id@,
            scope_key: self.scope_key@,
            phase: self.phase@,
            failure_count: self.failure_count,
            threshold: self.threshold,
            cooldown_ms: self.cooldown_ms,
            last_reason: opt_view(self.last_reason),
            observed_at_ms: self.observed_at_ms,
        }
    }
}

/// The phase's name in lower case.
pub open spec fn phase_name(p: CircuitPhase) -> Seq<char> {
    match p {
        CircuitPhase::Closed => "closed"@,
        CircuitPhase::Open => "open"@,
        CircuitPhase::HalfOpen => "halfopen"@,
    }
}

/// A breaker has tripped when it is not closed, or when its failures reach
/// its threshold (a threshold of 0 counting as 1).
pub open spec fn is_trip(s: CircuitState) -> bool {
    s.phase != CircuitPhase::Closed || s.failure_count >= if s.threshold >= 1 {
        s.threshold
    } else {
        1
    }
}

/// When the breaker was last seen to change: its last failure, else when it
/// opened, else its last success, else `now`.
pub open spec fn observed_at(s: CircuitState, now: u64) -> u64 {
    match s.last_failure_ms {
        Some(t) => t,
        None => match s.opened_at_ms {
            Some(t) => t,
            None => match s.last_success_ms {
                Some(t) => t,
                None => now,
            },
        },
    }
}

pub open spec fn trip_view(session_id: Seq<char>, s: CircuitState, now: u64) -> TripView {
    TripView {
        session_id,
        scope_key: s.scope_key@,
        phase: phase_name(s.phase),
        failure_count: s.failure_count,
        threshold: s.threshold,
        cooldown_ms: s.cooldown_ms,
        last_reason: opt_view(s.last_reason),
        observed_at_ms: observed_at(s, now),
    }
}

/// The trips of the tripped breakers, in the order given.
pub open spec fn trips_of(session_id: Seq<char>, states: Seq<CircuitState>, now: u64) -> Seq<TripView>
    decreases states.len(),
{
    if states.len() == 0 {
        Seq::empty()
    } else {
        let r = trips_of(session_id, states.drop_last(), now);
        if is_trip(states.last()) {
            r.push(trip_view(session_id, states.last(), now))
        } else {
            r
        }
    }
}

/// The trips ordered by when they were observed, equal times in the order given.
pub open spec fn breaker_trips_spec(session_id: Seq<char>, states: Seq<CircuitState>, now: u64) -> Seq<TripView> {
    let t = trips_of(session_id, states, now);
    sorted_by_stamps(t, t.map_values(|x: TripView| x.observed_at_ms))
}

fn phase_name_exec(p: CircuitPhase) -> (r: String)
    ensures
        r@ == phase_name(p),
{
    match p {
        CircuitPhase::Closed => string_of(&chars_of("closed")),
        CircuitPhase::Open => string_of(&chars_of("open")),
        CircuitPhase::HalfOpen => string_of(&chars_of("halfopen")),
    }
}

fn trip_record(session_id: &str, s: &CircuitState, now: u64) -> (r: BreakerTripRecord)
    ensures
        r@ == trip_view(session_id@, *s, now),
{
    let observed = match s.last_failure_ms {
        Some(t) => t,
        None => match s.opened_at_ms {
            Some(t) => t,
            None => match s.last_success_ms {
                Some(t) => t,
                None => now,
            },
        },
    };
    BreakerTripRecord {
        session_id: string_of(&chars_of(session_id)),
        scope_key: s.scope_key.clone(),
        phase: phase_name_exec(s.phase),
        failure_count: s.failure_count,
        threshold: s.threshold,
        cooldown_ms: s.cooldown_ms,
        last_reason: match &s.last_reason {
            Some(x) => Some(x.clone()),
            None => None,
        },
        observed_at_ms: observed,
    }
}

fn trip_stamps(ts: &Vec<BreakerTripRecord>) -> (r: Vec<u64>)
    ensures
        r@ == ts@.map_values(|x: BreakerTripRecord| x@).map_values(|x: TripView| x.observed_at_ms),
{
    let mut out: Vec<u64> = Vec::new();
    let mut i: usize = 0;
    while i < ts.len()
        invariant
            i <= ts@.len(),
            out@ =~= ts@.map_values(|x: BreakerTripRecord| x@).map_values(|x: TripView| x.observed_at_ms).take(
                i as int,
            ),
        decreases ts.len() - i,
    {
        out.push(ts[i].observed_at_ms);
        i = i + 1;
    }
    out
}

/// The breakers among `states` that have tripped, stamped `now` where no
/// time is recorded, ordered by when they were observed (see
/// `breaker_trips_spec`). `states` are the breaker states stored under
/// `metrics:circuit:`, as read.
pub fn collect_breaker_trips_at(session_id: &str, states: &Vec<CircuitState>, now: u64) -> (r: Vec<BreakerTripRecord>)
    ensures
        r@.map_values(|x: BreakerTripRecord| x@) == breaker_trips_spec(session_id@, states@, now),
{
    let mut trips: Vec<BreakerTripRecord> = Vec::new();
    let mut i: usize = 0;
    while i < states.len()
        invariant
            i <= states@.len(),
            trips@.map_values(|x: BreakerTripRecord| x@) == trips_of(session_id@, states@.take(i as int), now),
        decreases states.len() - i,
    {
        let ghost s1 = states@.take(i + 1);
        assert(s1.drop_last() =~= states@.take(i as int));
        assert(s1.last() == states@[i as int]);
        let s = &states[i];
        let limit: u32 = if s.threshold >= 1 {
            s.threshold
        } else {
            1
        };
        let closed = match s.phase {
            CircuitPhase::Closed => true,
            _ => false,
        };
        if !closed || s.failure_count >= limit {
            let ghost t0 = trips@.map_values(|x: BreakerTripRecord| x@);
            trips.push(trip_record(session_id, s, now));
            assert(trips@.map_values(|x: BreakerTripRecord| x@) =~= t0.push(trip_view(session_id@, *s, now)));
        }
        i = i + 1;
    }
    assert(states@.take(states@.len() as int) =~= states@);
    let stamps = trip_stamps(&trips);
    let ghost ts = trips@;
    let sorted = sort_by_stamps(trips, stamps);
    proof {
        lemma_sorted_by_stamps_map(ts, stamps@, |x: BreakerTripRecord| x@);
    }
    sorted
}

/// `collect_breaker_trips_at` stamped with the current time.
pub fn collect_breaker_trips(session_id: &str, states: &Vec<CircuitState>) -> (r: Vec<BreakerTripRecord>)
    ensures
        exists|now: u64| r@.map_values(|x: BreakerTripRecord| x@) == #[trigger] breaker_trips_spec(session_id@, states@, now),
{
    let now = crate::clock::current_time_ms();
    collect_breaker_trips_at(session_id, states, now)
}

} // verus!
