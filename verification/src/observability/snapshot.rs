//! The collector's snapshot of a session: every view derived from the
//! session's events, reports and stored records, and how many records each holds.
use vstd::prelude::*;

use crate::keyed::KeyedMap;
use crate::observability::breakers::{breaker_trips_spec, collect_breaker_trips_at, CircuitState};
use crate::observability::collector::{
    collect_unified_trace, time_order, unified_matches, ReplayDiffLocatorRecord, TelemetryCollectorSnapshot,
};
use crate::observability::delegation::{collect_delegation_traces_at, delegation_traces_spec};
use crate::observability::event_stream::EventEnvelope;
use crate::observability::latency::{collect_latency_samples, latency_samples_spec, FabricSequence};
use crate::observability::replay::{
    collect_replay_diff_locators, collect_replay_fingerprints, diff_locators_spec, fingerprints_spec,
};
use crate::observability::runs::{
    collect_guard_hits_at, collect_retries, collect_token_costs, guard_hits_spec, retries_spec, token_costs_spec,
};
use crate::observability::spans::{collect_exec_spans, span_matches, spans_spec};
use crate::observability::telemetry::{
    collapse_matches, collapse_spec, collect_branch_collapse, collect_contradictions, collect_regressions,
    contradiction_matches, contradictions_spec, regression_matches, regressions_spec,
};
use crate::observability::whitebox::KnowledgeEntry;
use crate::orchestration::{ExecutionReport, GovernanceTelemetryScope};
use crate::text::{chars_of, string_of};
use crate::timeline::lemma_sorted_by_own_stamps;

verus! {

/// The record counts of a snapshot, by view name.
pub open spec fn summary_spec(s: TelemetryCollectorSnapshot) -> Map<Seq<char>, usize> {
    Map::<Seq<char>, usize>::empty().insert("exec_spans"@, s.exec_spans@.len() as usize).insert(
        "latency_samples"@,
        s.latency_samples@.len() as usize,
    ).insert("retries"@, s.retries@.len() as usize).insert("guard_hits"@, s.guard_hits@.len() as usize).insert(
        "breaker_trips"@,
        s.breaker_trips@.len() as usize,
    ).insert("token_costs"@, s.token_costs@.len() as usize).insert(
        "delegation_traces"@,
        s.delegation_traces@.len() as usize,
    ).insert("unified_trace"@, s.unified_trace@.len() as usize).insert(
        "branch_collapse"@,
        s.branch_collapse@.len() as usize,
    ).insert("regressions"@, s.regressions@.len() as usize).insert(
        "contradictions"@,
        s.contradictions@.len() as usize,
    ).insert("replay_fingerprints"@, s.replay_fingerprints@.len() as usize).insert(
        "replay_diff_locators"@,
        s.replay_diff_locators@.len() as usize,
    )
}

/// What the snapshot of a session holds, every view as its collector states it.
pub open spec fn snapshot_matches(
    r: TelemetryCollectorSnapshot,
    session_id: Seq<char>,
    scope: GovernanceTelemetryScope,
    events: Seq<EventEnvelope>,
    reports: Seq<ExecutionReport>,
    sequences: Seq<FabricSequence>,
    states: Seq<CircuitState>,
    delegations: Seq<KnowledgeEntry>,
    now: u64,
) -> bool {
    &&& r.governance_scope == scope
    &&& r.session_id@ == session_id
    &&& r.generated_at_ms == now
    &&& r.unified_trace@.len() == events.len()
    &&& forall|k: int|
        0 <= k < r.unified_trace@.len() ==> unified_matches(
            #[trigger] r.unified_trace@[k],
            session_id,
            events[time_order(events)[k]],
        )
    &&& r.exec_spans@.len() == spans_spec(events).len()
    &&& forall|k: int|
        0 <= k < r.exec_spans@.len() ==> span_matches(
            #[trigger] r.exec_spans@[k],
            session_id,
            events,
            reports,
            spans_spec(events)[k],
        )
    &&& r.latency_samples@.map_values(|x: crate::observability::collector::LatencySample| x@)
        == latency_samples_spec(sequences)
    &&& r.retries@.map_values(|x: crate::observability::collector::RetryRecord| x@) == retries_spec(session_id, events)
    &&& r.guard_hits@.map_values(|x: crate::observability::collector::GuardHitRecord| x@) == guard_hits_spec(
        session_id,
        events,
        reports,
        now,
    )
    &&& r.breaker_trips@.map_values(|x: crate::observability::collector::BreakerTripRecord| x@) == breaker_trips_spec(
        session_id,
        states,
        now,
    )
    &&& r.token_costs@.map_values(|x: crate::observability::collector::TokenCostRecord| x@) == token_costs_spec(
        session_id,
        events,
    )
    &&& r.delegation_traces@.map_values(|x: crate::observability::collector::DelegationTraceRecord| x@)
        == delegation_traces_spec(session_id, delegations, reports, now)
    &&& r.branch_collapse@.len() == collapse_spec(session_id, r.exec_spans@).len()
    &&& forall|k: int|
        0 <= k < r.branch_collapse@.len() ==> collapse_matches(
            #[trigger] r.branch_collapse@[k],
            session_id,
            r.exec_spans@,
            collapse_spec(session_id, r.exec_spans@)[k],
        )
    &&& r.regressions@.len() == regressions_spec(r.exec_spans@).len()
    &&& forall|k: int|
        0 <= k < r.regressions@.len() ==> regression_matches(
            #[trigger] r.regressions@[k],
            session_id,
            r.exec_spans@[regressions_spec(r.exec_spans@)[k].0 as int],
            r.exec_spans@[regressions_spec(r.exec_spans@)[k].1 as int],
        )
    &&& r.contradictions@.len() == contradictions_spec(r.guard_hits@).len()
    &&& forall|k: int|
        0 <= k < r.contradictions@.len() ==> contradiction_matches(
            #[trigger] r.contradictions@[k],
            session_id,
            r.guard_hits@[contradictions_spec(r.guard_hits@)[k].0 as int],
            r.guard_hits@[contradictions_spec(r.guard_hits@)[k].1 as int],
        )
    &&& r.replay_fingerprints@.map_values(|x: crate::observability::collector::ReplayFingerprintRecord| x@)
        == fingerprints_spec(session_id, events)
    &&& r.replay_diff_locators@.map_values(|x: ReplayDiffLocatorRecord| x@) == diff_locators_spec(
        session_id,
        events,
        r.replay_fingerprints@.map_values(|x: crate::observability::collector::ReplayFingerprintRecord| x@),
    )
    &&& r.summary@ == summary_spec(r)
}

fn summary_of(s: &TelemetryCollectorSnapshot) -> (r: KeyedMap<usize>)
    ensures
        r@ == summary_spec(*s),
{
    let mut m: KeyedMap<usize> = KeyedMap::new();
    m.insert(string_of(&chars_of("exec_spans")), s.exec_spans.len());
    m.insert(string_of(&chars_of("latency_samples")), s.latency_samples.len());
    m.insert(string_of(&chars_of("retries")), s.retries.len());
    m.insert(string_of(&chars_of("guard_hits")), s.guard_hits.len());
    m.insert(string_of(&chars_of("breaker_trips")), s.breaker_trips.len());
    m.insert(string_of(&chars_of("token_costs")), s.token_costs.len());
    m.insert(string_of(&chars_of("delegation_traces")), s.delegation_traces.len());
    m.insert(string_of(&chars_of("unified_trace")), s.unified_trace.len());
    m.insert(string_of(&chars_of("branch_collapse")), s.branch_collapse.len());
    m.insert(string_of(&chars_of("regressions")), s.regressions.len());
    m.insert(string_of(&chars_of("contradictions")), s.contradictions.len());
    m.insert(string_of(&chars_of("replay_fingerprints")), s.replay_fingerprints.len());
    m.insert(string_of(&chars_of("replay_diff_locators")), s.replay_diff_locators.len());
    m
}

/// The collector's snapshot of a session at time `now` (see
/// `snapshot_matches`). `events` are the session's logged events;
/// `sequences`, `states` and `delegations` the execution sequences, breaker
/// states and delegation records stored for it, as read.
pub fn collect_snapshot_at(
    session_id: &str,
    governance_scope: GovernanceTelemetryScope,
    events: &Vec<EventEnvelope>,
    reports: &Vec<ExecutionReport>,
    sequences: &Vec<FabricSequence>,
    states: &Vec<CircuitState>,
    delegations: &Vec<KnowledgeEntry>,
    now: u64,
) -> (r: TelemetryCollectorSnapshot)
    ensures
        snapshot_matches(r, session_id@, governance_scope, events@, reports@, sequences@, states@, delegations@, now),
{
    let unified_trace = collect_unified_trace(session_id, events);
    let exec_spans = collect_exec_spans(session_id, events, reports);
    let latency_samples = collect_latency_samples(sequences);
    let retries = collect_retries(session_id, events);
    let guard_hits = collect_guard_hits_at(session_id, events, reports, now);
    let breaker_trips = collect_breaker_trips_at(session_id, states, now);
    let token_costs = collect_token_costs(session_id, events);
    let delegation_traces = collect_delegation_traces_at(session_id, delegations, reports, now);
    let branch_collapse = collect_branch_collapse(session_id, &exec_spans);
    let regressions = collect_regressions(session_id, &exec_spans);
    let contradictions = collect_contradictions(session_id, &guard_hits);
    let replay_fingerprints = collect_replay_fingerprints(session_id, events);
    let replay_diff_locators = collect_replay_diff_locators(session_id, events, &replay_fingerprints);
    let mut snapshot = TelemetryCollectorSnapshot {
        governance_scope,
        session_id: string_of(&chars_of(session_id)),
        generated_at_ms: now,
        exec_spans,
        latency_samples,
        retries,
        guard_hits,
        breaker_trips,
        token_costs,
        delegation_traces,
        unified_trace,
        branch_collapse,
        regressions,
        contradictions,
        replay_fingerprints,
        replay_diff_locators,
        summary: KeyedMap::new(),
    };
    let summary = summary_of(&snapshot);
    snapshot.summary = summary;
    snapshot
}

/// `collect_snapshot_at` stamped with the current time.
pub fn collect_snapshot(
    session_id: &str,
    governance_scope: GovernanceTelemetryScope,
    events: &Vec<EventEnvelope>,
    reports: &Vec<ExecutionReport>,
    sequences: &Vec<FabricSequence>,
    states: &Vec<CircuitState>,
    delegations: &Vec<KnowledgeEntry>,
) -> (r: TelemetryCollectorSnapshot)
    ensures
        exists|now: u64|
            #[trigger] snapshot_matches(
                r,
                session_id@,
                governance_scope,
                events@,
                reports@,
                sequences@,
                states@,
                delegations@,
                now,
            ),
{
    let now = crate::clock::current_time_ms();
    collect_snapshot_at(session_id, governance_scope, events, reports, sequences, states, delegations, now)
}

/// Every diff locator pinpoints a difference (the flag the collector's
/// update event carries).
pub fn all_located(locators: &Vec<ReplayDiffLocatorRecord>) -> (r: bool)
    ensures
        r == forall|k: int| 0 <= k < locators@.len() ==> (#[trigger] locators@[k]).located,
{
    let mut i: usize = 0;
    while i < locators.len()
        invariant
            i <= locators@.len(),
            forall|k: int| 0 <= k < i ==> (#[trigger] locators@[k]).located,
        decreases locators.len() - i,
    {
        if !locators[i].located {
            return false;
        }
        i = i + 1;
    }
    true
}

/// The views of a session that the collector orders by time come out in
/// time order: guard hits and token costs by creation, breaker trips by
/// observation, delegation traces by creation, latency samples by their first
/// step, replay fingerprints by the end of their trace.
pub proof fn law_collector_views_in_time_order(
    session_id: Seq<char>,
    events: Seq<EventEnvelope>,
    reports: Seq<ExecutionReport>,
    sequences: Seq<FabricSequence>,
    states: Seq<CircuitState>,
    delegations: Seq<KnowledgeEntry>,
    now: u64,
)
    ensures
        ({
            let h = guard_hits_spec(session_id, events, reports, now);
            forall|i: int, j: int| 0 <= i <= j < h.len() ==> (#[trigger] h[i]).created_at_ms <= (#[trigger] h[j]).created_at_ms
        }),
        ({
            let c = token_costs_spec(session_id, events);
            forall|i: int, j: int| 0 <= i <= j < c.len() ==> (#[trigger] c[i]).created_at_ms <= (#[trigger] c[j]).created_at_ms
        }),
        ({
            let t = breaker_trips_spec(session_id, states, now);
            forall|i: int, j: int|
                0 <= i <= j < t.len() ==> (#[trigger] t[i]).observed_at_ms <= (#[trigger] t[j]).observed_at_ms
        }),
        ({
            let d = delegation_traces_spec(session_id, delegations, reports, now);
            forall|i: int, j: int| 0 <= i <= j < d.len() ==> (#[trigger] d[i]).created_at_ms <= (#[trigger] d[j]).created_at_ms
        }),
        ({
            let l = latency_samples_spec(sequences);
            forall|i: int, j: int| 0 <= i <= j < l.len() ==> (#[trigger] l[i]).from_at_ms <= (#[trigger] l[j]).from_at_ms
        }),
        ({
            let f = fingerprints_spec(session_id, events);
            forall|i: int, j: int|
                0 <= i <= j < f.len() ==> (#[trigger] f[i]).generated_at_ms <= (#[trigger] f[j]).generated_at_ms
        }),
{
    let hu = crate::observability::runs::unsorted_hits(session_id, events, reports, now);
    lemma_sorted_by_own_stamps(hu, |x: crate::observability::runs::GuardHitView| x.created_at_ms);
    let cu = crate::observability::runs::cost_records(session_id, events);
    lemma_sorted_by_own_stamps(cu, |x: crate::observability::runs::TokenCostView| x.created_at_ms);
    let tu = crate::observability::breakers::trips_of(session_id, states, now);
    lemma_sorted_by_own_stamps(tu, |x: crate::observability::breakers::TripView| x.observed_at_ms);
    let du = crate::observability::delegation::with_output_traces(
        session_id,
        crate::observability::delegation::stored_traces(session_id, delegations, now),
        reports,
        now,
    );
    lemma_sorted_by_own_stamps(du, |x: crate::observability::delegation::DelegationView| x.created_at_ms);
    let lu = crate::observability::latency::all_samples(sequences);
    lemma_sorted_by_own_stamps(lu, |x: crate::observability::latency::LatencyView| x.from_at_ms);
    let fu = crate::observability::replay::trace_ids(events).map_values(
        |t: Seq<char>| crate::observability::replay::fingerprint_view(session_id, events, t),
    );
    lemma_sorted_by_own_stamps(fu, |x: crate::observability::replay::FingerprintView| x.generated_at_ms);
}

} // verus!
