//! What is recorded when a swarm run completes: the keys of the
//! observability records written for the session, in order, the promotion
//! decisions counted from its event log, the open circuits and the level of
//! the completion trace.
use vstd::prelude::*;

use crate::memory::json::{json_member, member_spec, JsonValue};
use crate::observability::event_stream::EventEnvelope;
use crate::observability::kernel::FailureForensicsRecord;
use crate::text::{chars_eq_str, chars_of, decimal, push_decimal, push_str, string_of};

verus! {

/// The key of the session's observability record `suffix`.
pub open spec fn obs_key(session_id: Seq<char>, suffix: Seq<char>) -> Seq<char> {
    "observability:"@ + session_id + ":"@ + suffix
}

/// The records written when a swarm run completes, in the order they are
/// written, ending with the completion trace stamped `trace_at_ms`.
pub open spec fn swarm_keys_spec(session_id: Seq<char>, trace_at_ms: u64) -> Seq<Seq<char>> {
    seq![
        obs_key(session_id, "route-analytics"@),
        obs_key(session_id, "failure-forensics"@),
        obs_key(session_id, "dashboard"@),
        obs_key(session_id, "cost-report"@),
        obs_key(session_id, "operations-report"@),
        obs_key(session_id, "resilience"@),
        obs_key(session_id, "business-report"@),
        obs_key(session_id, "work-orders"@),
        obs_key(session_id, "revenue-events"@),
        obs_key(session_id, "margin-report"@),
        obs_key(session_id, "sla-report"@),
        obs_key(session_id, "product-ops"@),
        obs_key(session_id, "human-view"@),
        obs_key(session_id, "system-telemetry"@),
        obs_key(session_id, "telemetry-collector"@),
        obs_key(session_id, "trace:"@ + decimal(trace_at_ms as nat)),
    ]
}

fn push_obs_key(out: &mut Vec<String>, session_id: &str, suffix: &str)
    ensures
        final(out)@.map_values(|k: String| k@) == old(out)@.map_values(|k: String| k@).push(
            obs_key(session_id@, suffix@),
        ),
{
    let ghost o0 = out@.map_values(|k: String| k@);
    let mut k = chars_of("observability:");
    push_str(&mut k, session_id);
    push_str(&mut k, ":");
    push_str(&mut k, suffix);
    out.push(string_of(&k));
    assert(out@.map_values(|k: String| k@) =~= o0.push(obs_key(session_id@, suffix@)));
}

/// The keys written when a swarm run of `session_id` completes (see
/// `swarm_keys_spec`); none when observability is disabled.
pub fn swarm_observability_keys(enabled: bool, session_id: &str, trace_at_ms: u64) -> (r: Vec<String>)
    ensures
        !enabled ==> r@.len() == 0,
        enabled ==> r@.map_values(|k: String| k@) == swarm_keys_spec(session_id@, trace_at_ms),
{
    let mut out: Vec<String> = Vec::new();
    if !enabled {
        return out;
    }
    let ghost e = out@.map_values(|k: String| k@);
    assert(e =~= Seq::<Seq<char>>::empty());
    push_obs_key(&mut out, session_id, "route-analytics");
    push_obs_key(&mut out, session_id, "failure-forensics");
    push_obs_key(&mut out, session_id, "dashboard");
    push_obs_key(&mut out, session_id, "cost-report");
    push_obs_key(&mut out, session_id, "operations-report");
    push_obs_key(&mut out, session_id, "resilience");
    push_obs_key(&mut out, session_id, "business-report");
    push_obs_key(&mut out, session_id, "work-orders");
    push_obs_key(&mut out, session_id, "revenue-events");
    push_obs_key(&mut out, session_id, "margin-report");
    push_obs_key(&mut out, session_id, "sla-report");
    push_obs_key(&mut out, session_id, "product-ops");
    push_obs_key(&mut out, session_id, "human-view");
    push_obs_key(&mut out, session_id, "system-telemetry");
    push_obs_key(&mut out, session_id, "telemetry-collector");
    let mut trace = chars_of("trace:");
    push_decimal(&mut trace, trace_at_ms);
    let ghost o0 = out@.map_values(|k: String| k@);
    let mut k = chars_of("observability:");
    push_str(&mut k, session_id);
    push_str(&mut k, ":");
    crate::text::push_all(&mut k, &trace);
    out.push(string_of(&k));
    assert(out@.map_values(|k: String| k@) =~= o0.push(obs_key(session_id@, "trace:"@ + decimal(trace_at_ms as nat))));
    assert(out@.map_values(|k: String| k@) =~= swarm_keys_spec(session_id@, trace_at_ms));
    out
}

pub open spec fn is_promotion(e: EventEnvelope) -> bool {
    e.kind@ == "verifier.promotion_decision"@
}

/// A promotion decision approves when its payload's `approved` is `true`.
pub open spec fn approved_spec(e: EventEnvelope) -> bool {
    member_spec(e.payload, "approved"@) == Some(JsonValue::Bool(true))
}

pub open spec fn promotions(evs: Seq<EventEnvelope>) -> nat
    decreases evs.len(),
{
    if evs.len() == 0 {
        0
    } else {
        promotions(evs.drop_last()) + if is_promotion(evs.last()) {
            1nat
        } else {
            0nat
        }
    }
}

pub open spec fn approved_promotions(evs: Seq<EventEnvelope>) -> nat
    decreases evs.len(),
{
    if evs.len() == 0 {
        0
    } else {
        approved_promotions(evs.drop_last()) + if is_promotion(evs.last()) && approved_spec(evs.last()) {
            1nat
        } else {
            0nat
        }
    }
}

/// The promotion decisions of an event log, and how many of them approved.
pub fn promotion_counts(events: &Vec<EventEnvelope>) -> (r: (usize, usize))
    ensures
        r.0 == promotions(events@),
        r.1 == approved_promotions(events@),
{
    let mut total: usize = 0;
    let mut passed: usize = 0;
    let mut i: usize = 0;
    while i < events.len()
        invariant
            i <= events@.len(),
            total == promotions(events@.subrange(0, i as int)),
            passed == approved_promotions(events@.subrange(0, i as int)),
            passed <= total <= i,
        decreases events.len() - i,
    {
        assert(events@.subrange(0, i + 1).drop_last() =~= events@.subrange(0, i as int));
        let e = &events[i];
        if chars_eq_str(&chars_of(e.kind.as_str()), "verifier.promotion_decision") {
            total = total + 1;
            let ok = match json_member(&e.payload, "approved") {
                Some(JsonValue::Bool(b)) => *b,
                _ => false,
            };
            if ok {
                passed = passed + 1;
            }
        }
        i = i + 1;
    }
    assert(events@.subrange(0, events@.len() as int) =~= events@);
    (total, passed)
}

/// The circuits counted open after a run: its blocked tools and its
/// approval-gated tools.
pub fn open_circuit_count(forensics: &FailureForensicsRecord) -> (r: usize)
    requires
        forensics.blocked_tools@.len() + forensics.approval_gated_tools@.len() <= usize::MAX,
    ensures
        r == forensics.blocked_tools@.len() + forensics.approval_gated_tools@.len(),
{
    forensics.blocked_tools.len() + forensics.approval_gated_tools.len()
}

/// The completion trace is `info` when the run validated, else `warn`.
pub fn swarm_trace_level(validation_ready: bool) -> (r: String)
    ensures
        r@ == (if validation_ready { "info"@ } else { "warn"@ }),
{
    if validation_ready {
        string_of(&chars_of("info"))
    } else {
        string_of(&chars_of("warn"))
    }
}

/// What product operations see of a session: where its dashboard lives and
/// how deep the verifier's queue is.
#[derive(Debug)]
pub struct ProductOpsSnapshot {
    pub session_id: String,
    pub dashboard_endpoint_hint: String,
    pub verifier_queue_depth: usize,
}

/// The product-operations snapshot of `session_id`.
pub fn product_ops_snapshot(session_id: &str, verifier_queue_depth: usize) -> (r: ProductOpsSnapshot)
    ensures
        r.session_id@ == session_id@,
        r.dashboard_endpoint_hint@ == "state_store://observability/"@ + session_id@ + "/dashboard"@,
        r.verifier_queue_depth == verifier_queue_depth,
{
    let mut hint = chars_of("state_store://observability/");
    push_str(&mut hint, session_id);
    push_str(&mut hint, "/dashboard");
    ProductOpsSnapshot {
        session_id: string_of(&chars_of(session_id)),
        dashboard_endpoint_hint: string_of(&hint),
        verifier_queue_depth,
    }
}

} // verus!
