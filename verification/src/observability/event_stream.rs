//! The session event log: events in time order, per-session and policy
//! rejection views, replay snapshots and text digests.
use vstd::prelude::*;

use crate::digest::{stable_hash, str_default_hash};
use crate::keyed::{lemma_tally_bound, tally, KeyedMap};
use crate::memory::json::{json_member_text, json_text, json_text_of, member_text_spec, JsonValue};
use crate::observability::signal::opt_view;
use crate::text::{trim, chars_eq_str, chars_of, hex16, hex16_chars, is_blank, push_decimal, push_str, string_of, decimal};
use crate::timeline::{sort_by_stamps, sorted_by_stamps};

verus! {

/// One event of a session's log.
#[derive(Debug)]
pub struct EventEnvelope {
    pub event_id: String,
    pub kind: String,
    pub trace_id: String,
    pub session_id: String,
    pub task_id: Option<String>,
    pub capability_id: Option<String>,
    pub version: String,
    pub payload: JsonValue,
    pub created_at_ms: u64,
}

/// How many events a session logged, by kind, and which came last.
#[derive(Debug)]
pub struct SessionEventView {
    pub session_id: String,
    pub total_events: usize,
    pub by_kind: KeyedMap<usize>,
    pub latest_trace_id: Option<String>,
    pub latest_event_ms: Option<u64>,
}

/// The policy rejections of a session, by stage and by reason, and the last one.
#[derive(Debug)]
pub struct PolicyRejectView {
    pub session_id: String,
    pub total_rejects: usize,
    pub by_stage: KeyedMap<usize>,
    pub by_reason: KeyedMap<usize>,
    pub latest_trace_id: Option<String>,
    pub latest_reason: Option<String>,
    pub latest_reject_ms: Option<u64>,
}

/// A named digest of a replay artifact.
#[derive(Debug)]
pub struct ArtifactDigest {
    pub name: String,
    pub algorithm: String,
    pub digest: String,
}

/// What a replay can hold fixed and what it cannot.
#[derive(Debug)]
pub struct DeterminismBoundary {
    pub mode: String,
    pub locked_fields: Vec<String>,
    pub non_deterministic_steps: Vec<String>,
    pub external_dependencies: Vec<String>,
}

/// A seed a replay must reuse.
#[derive(Debug)]
pub struct SeedRecord {
    pub seed_key: String,
    pub seed_value: String,
    pub source: String,
}

/// Everything needed to replay one task of a trace.
#[derive(Debug)]
pub struct ReplaySnapshot {
    pub snapshot_id: String,
    pub session_id: String,
    pub trace_id: String,
    pub task_id: String,
    pub capability_id: String,
    pub actor_id: String,
    pub preferred_model: Option<String>,
    pub route_model: Option<String>,
    pub input_digest: String,
    pub parameters_digest: String,
    pub output_digest: String,
    pub artifacts: Vec<ArtifactDigest>,
    pub boundary: DeterminismBoundary,
    pub seed: Option<SeedRecord>,
    pub replay_input: JsonValue,
    pub created_at_ms: u64,
}

/// A field in which a replay differed from the recording.
#[derive(Debug)]
pub struct ReplayDeviation {
    pub field: String,
    pub expected: String,
    pub actual: String,
    pub severity: String,
    pub explanation: String,
}

/// The outcome of comparing a replay with its snapshot.
#[derive(Debug)]
pub struct ReplayAnalysisReport {
    pub snapshot_id: String,
    pub session_id: String,
    pub trace_id: String,
    pub replay_output_digest: String,
    pub matched: bool,
    pub deterministic_boundary_respected: bool,
    pub deviations: Vec<ReplayDeviation>,
    pub notes: Vec<String>,
    pub created_at_ms: u64,
}

/// `format!("{:016x}", h)` of the default hasher's value for the text.
pub open spec fn digest_text_spec(value: Seq<char>) -> Seq<char> {
    hex16(str_default_hash(value))
}

/// The sixteen hex digits of the text's default-hasher value.
pub fn digest_text(value: &str) -> (r: String)
    ensures
        r@ == digest_text_spec(value@),
{
    let h = stable_hash(value);
    string_of(&hex16_chars(h))
}

/// The digest of a value's compact JSON text.
pub open spec fn digest_value_spec(value: JsonValue) -> Seq<char> {
    digest_text_spec(json_text(value))
}

/// Digests a value as the text of its compact JSON.
pub fn digest_value(value: &JsonValue) -> (r: String)
    ensures
        r@ == digest_value_spec(*value),
{
    let canonical = json_text_of(value);
    digest_text(canonical.as_str())
}

pub open spec fn event_stamps(events: Seq<EventEnvelope>) -> Seq<u64> {
    events.map_values(|e: EventEnvelope| e.created_at_ms)
}

/// The events ordered by creation time, events of the same millisecond in
/// the order they came.
pub open spec fn in_time_order(events: Seq<EventEnvelope>) -> Seq<EventEnvelope> {
    sorted_by_stamps(events, event_stamps(events))
}

/// The events of one trace, in the order they came.
pub open spec fn of_trace(events: Seq<EventEnvelope>, trace_id: Seq<char>) -> Seq<EventEnvelope>
    decreases events.len(),
{
    if events.len() == 0 {
        Seq::empty()
    } else {
        let rest = of_trace(events.drop_last(), trace_id);
        if events.last().trace_id@ == trace_id {
            rest.push(events.last())
        } else {
            rest
        }
    }
}

/// The position of the first event with the latest creation time.
pub open spec fn latest_index(events: Seq<EventEnvelope>) -> Option<int>
    decreases events.len(),
{
    if events.len() == 0 {
        None
    } else {
        match latest_index(events.drop_last()) {
            None => Some(events.len() - 1),
            Some(j) => if events.last().created_at_ms > events[j].created_at_ms {
                Some(events.len() - 1)
            } else {
                Some(j)
            },
        }
    }
}

pub open spec fn event_kinds(events: Seq<EventEnvelope>) -> Seq<Seq<char>> {
    events.map_values(|e: EventEnvelope| e.kind@)
}

/// The policy rejections among the events, in order.
pub open spec fn policy_rejects(events: Seq<EventEnvelope>) -> Seq<EventEnvelope>
    decreases events.len(),
{
    if events.len() == 0 {
        Seq::empty()
    } else {
        let rest = policy_rejects(events.drop_last());
        if events.last().kind@ == "policy_reject"@ {
            rest.push(events.last())
        } else {
            rest
        }
    }
}

/// A payload field as text, `unknown` when it is not a string.
pub open spec fn field_or_unknown(payload: JsonValue, key: Seq<char>) -> Seq<char> {
    match member_text_spec(payload, key) {
        Some(s) => s,
        None => "unknown"@,
    }
}

pub open spec fn reject_stages(rejects: Seq<EventEnvelope>) -> Seq<Seq<char>> {
    rejects.map_values(|e: EventEnvelope| field_or_unknown(e.payload, "stage"@))
}

pub open spec fn reject_reasons(rejects: Seq<EventEnvelope>) -> Seq<Seq<char>> {
    rejects.map_values(|e: EventEnvelope| field_or_unknown(e.payload, "reason"@))
}

proof fn lemma_latest_index_bound(events: Seq<EventEnvelope>)
    ensures
        latest_index(events) matches Some(j) ==> 0 <= j < events.len(),
        latest_index(events) is None <==> events.len() == 0,
    decreases events.len(),
{
    if events.len() > 0 {
        lemma_latest_index_bound(events.drop_last());
    }
}

proof fn lemma_policy_rejects_len(events: Seq<EventEnvelope>)
    ensures
        policy_rejects(events).len() <= events.len(),
    decreases events.len(),
{
    if events.len() > 0 {
        lemma_policy_rejects_len(events.drop_last());
    }
}

fn text(s: &str) -> (r: String)
    ensures
        r@ == s@,
{
    string_of(&chars_of(s))
}

fn stamps_of_events(events: &Vec<EventEnvelope>) -> (r: Vec<u64>)
    ensures
        r@ == event_stamps(events@),
{
    let mut stamps: Vec<u64> = Vec::new();
    let mut i: usize = 0;
    while i < events.len()
        invariant
            i <= events@.len(),
            stamps@ =~= event_stamps(events@.take(i as int)),
        decreases events.len() - i,
    {
        stamps.push(events[i].created_at_ms);
        i = i + 1;
    }
    assert(events@.take(events@.len() as int) =~= events@);
    stamps
}

/// Orders a session's events by creation time, as `sort_by_key` on the stamp.
pub fn order_events(events: Vec<EventEnvelope>) -> (r: Vec<EventEnvelope>)
    ensures
        r@ == in_time_order(events@),
{
    let stamps = stamps_of_events(&events);
    sort_by_stamps(events, stamps)
}

/// The events of one trace, in time order.
pub fn trace_events(events: Vec<EventEnvelope>, trace_id: &str) -> (r: Vec<EventEnvelope>)
    ensures
        r@ == in_time_order(of_trace(events@, trace_id@)),
{
    let ghost all = events@;
    let mut rest = events;
    let mut kept: Vec<EventEnvelope> = Vec::new();
    let mut i: usize = 0;
    let n = rest.len();
    while rest.len() > 0
        invariant
            n == all.len(),
            i + rest@.len() == n,
            rest@ =~= all.skip(i as int),
            kept@ =~= of_trace(all.take(i as int), trace_id@),
        decreases rest@.len(),
    {
        let ghost r0 = rest@;
        let e = rest.remove(0);
        assert(e == all[i as int]) by {
            assert(all.skip(i as int)[0] == all[i as int]);
        }
        assert(all.take(i + 1).drop_last() =~= all.take(i as int));
        let t = chars_of(e.trace_id.as_str());
        if chars_eq_str(&t, trace_id) {
            kept.push(e);
        }
        i = i + 1;
        assert(rest@ =~= all.skip(i as int)) by {
            assert forall|m: int| 0 <= m < rest@.len() implies rest@[m] == all.skip(i as int)[m] by {
                assert(rest@[m] == r0[m + 1]);
            }
        }
    }
    assert(all.take(n as int) =~= all);
    order_events(kept)
}

/// Counts a session's events by kind and finds the latest; `total_records`
/// is the number of log records read, readable or not.
pub fn session_view(session_id: &str, total_records: usize, events: &Vec<EventEnvelope>) -> (r: SessionEventView)
    ensures
        r.session_id@ == session_id@,
        r.total_events == total_records,
        r.by_kind@ == tally(event_kinds(events@)),
        match latest_index(events@) {
            None => r.latest_event_ms is None && r.latest_trace_id is None,
            Some(j) => r.latest_event_ms == Some(events@[j].created_at_ms) && opt_view(
                r.latest_trace_id,
            ) == Some(events@[j].trace_id@),
        },
{
    let mut by_kind: KeyedMap<usize> = KeyedMap::new();
    let mut latest_ms: Option<u64> = None;
    let mut latest_trace: Option<String> = None;
    let mut i: usize = 0;
    while i < events.len()
        invariant
            i <= events@.len(),
            by_kind@ == tally(event_kinds(events@.take(i as int))),
            match latest_index(events@.take(i as int)) {
                None => latest_ms is None && latest_trace is None,
                Some(j) => latest_ms == Some(events@[j].created_at_ms) && opt_view(latest_trace) == Some(
                    events@[j].trace_id@,
                ),
            },
        decreases events.len() - i,
    {
        let ghost pre = events@.take(i as int);
        let ghost post = events@.take(i + 1);
        assert(post.drop_last() =~= pre);
        assert(event_kinds(post).drop_last() =~= event_kinds(pre));
        proof {
            lemma_tally_bound(event_kinds(pre));
            lemma_latest_index_bound(pre);
        }
        let e = &events[i];
        by_kind.increment(e.kind.clone());
        let later = match latest_ms {
            None => true,
            Some(ms) => e.created_at_ms > ms,
        };
        if later {
            latest_ms = Some(e.created_at_ms);
            latest_trace = Some(e.trace_id.clone());
        }
        proof {
            match latest_index(pre) {
                None => {},
                Some(j) => {
                    assert(post[j] == events@[j]);
                },
            }
        }
        i = i + 1;
    }
    assert(events@.take(events@.len() as int) =~= events@);
    SessionEventView {
        session_id: text(session_id),
        total_events: total_records,
        by_kind,
        latest_trace_id: latest_trace,
        latest_event_ms: latest_ms,
    }
}

fn field_or_unknown_exec(payload: &JsonValue, key: &str) -> (r: String)
    ensures
        r@ == field_or_unknown(*payload, key@),
{
    match json_member_text(payload, key) {
        Some(s) => s,
        None => text("unknown"),
    }
}

/// Counts a session's policy rejections by stage and by reason (a payload
/// field that is not a string counts as `unknown`) and finds the latest.
pub fn policy_reject_view(session_id: &str, events: &Vec<EventEnvelope>) -> (r: PolicyRejectView)
    ensures
        r.session_id@ == session_id@,
        r.total_rejects == policy_rejects(events@).len(),
        r.by_stage@ == tally(reject_stages(policy_rejects(events@))),
        r.by_reason@ == tally(reject_reasons(policy_rejects(events@))),
        match latest_index(policy_rejects(events@)) {
            None => r.latest_reject_ms is None && r.latest_trace_id is None && r.latest_reason is None,
            Some(j) => {
                let e = policy_rejects(events@)[j];
                &&& r.latest_reject_ms == Some(e.created_at_ms)
                &&& opt_view(r.latest_trace_id) == Some(e.trace_id@)
                &&& opt_view(r.latest_reason) == Some(field_or_unknown(e.payload, "reason"@))
            },
        },
{
    let mut by_stage: KeyedMap<usize> = KeyedMap::new();
    let mut by_reason: KeyedMap<usize> = KeyedMap::new();
    let mut total: usize = 0;
    let mut latest_ms: Option<u64> = None;
    let mut latest_trace: Option<String> = None;
    let mut latest_reason: Option<String> = None;
    let mut i: usize = 0;
    while i < events.len()
        invariant
            i <= events@.len(),
            total == policy_rejects(events@.take(i as int)).len(),
            by_stage@ == tally(reject_stages(policy_rejects(events@.take(i as int)))),
            by_reason@ == tally(reject_reasons(policy_rejects(events@.take(i as int)))),
            match latest_index(policy_rejects(events@.take(i as int))) {
                None => latest_ms is None && latest_trace is None && latest_reason is None,
                Some(j) => {
                    let e = policy_rejects(events@.take(i as int))[j];
                    &&& latest_ms == Some(e.created_at_ms)
                    &&& opt_view(latest_trace) == Some(e.trace_id@)
                    &&& opt_view(latest_reason) == Some(field_or_unknown(e.payload, "reason"@))
                },
            },
        decreases events.len() - i,
    {
        let ghost pre = events@.take(i as int);
        let ghost post = events@.take(i + 1);
        assert(post.drop_last() =~= pre);
        let ghost rp = policy_rejects(pre);
        proof {
            lemma_policy_rejects_len(pre);
            lemma_tally_bound(reject_stages(rp));
            lemma_tally_bound(reject_reasons(rp));
            lemma_latest_index_bound(rp);
        }
        let e = &events[i];
        let k = chars_of(e.kind.as_str());
        if chars_eq_str(&k, "policy_reject") {
            let ghost rq = rp.push(events@[i as int]);
            assert(policy_rejects(post) == rq);
            assert(reject_stages(rq).drop_last() =~= reject_stages(rp));
            assert(reject_reasons(rq).drop_last() =~= reject_reasons(rp));
            assert(rq.drop_last() =~= rp);
            let stage = field_or_unknown_exec(&e.payload, "stage");
            let reason = field_or_unknown_exec(&e.payload, "reason");
            by_stage.increment(stage);
            by_reason.increment(reason.clone());
            total = total + 1;
            let later = match latest_ms {
                None => true,
                Some(ms) => e.created_at_ms > ms,
            };
            if later {
                latest_ms = Some(e.created_at_ms);
                latest_trace = Some(e.trace_id.clone());
                latest_reason = Some(reason);
            }
            proof {
                match latest_index(rp) {
                    None => {},
                    Some(j) => {
                        assert(rq[j] == rp[j]);
                    },
                }
            }
        }
        i = i + 1;
    }
    assert(events@.take(events@.len() as int) =~= events@);
    PolicyRejectView {
        session_id: text(session_id),
        total_rejects: total,
        by_stage,
        by_reason,
        latest_trace_id: latest_trace,
        latest_reason,
        latest_reject_ms: latest_ms,
    }
}

pub open spec fn snapshot_id_for(s: ReplaySnapshot, seq: u64) -> Seq<char> {
    "replay:"@ + s.session_id@ + ":"@ + s.trace_id@ + ":"@ + s.task_id@ + ":"@ + decimal(seq as nat)
}

/// Events in time order come sorted by creation time, every event kept and
/// none added.
pub proof fn law_events_in_time_order(events: Seq<EventEnvelope>)
    ensures
        in_time_order(events).len() == events.len(),
        forall|i: int, j: int|
            0 <= i <= j < events.len() ==> (#[trigger] in_time_order(events)[i]).created_at_ms <= (
            #[trigger] in_time_order(events)[j]).created_at_ms,
        in_time_order(events).to_multiset() == events.to_multiset(),
{
    let st = crate::timeline::stamped(events, event_stamps(events));
    crate::timeline::lemma_sort_stamped(st);
    crate::timeline::lemma_sort_stamped_items(st);
    let ss = crate::timeline::sort_stamped(st);
    assert(crate::timeline::unstamped(st) =~= events);
    assert forall|k: int| 0 <= k < ss.len() implies (#[trigger] ss[k]).0 == ss[k].1.created_at_ms by {
        let p = ss[k];
        ss.to_multiset_ensures();
        st.to_multiset_ensures();
        assert(ss.contains(p));
        assert(ss.to_multiset().count(p) > 0);
        assert(st.to_multiset().count(p) > 0);
        assert(st.contains(p));
        let i = choose|i: int| 0 <= i < st.len() && st[i] == p;
    }
    assert forall|i: int, j: int| 0 <= i <= j < events.len() implies (#[trigger] in_time_order(events)[i]).created_at_ms
        <= (#[trigger] in_time_order(events)[j]).created_at_ms by {
        assert(in_time_order(events)[i] == ss[i].1);
        assert(in_time_order(events)[j] == ss[j].1);
        assert(ss[i].0 <= ss[j].0);
    }
}

/// Gives a snapshot whose id is blank (only whitespace) the id
/// `replay:{session}:{trace}:{task}:{seq}`, and one stamped 0 the time `now`;
/// everything else is kept.
pub fn complete_replay_snapshot(snapshot: ReplaySnapshot, seq: u64, now: u64) -> (r: ReplaySnapshot)
    ensures
        r.snapshot_id@ == if trim(snapshot.snapshot_id@).len() == 0 {
            snapshot_id_for(snapshot, seq)
        } else {
            snapshot.snapshot_id@
        },
        r.created_at_ms == if snapshot.created_at_ms == 0 {
            now
        } else {
            snapshot.created_at_ms
        },
        r.session_id == snapshot.session_id,
        r.trace_id == snapshot.trace_id,
        r.task_id == snapshot.task_id,
        r.capability_id == snapshot.capability_id,
        r.replay_input == snapshot.replay_input,
        r.artifacts == snapshot.artifacts,
        r.boundary == snapshot.boundary,
        r.seed == snapshot.seed,
        r.output_digest == snapshot.output_digest,
{
    let mut s = snapshot;
    let id = chars_of(s.snapshot_id.as_str());
    if is_blank(&id) {
        let mut v = chars_of("replay:");
        push_str(&mut v, s.session_id.as_str());
        push_str(&mut v, ":");
        push_str(&mut v, s.trace_id.as_str());
        push_str(&mut v, ":");
        push_str(&mut v, s.task_id.as_str());
        push_str(&mut v, ":");
        push_decimal(&mut v, seq);
        s.snapshot_id = string_of(&v);
    }
    if s.created_at_ms == 0 {
        s.created_at_ms = now;
    }
    s
}

} // verus!
