//! The telemetry collector: the records it derives from a session's events
//! and reports, and the rules that classify them.
use vstd::prelude::*;

use crate::digest::{fnv1a, fnv1a_str};
use crate::keyed::KeyedMap;
use crate::memory::json::{json_member, member_spec, JsonValue};
use crate::observability::event_stream::{event_stamps, EventEnvelope};
use crate::observability::signal::opt_view;
use crate::orchestration::GovernanceTelemetryScope;
use crate::text::{
    chars_eq_str, chars_of, contains, contains_str, hex16, hex16_chars, is_digit, join, join_exec,
    lines, lines_exec, lower, push_str, slice, starts_with, starts_with_str, string_of, to_lower,
    trim, trimmed, views,
};
use crate::timeline::{sort_by_stamps, sorted_by_stamps};

verus! {

/// The span of one task within one trace.
#[derive(Debug)]
pub struct ExecSpanRecord {
    pub span_id: String,
    pub session_id: String,
    pub trace_id: String,
    pub task_id: String,
    pub capability_id: Option<String>,
    pub status: String,
    pub start_ms: u64,
    pub end_ms: u64,
    pub latency_ms: u64,
    pub pool: Option<String>,
    pub route_variant: Option<String>,
}

/// The time between two consecutive stages of a task's execution.
#[derive(Debug)]
pub struct LatencySample {
    pub session_id: String,
    pub trace_id: String,
    pub task_id: String,
    pub stage_from: String,
    pub stage_to: String,
    pub from_at_ms: u64,
    pub to_at_ms: u64,
    pub latency_ms: u64,
}

/// A task that ran more than once.
#[derive(Debug)]
pub struct RetryRecord {
    pub session_id: String,
    pub task_id: String,
    pub trace_id: String,
    pub attempts: u32,
    pub retries: u32,
    pub final_status: String,
    pub last_reason: String,
}

/// A decision of the runtime guard on a task.
#[derive(Debug)]
pub struct GuardHitRecord {
    pub session_id: String,
    pub trace_id: String,
    pub task_id: String,
    pub capability_id: Option<String>,
    pub decision: String,
    pub reason: String,
    pub created_at_ms: u64,
}

/// The state of a circuit breaker that has tripped.
#[derive(Debug)]
pub struct BreakerTripRecord {
    pub session_id: String,
    pub scope_key: String,
    pub phase: String,
    pub failure_count: u32,
    pub threshold: u32,
    pub cooldown_ms: u64,
    pub last_reason: Option<String>,
    pub observed_at_ms: u64,
}

/// The cost breakdown reported by a task run.
#[derive(Debug)]
pub struct TokenCostRecord {
    pub session_id: String,
    pub trace_id: String,
    pub task_id: String,
    pub capability_id: Option<String>,
    pub estimated_prompt_tokens: Option<u32>,
    pub token_cost_micros: u64,
    pub tool_cost_micros: u64,
    pub duration_cost_micros: u64,
    pub total_cost_micros: u64,
    pub created_at_ms: u64,
}

/// A task handed to a peer.
#[derive(Debug)]
pub struct DelegationTraceRecord {
    pub session_id: String,
    pub task_id: String,
    pub peer: String,
    pub delegated: bool,
    pub source: String,
    pub created_at_ms: u64,
}

/// One event of a session on its task's branch.
#[derive(Debug)]
pub struct UnifiedTraceRecord {
    pub event_id: String,
    pub session_id: String,
    pub trace_id: String,
    pub task_id: String,
    pub capability_id: Option<String>,
    pub kind: String,
    pub status: String,
    pub branch_id: String,
    pub created_at_ms: u64,
}

/// The trace chosen among the candidate traces of one task's branch.
#[derive(Debug)]
pub struct BranchCollapseRecord {
    pub session_id: String,
    pub branch_id: String,
    pub task_id: String,
    pub candidate_trace_ids: Vec<String>,
    pub selected_trace_id: String,
    pub selected_status: String,
    pub start_ms: u64,
    pub end_ms: u64,
}

/// A task whose status got worse from one trace to the next.
#[derive(Debug)]
pub struct RegressionCaptureRecord {
    pub session_id: String,
    pub task_id: String,
    pub previous_trace_id: String,
    pub current_trace_id: String,
    pub from_status: String,
    pub to_status: String,
    pub detected_at_ms: u64,
}

/// Two consecutive guard decisions on the same task and capability that disagree.
#[derive(Debug)]
pub struct ContradictionCaptureRecord {
    pub session_id: String,
    pub task_id: String,
    pub capability_id: Option<String>,
    pub left_decision: String,
    pub right_decision: String,
    pub left_trace_id: String,
    pub right_trace_id: String,
    pub detected_at_ms: u64,
}

/// The replay fingerprint of one trace of a task.
#[derive(Debug)]
pub struct ReplayFingerprintRecord {
    pub session_id: String,
    pub task_id: String,
    pub trace_id: String,
    pub deterministic_replay_fingerprint: String,
    pub event_count: usize,
    pub generated_at_ms: u64,
}

/// Where two traces of a task differ.
#[derive(Debug)]
pub struct ReplayDiffLocatorRecord {
    pub session_id: String,
    pub task_id: String,
    pub baseline_trace_id: String,
    pub candidate_trace_id: String,
    pub baseline_fingerprint: String,
    pub candidate_fingerprint: String,
    pub mismatch_fields: Vec<String>,
    pub located: bool,
}

/// Everything the collector derived for a session.
#[derive(Debug)]
pub struct TelemetryCollectorSnapshot {
    pub governance_scope: GovernanceTelemetryScope,
    pub session_id: String,
    pub generated_at_ms: u64,
    pub exec_spans: Vec<ExecSpanRecord>,
    pub latency_samples: Vec<LatencySample>,
    pub retries: Vec<RetryRecord>,
    pub guard_hits: Vec<GuardHitRecord>,
    pub breaker_trips: Vec<BreakerTripRecord>,
    pub token_costs: Vec<TokenCostRecord>,
    pub delegation_traces: Vec<DelegationTraceRecord>,
    pub unified_trace: Vec<UnifiedTraceRecord>,
    pub branch_collapse: Vec<BranchCollapseRecord>,
    pub regressions: Vec<RegressionCaptureRecord>,
    pub contradictions: Vec<ContradictionCaptureRecord>,
    pub replay_fingerprints: Vec<ReplayFingerprintRecord>,
    pub replay_diff_locators: Vec<ReplayDiffLocatorRecord>,
    pub summary: KeyedMap<usize>,
}

// ---------------------------------------------------------------------------
// Statuses, decisions and pools.
// ---------------------------------------------------------------------------

/// How far a status has come: blocked 5, failed 4, succeeded 3, running 2,
/// ready 1, anything else 0.
pub open spec fn status_rank_spec(s: Seq<char>) -> u8 {
    if s == "blocked"@ {
        5
    } else if s == "failed"@ {
        4
    } else if s == "succeeded"@ {
        3
    } else if s == "running"@ {
        2
    } else if s == "ready"@ {
        1
    } else {
        0
    }
}

/// A status as one of the known names, `pending` for anything else.
pub open spec fn canonical_status(s: Seq<char>) -> Seq<char> {
    if status_rank_spec(s) > 0 {
        s
    } else {
        "pending"@
    }
}

/// The status of a span after one more event: the further of the two.
pub open spec fn merge_status_spec(current: Seq<char>, next: Seq<char>) -> Seq<char> {
    if status_rank_spec(next) >= status_rank_spec(current) {
        canonical_status(next)
    } else {
        canonical_status(current)
    }
}

/// `deny` for decisions that mention blocking, denial or rejection (in any
/// ASCII case), `allow` for the rest.
pub open spec fn normalize_decision_spec(decision: Seq<char>) -> Seq<char> {
    let l = lower(decision);
    if contains(l, "block"@) || contains(l, "deny"@) || contains(l, "reject"@) {
        "deny"@
    } else {
        "allow"@
    }
}

/// Execution, security and operations roles run on the stable pool.
pub open spec fn pool_for_role(role: Seq<char>) -> Seq<char> {
    let l = lower(role);
    if contains(l, "execution"@) || contains(l, "security"@) || contains(l, "operations"@) {
        "stable"@
    } else {
        "adaptive"@
    }
}

/// The text `serde_json` prints for an integer: digits, after a minus sign
/// for a negative one.
pub open spec fn is_integer_text(t: Seq<char>) -> bool {
    all_digits(
        if t.len() > 0 && t[0] == '-' {
            t.drop_first()
        } else {
            t
        },
    )
}

/// One or more decimal digits.
pub open spec fn all_digits(d: Seq<char>) -> bool {
    d.len() > 0 && forall|i: int| 0 <= i < d.len() ==> is_digit(#[trigger] d[i])
}

/// A payload field as text: a string as it is, an integer as its decimal
/// numeral; nothing for other values or a missing field.
pub open spec fn payload_string_spec(payload: JsonValue, field: Seq<char>) -> Option<Seq<char>> {
    match member_spec(payload, field) {
        Some(JsonValue::Text(s)) => Some(s@),
        Some(JsonValue::Number(n)) => if is_integer_text(n@) {
            Some(n@)
        } else {
            None
        },
        _ => None,
    }
}

/// The status an event puts its task in.
pub open spec fn event_status(e: EventEnvelope) -> Seq<char> {
    let kind = e.kind@;
    if kind == "policy_reject"@ || kind == "runtime_blocks"@ {
        "blocked"@
    } else if kind == "task_runs"@ {
        let d = lower(
            match payload_string_spec(e.payload, "decision"@) {
                Some(s) => s,
                None => "allow"@,
            },
        );
        if contains(d, "block"@) || contains(d, "require"@) {
            "blocked"@
        } else {
            "succeeded"@
        }
    } else if kind == "runtime_mode_dispatch"@ {
        "pending"@
    } else if kind == "trust_admission"@ {
        "ready"@
    } else {
        "running"@
    }
}

fn text(s: &str) -> (r: String)
    ensures
        r@ == s@,
{
    string_of(&chars_of(s))
}

fn is_status(v: &Vec<char>, name: &str) -> (r: bool)
    ensures
        r == (v@ == name@),
{
    chars_eq_str(v, name)
}

pub fn status_rank(value: &str) -> (r: u8)
    ensures
        r == status_rank_spec(value@),
{
    let v = chars_of(value);
    if is_status(&v, "blocked") {
        5
    } else if is_status(&v, "failed") {
        4
    } else if is_status(&v, "succeeded") {
        3
    } else if is_status(&v, "running") {
        2
    } else if is_status(&v, "ready") {
        1
    } else {
        0
    }
}

fn canonical_status_exec(value: &str) -> (r: String)
    ensures
        r@ == canonical_status(value@),
{
    if status_rank(value) > 0 {
        text(value)
    } else {
        text("pending")
    }
}

/// The further of two statuses, as a known name.
pub fn merge_status(current: &str, next: &str) -> (r: String)
    ensures
        r@ == merge_status_spec(current@, next@),
{
    if status_rank(next) >= status_rank(current) {
        canonical_status_exec(next)
    } else {
        canonical_status_exec(current)
    }
}

pub fn normalize_decision(decision: &str) -> (r: String)
    ensures
        r@ == normalize_decision_spec(decision@),
{
    let l = to_lower(&chars_of(decision));
    if contains_str(&l, "block") || contains_str(&l, "deny") || contains_str(&l, "reject") {
        text("deny")
    } else {
        text("allow")
    }
}

pub fn infer_pool_from_role(role: &str) -> (r: String)
    ensures
        r@ == pool_for_role(role@),
{
    let l = to_lower(&chars_of(role));
    if contains_str(&l, "execution") || contains_str(&l, "security") || contains_str(&l, "operations") {
        text("stable")
    } else {
        text("adaptive")
    }
}

fn is_integer_text_exec(t: &Vec<char>) -> (r: bool)
    ensures
        r == is_integer_text(t@),
{
    let start: usize = if t.len() > 0 && t[0] == '-' {
        1
    } else {
        0
    };
    let ghost digits = if t@.len() > 0 && t@[0] == '-' {
        t@.drop_first()
    } else {
        t@
    };
    assert(digits =~= t@.skip(start as int));
    if start >= t.len() {
        return false;
    }
    let mut i = start;
    while i < t.len()
        invariant
            start <= i <= t@.len(),
            start == (if t@.len() > 0 && t@[0] == '-' {
                1int
            } else {
                0int
            }),
            digits == (if t@.len() > 0 && t@[0] == '-' {
                t@.drop_first()
            } else {
                t@
            }),
            digits =~= t@.skip(start as int),
            forall|j: int| start <= j < i ==> is_digit(#[trigger] t@[j]),
        decreases t.len() - i,
    {
        let c = t[i];
        if !(c >= '0' && c <= '9') {
            assert(digits[i - start] == t@[i as int]);
            proof {
                if t@.len() > 0 && t@[0] == '-' {
                    assert(!is_digit(t@.drop_first()[i - 1]));
                } else {
                    assert(!is_digit(t@[i as int]));
                }
            }
            return false;
        }
        i = i + 1;
    }
    assert forall|j: int| 0 <= j < digits.len() implies is_digit(#[trigger] digits[j]) by {
        assert(digits[j] == t@[j + start]);
    }
    true
}

/// A payload field as text (see `payload_string_spec`).
pub fn payload_string(payload: &JsonValue, field: &str) -> (r: Option<String>)
    ensures
        opt_view(r) == payload_string_spec(*payload, field@),
{
    match json_member(payload, field) {
        Some(JsonValue::Text(s)) => Some(s.clone()),
        Some(JsonValue::Number(n)) => {
            let t = chars_of(n.as_str());
            if is_integer_text_exec(&t) {
                Some(n.clone())
            } else {
                None
            }
        },
        _ => None,
    }
}

/// The status an event puts its task in (see `event_status`).
pub fn status_from_event(event: &EventEnvelope) -> (r: String)
    ensures
        r@ == event_status(*event),
{
    let kind = chars_of(event.kind.as_str());
    if chars_eq_str(&kind, "policy_reject") || chars_eq_str(&kind, "runtime_blocks") {
        text("blocked")
    } else if chars_eq_str(&kind, "task_runs") {
        let d = match payload_string(&event.payload, "decision") {
            Some(s) => chars_of(s.as_str()),
            None => chars_of("allow"),
        };
        let l = to_lower(&d);
        if contains_str(&l, "block") || contains_str(&l, "require") {
            text("blocked")
        } else {
            text("succeeded")
        }
    } else if chars_eq_str(&kind, "runtime_mode_dispatch") {
        text("pending")
    } else if chars_eq_str(&kind, "trust_admission") {
        text("ready")
    } else {
        text("running")
    }
}

/// Merging two statuses keeps the further one: the merged status ranks as
/// the higher of the two, and merging is the same in either order up to
/// which of two equally ranked names is kept.
pub proof fn law_merge_status_rank(current: Seq<char>, next: Seq<char>)
    ensures
        status_rank_spec(merge_status_spec(current, next)) == if status_rank_spec(next) >= status_rank_spec(
            current,
        ) {
            status_rank_spec(next)
        } else {
            status_rank_spec(current)
        },
        status_rank_spec(merge_status_spec(current, next)) == status_rank_spec(merge_status_spec(next, current)),
{
    reveal_strlit("pending");
    reveal_strlit("blocked");
    reveal_strlit("failed");
    reveal_strlit("succeeded");
    reveal_strlit("running");
    reveal_strlit("ready");
    assert("pending"@[0] != "blocked"@[0]);
    assert("pending"@ != "blocked"@);
    assert("pending"@[0] != "failed"@[0]);
    assert("pending"@ != "failed"@);
    assert("pending"@ != "succeeded"@);
    assert("pending"@ != "running"@);
    assert("pending"@ != "ready"@);
    assert(status_rank_spec("pending"@) == 0);
}

// ---------------------------------------------------------------------------
// Digests and delegation markers.
// ---------------------------------------------------------------------------

/// The text a list of parts is digested as: the parts joined by `::`, or
/// `<empty>` when there are none.
pub open spec fn parts_payload(parts: Seq<Seq<char>>) -> Seq<char> {
    if parts.len() == 0 {
        "<empty>"@
    } else {
        join(parts, "::"@)
    }
}

/// Sixteen hex digits of the FNV-1a hash of the parts' UTF-8 text.
pub open spec fn digest_of_parts_spec(parts: Seq<Seq<char>>) -> Seq<char> {
    hex16(fnv1a(vstd::utf8::encode_utf8(parts_payload(parts))))
}

pub fn digest_of_parts(parts: &Vec<String>) -> (r: String)
    ensures
        r@ == digest_of_parts_spec(parts@.map_values(|p: String| p@)),
{
    let payload = if parts.len() == 0 {
        text("<empty>")
    } else {
        let mut pieces: Vec<Vec<char>> = Vec::new();
        let mut i: usize = 0;
        while i < parts.len()
            invariant
                i <= parts@.len(),
                views(pieces@) =~= parts@.take(i as int).map_values(|p: String| p@),
            decreases parts.len() - i,
        {
            let ghost before = views(pieces@);
            pieces.push(chars_of(parts[i].as_str()));
            assert(views(pieces@) =~= before.push(parts@[i as int]@));
            assert(parts@.take(i + 1).map_values(|p: String| p@) =~= parts@.take(i as int).map_values(
                |p: String| p@,
            ).push(parts@[i as int]@));
            i = i + 1;
        }
        assert(parts@.take(parts@.len() as int) =~= parts@);
        string_of(&join_exec(&pieces, "::"))
    };
    let h = fnv1a_str(payload.as_str());
    string_of(&hex16_chars(h))
}

/// The marker line that names the peer a task was delegated to.
pub open spec fn delegation_marker() -> Seq<char> {
    "[delegation] peer="@
}

/// The peer named by the first line whose trimmed text starts with the
/// marker: the rest of that line, trimmed, when it is not empty.
pub open spec fn peer_from_lines(ls: Seq<Seq<char>>) -> Option<Seq<char>>
    decreases ls.len(),
{
    if ls.len() == 0 {
        None
    } else {
        let t = trim(ls[0]);
        if starts_with(t, delegation_marker()) {
            let p = trim(t.skip(delegation_marker().len() as int));
            if p.len() > 0 {
                Some(p)
            } else {
                None
            }
        } else {
            peer_from_lines(ls.drop_first())
        }
    }
}

/// The peer a task's output names on its delegation line.
pub fn parse_peer_from_output(output: &str) -> (r: Option<String>)
    ensures
        opt_view(r) == peer_from_lines(lines(output@)),
{
    let ls = lines_exec(&chars_of(output));
    let marker = chars_of("[delegation] peer=");
    let mut i: usize = 0;
    assert(views(ls@).skip(0) =~= views(ls@));
    while i < ls.len()
        invariant
            i <= ls@.len(),
            views(ls@) == lines(output@),
            marker@ == delegation_marker(),
            peer_from_lines(views(ls@)) == peer_from_lines(views(ls@).skip(i as int)),
        decreases ls.len() - i,
    {
        let ghost rest = views(ls@).skip(i as int);
        assert(rest[0] == ls@[i as int]@);
        assert(rest.drop_first() =~= views(ls@).skip(i + 1));
        let t = trimmed(&ls[i]);
        if crate::text::starts_with_exec(&t, &marker) {
            let tail = slice(&t, marker.len(), t.len());
            assert(tail@ =~= t@.skip(delegation_marker().len() as int));
            let p = trimmed(&tail);
            if p.len() > 0 {
                return Some(string_of(&p));
            } else {
                return None;
            }
        }
        i = i + 1;
    }
    None
}

// ---------------------------------------------------------------------------
// The unified trace.
// ---------------------------------------------------------------------------

/// Positions of the events in time order (equal stamps keep their order).
pub open spec fn time_order(events: Seq<EventEnvelope>) -> Seq<int> {
    sorted_by_stamps(Seq::new(events.len(), |i: int| i), event_stamps(events))
}

pub open spec fn task_or_unknown(task: Option<String>) -> Seq<char> {
    match task {
        Some(t) => t@,
        None => "task:unknown"@,
    }
}

/// The unified-trace record of one event.
pub open spec fn unified_matches(r: UnifiedTraceRecord, session_id: Seq<char>, e: EventEnvelope) -> bool {
    &&& r.event_id@ == e.event_id@
    &&& r.session_id@ == session_id
    &&& r.trace_id@ == e.trace_id@
    &&& r.task_id@ == task_or_unknown(e.task_id)
    &&& opt_view(r.capability_id) == opt_view(e.capability_id)
    &&& r.kind@ == e.kind@
    &&& r.status@ == event_status(e)
    &&& r.branch_id@ == "branch:"@ + session_id + ":"@ + task_or_unknown(e.task_id)
    &&& r.created_at_ms == e.created_at_ms
}

proof fn lemma_time_order_len(events: Seq<EventEnvelope>)
    ensures
        time_order(events).len() == events.len(),
        forall|k: int| 0 <= k < events.len() ==> 0 <= #[trigger] time_order(events)[k] < events.len(),
{
    let idx = Seq::new(events.len(), |i: int| i);
    let st = crate::timeline::stamped(idx, event_stamps(events));
    crate::timeline::lemma_sort_stamped(st);
    let sorted = crate::timeline::sort_stamped(st);
    assert forall|k: int| 0 <= k < events.len() implies 0 <= #[trigger] time_order(events)[k] < events.len() by {
        let p = sorted[k];
        sorted.to_multiset_ensures();
        assert(sorted.contains(p));
        assert(sorted.to_multiset().count(p) > 0);
        assert(st.to_multiset().count(p) > 0);
        st.to_multiset_ensures();
        assert(st.contains(p));
        let m = choose|m: int| 0 <= m < st.len() && st[m] == p;
        assert(p.1 == m);
    }
}

pub(crate) fn index_sequence(n: usize) -> (r: Vec<usize>)
    ensures
        r@.len() == n,
        r@.map_values(|i: usize| i as int) == Seq::new(n as nat, |i: int| i),
{
    let mut v: Vec<usize> = Vec::new();
    let mut i: usize = 0;
    while i < n
        invariant
            i <= n,
            v@.len() == i,
            forall|j: int| 0 <= j < i ==> #[trigger] v@[j] == j,
        decreases n - i,
    {
        v.push(i);
        i = i + 1;
    }
    assert(v@.map_values(|i: usize| i as int) =~= Seq::new(n as nat, |j: int| j));
    v
}

/// Positions of `events` in time order.
pub fn time_order_exec(events: &Vec<EventEnvelope>) -> (r: Vec<usize>)
    ensures
        r@.map_values(|i: usize| i as int) == time_order(events@),
        r@.len() == events@.len(),
        forall|k: int| 0 <= k < r@.len() ==> #[trigger] r@[k] < events@.len(),
{
    let n = events.len();
    let idx = index_sequence(n);
    let mut stamps: Vec<u64> = Vec::new();
    let mut i: usize = 0;
    while i < n
        invariant
            i <= n,
            n == events@.len(),
            stamps@ =~= event_stamps(events@).take(i as int),
        decreases n - i,
    {
        stamps.push(events[i].created_at_ms);
        i = i + 1;
    }
    assert(event_stamps(events@).take(n as int) =~= event_stamps(events@));
    let ghost idx_int = idx@.map_values(|i: usize| i as int);
    let sorted = sort_by_stamps(idx, stamps);
    proof {
        lemma_stamp_sort_map(idx@, event_stamps(events@));
        lemma_time_order_len(events@);
    }
    assert forall|k: int| 0 <= k < sorted@.len() implies #[trigger] sorted@[k] < events@.len() by {
        assert(sorted@.map_values(|i: usize| i as int)[k] == time_order(events@)[k]);
    }
    sorted
}

/// Sorting positions by stamps commutes with reading them as integers.
proof fn lemma_stamp_sort_map(idx: Seq<usize>, stamps: Seq<u64>)
    requires
        idx.len() == stamps.len(),
    ensures
        sorted_by_stamps(idx, stamps).map_values(|i: usize| i as int) == sorted_by_stamps(
            idx.map_values(|i: usize| i as int),
            stamps,
        ),
{
    let s1 = crate::timeline::stamped(idx, stamps);
    let s2 = crate::timeline::stamped(idx.map_values(|i: usize| i as int), stamps);
    let f = |i: usize| i as int;
    assert forall|i: int| 0 <= i < s1.len() implies #[trigger] s2[i] == (s1[i].0, f(s1[i].1)) by {}
    crate::timeline::lemma_sort_stamped_map(s1, s2, f);
    let a = sorted_by_stamps(idx, stamps).map_values(|i: usize| i as int);
    let b = sorted_by_stamps(idx.map_values(|i: usize| i as int), stamps);
    assert(a =~= b);
}

/// The session's events on their tasks' branches, in time order.
pub fn collect_unified_trace(session_id: &str, events: &Vec<EventEnvelope>) -> (r: Vec<UnifiedTraceRecord>)
    ensures
        r@.len() == events@.len(),
        forall|k: int| 0 <= k < r@.len() ==> unified_matches(
            #[trigger] r@[k],
            session_id@,
            events@[time_order(events@)[k]],
        ),
{
    let order = time_order_exec(events);
    let mut out: Vec<UnifiedTraceRecord> = Vec::new();
    let mut k: usize = 0;
    while k < order.len()
        invariant
            k <= order@.len(),
            order@.len() == events@.len(),
            order@.map_values(|i: usize| i as int) == time_order(events@),
            forall|m: int| 0 <= m < order@.len() ==> #[trigger] order@[m] < events@.len(),
            out@.len() == k,
            forall|m: int| 0 <= m < k ==> unified_matches(
                #[trigger] out@[m],
                session_id@,
                events@[time_order(events@)[m]],
            ),
        decreases order.len() - k,
    {
        let j = order[k];
        assert(time_order(events@)[k as int] == j as int);
        let e = &events[j];
        let task = match &e.task_id {
            Some(t) => t.clone(),
            None => text("task:unknown"),
        };
        let mut branch = chars_of("branch:");
        push_str(&mut branch, session_id);
        push_str(&mut branch, ":");
        push_str(&mut branch, task.as_str());
        out.push(
            UnifiedTraceRecord {
                event_id: e.event_id.clone(),
                session_id: text(session_id),
                trace_id: e.trace_id.clone(),
                task_id: task,
                capability_id: match &e.capability_id {
                    Some(c) => Some(c.clone()),
                    None => None,
                },
                kind: e.kind.clone(),
                status: status_from_event(e),
                branch_id: string_of(&branch),
                created_at_ms: e.created_at_ms,
            },
        );
        k = k + 1;
    }
    out
}

} // verus!
