//! Which tasks of a session were handed to a peer: from the delegation
//! records in the state store, and from the delegation line of each task's
//! output that no record already names.
use vstd::prelude::*;

use crate::memory::json::{json_document, json_member, json_member_text, member_spec, member_text_spec, parse_json_document, JsonValue};
use crate::numbers::{lenient_u64, lenient_u64_spec};
use crate::observability::collector::{parse_peer_from_output, peer_from_lines, DelegationTraceRecord};
use crate::observability::whitebox::KnowledgeEntry;
use crate::orchestration::ExecutionReport;
use crate::text::{chars_eq_str, chars_of, lines, string_of};
use crate::timeline::{lemma_sorted_by_stamps_map, sort_by_stamps, sorted_by_stamps};

verus! {

/// A delegation trace as plain values.
pub struct DelegationView {
    pub session_id: Seq<char>,
    pub task_id: Seq<char>,
    pub peer: Seq<char>,
    pub delegated: bool,
    pub source: Seq<char>,
    pub created_at_ms: u64,
}

impl View for DelegationTraceRecord {
    type V = DelegationView;

    open spec fn view(&self) -> DelegationView {
        DelegationView {
            session_id: self.session_id@,
            task_id: self.task_id@,
            peer: self.peer@,
            delegated: self.delegated,
            source: self.source@,
            created_at_ms: self.created_at_ms,
        }
    }
}

/// The text member `key` of a document, else `fallback`.
pub open spec fn text_or(doc: JsonValue, key: Seq<char>, fallback: Seq<char>) -> Seq<char> {
    match member_text_spec(doc, key) {
        Some(t) => t,
        None => fallback,
    }
}

/// The trace a stored delegation document records; where it gives no time
/// it is stamped `now`.
pub open spec fn stored_trace(session_id: Seq<char>, doc: JsonValue, now: u64) -> DelegationView {
    DelegationView {
        session_id,
        task_id: text_or(doc, "task_id"@, "task:unknown"@),
        peer: text_or(doc, "peer"@, "peer:unknown"@),
        delegated: match member_spec(doc, "delegated"@) {
            Some(JsonValue::Bool(b)) => b,
            _ => true,
        },
        source: "knowledge-record"@,
        created_at_ms: match member_spec(doc, "created_at_ms"@) {
            Some(v) => match lenient_u64_spec(v) {
                Some(n) => n,
                None => now,
            },
            None => now,
        },
    }
}

/// The traces of the stored records whose value is JSON, in store order.
pub open spec fn stored_traces(session_id: Seq<char>, entries: Seq<KnowledgeEntry>, now: u64) -> Seq<DelegationView>
    decreases entries.len(),
{
    if entries.len() == 0 {
        Seq::empty()
    } else {
        let r = stored_traces(session_id, entries.drop_last(), now);
        match json_document(entries.last().value@) {
            Some(doc) => r.push(stored_trace(session_id, doc, now)),
            None => r,
        }
    }
}

/// Some trace in `ts` hands task `task` to `peer`.
pub open spec fn names_pair(ts: Seq<DelegationView>, task: Seq<char>, peer: Seq<char>) -> bool {
    exists|i: int| 0 <= i < ts.len() && (#[trigger] ts[i]).task_id == task && ts[i].peer == peer
}

/// The trace a task's output shows: its delegation line's peer, stamped `now`.
pub open spec fn output_trace(session_id: Seq<char>, task: Seq<char>, peer: Seq<char>, now: u64) -> DelegationView {
    DelegationView {
        session_id,
        task_id: task,
        peer,
        delegated: true,
        source: "execution-output"@,
        created_at_ms: now,
    }
}

/// `stored` followed by one trace per report whose output names a peer that
/// no earlier trace pairs with the report's task.
pub open spec fn with_output_traces(
    session_id: Seq<char>,
    stored: Seq<DelegationView>,
    reports: Seq<ExecutionReport>,
    now: u64,
) -> Seq<DelegationView>
    decreases reports.len(),
{
    if reports.len() == 0 {
        stored
    } else {
        let prev = with_output_traces(session_id, stored, reports.drop_last(), now);
        let task = reports.last().task.task_id@;
        match peer_from_lines(lines(reports.last().output@)) {
            Some(p) => if names_pair(prev, task, p) {
                prev
            } else {
                prev.push(output_trace(session_id, task, p, now))
            },
            None => prev,
        }
    }
}

/// The delegation traces of a session by time, equal times in the order above.
pub open spec fn delegation_traces_spec(
    session_id: Seq<char>,
    entries: Seq<KnowledgeEntry>,
    reports: Seq<ExecutionReport>,
    now: u64,
) -> Seq<DelegationView> {
    let t = with_output_traces(session_id, stored_traces(session_id, entries, now), reports, now);
    sorted_by_stamps(t, t.map_values(|x: DelegationView| x.created_at_ms))
}

fn text_or_exec(doc: &JsonValue, key: &str, fallback: &str) -> (r: String)
    ensures
        r@ == text_or(*doc, key@, fallback@),
{
    match json_member_text(doc, key) {
        Some(t) => t,
        None => string_of(&chars_of(fallback)),
    }
}

fn stored_trace_exec(session_id: &str, doc: &JsonValue, now: u64) -> (r: DelegationTraceRecord)
    ensures
        r@ == stored_trace(session_id@, *doc, now),
{
    let delegated = match json_member(doc, "delegated") {
        Some(JsonValue::Bool(b)) => *b,
        _ => true,
    };
    let created = match json_member(doc, "created_at_ms") {
        Some(v) => match lenient_u64(v) {
            Some(n) => n,
            None => now,
        },
        None => now,
    };
    DelegationTraceRecord {
        session_id: string_of(&chars_of(session_id)),
        task_id: text_or_exec(doc, "task_id", "task:unknown"),
        peer: text_or_exec(doc, "peer", "peer:unknown"),
        delegated,
        source: string_of(&chars_of("knowledge-record")),
        created_at_ms: created,
    }
}

/// Whether some trace hands `task` to `peer`.
fn names_pair_exec(ts: &Vec<DelegationTraceRecord>, task: &str, peer: &str) -> (r: bool)
    ensures
        r == names_pair(ts@.map_values(|x: DelegationTraceRecord| x@), task@, peer@),
{
    let ghost tv = ts@.map_values(|x: DelegationTraceRecord| x@);
    let mut i: usize = 0;
    while i < ts.len()
        invariant
            i <= ts@.len(),
            tv == ts@.map_values(|x: DelegationTraceRecord| x@),
            forall|j: int| 0 <= j < i ==> !((#[trigger] tv[j]).task_id == task@ && tv[j].peer == peer@),
        decreases ts.len() - i,
    {
        let a = chars_of(ts[i].task_id.as_str());
        let b = chars_of(ts[i].peer.as_str());
        if chars_eq_str(&a, task) && chars_eq_str(&b, peer) {
            assert(tv[i as int].task_id == task@ && tv[i as int].peer == peer@);
            return true;
        }
        i = i + 1;
    }
    false
}

fn trace_stamps(ts: &Vec<DelegationTraceRecord>) -> (r: Vec<u64>)
    ensures
        r@ == ts@.map_values(|x: DelegationTraceRecord| x@).map_values(|x: DelegationView| x.created_at_ms),
{
    let mut out: Vec<u64> = Vec::new();
    let mut i: usize = 0;
    while i < ts.len()
        invariant
            i <= ts@.len(),
            out@ =~= ts@.map_values(|x: DelegationTraceRecord| x@).map_values(
                |x: DelegationView| x.created_at_ms,
            ).take(i as int),
        decreases ts.len() - i,
    {
        out.push(ts[i].created_at_ms);
        i = i + 1;
    }
    out
}

/// The delegation traces of a session, stamped `now` where no time is
/// recorded (see `delegation_traces_spec`): one per stored record whose value
/// is JSON, then one per report whose output names a peer not yet paired with
/// its task, ordered by time. `entries` are the records the store lists under
/// `peer-delegation:{session_id}:`.
pub fn collect_delegation_traces_at(
    session_id: &str,
    entries: &Vec<KnowledgeEntry>,
    reports: &Vec<ExecutionReport>,
    now: u64,
) -> (r: Vec<DelegationTraceRecord>)
    ensures
        r@.map_values(|x: DelegationTraceRecord| x@) == delegation_traces_spec(session_id@, entries@, reports@, now),
{
    let mut traces: Vec<DelegationTraceRecord> = Vec::new();
    let mut i: usize = 0;
    while i < entries.len()
        invariant
            i <= entries@.len(),
            traces@.map_values(|x: DelegationTraceRecord| x@) == stored_traces(session_id@, entries@.take(i as int), now),
        decreases entries.len() - i,
    {
        let ghost e1 = entries@.take(i + 1);
        assert(e1.drop_last() =~= entries@.take(i as int));
        assert(e1.last() == entries@[i as int]);
        match parse_json_document(entries[i].value.as_str()) {
            Some(doc) => {
                let ghost t0 = traces@.map_values(|x: DelegationTraceRecord| x@);
                traces.push(stored_trace_exec(session_id, &doc, now));
                assert(traces@.map_values(|x: DelegationTraceRecord| x@) =~= t0.push(
                    stored_trace(session_id@, doc, now),
                ));
            },
            None => {},
        }
        i = i + 1;
    }
    assert(entries@.take(entries@.len() as int) =~= entries@);
    let ghost stored = stored_traces(session_id@, entries@, now);
    let mut j: usize = 0;
    while j < reports.len()
        invariant
            j <= reports@.len(),
            traces@.map_values(|x: DelegationTraceRecord| x@) == with_output_traces(
                session_id@,
                stored,
                reports@.take(j as int),
                now,
            ),
        decreases reports.len() - j,
    {
        let ghost r1 = reports@.take(j + 1);
        assert(r1.drop_last() =~= reports@.take(j as int));
        assert(r1.last() == reports@[j as int]);
        let rep = &reports[j];
        match parse_peer_from_output(rep.output.as_str()) {
            Some(peer) => {
                if !names_pair_exec(&traces, rep.task.task_id.as_str(), peer.as_str()) {
                    let ghost t0 = traces@.map_values(|x: DelegationTraceRecord| x@);
                    let ghost pv = peer@;
                    traces.push(
                        DelegationTraceRecord {
                            session_id: string_of(&chars_of(session_id)),
                            task_id: rep.task.task_id.clone(),
                            peer,
                            delegated: true,
                            source: string_of(&chars_of("execution-output")),
                            created_at_ms: now,
                        },
                    );
                    assert(traces@.map_values(|x: DelegationTraceRecord| x@) =~= t0.push(
                        output_trace(session_id@, rep.task.task_id@, pv, now),
                    ));
                }
            },
            None => {},
        }
        j = j + 1;
    }
    assert(reports@.take(reports@.len() as int) =~= reports@);
    let stamps = trace_stamps(&traces);
    let ghost ts = traces@;
    let sorted = sort_by_stamps(traces, stamps);
    proof {
        lemma_sorted_by_stamps_map(ts, stamps@, |x: DelegationTraceRecord| x@);
    }
    sorted
}

/// `collect_delegation_traces_at` stamped with the current time.
pub fn collect_delegation_traces(
    session_id: &str,
    entries: &Vec<KnowledgeEntry>,
    reports: &Vec<ExecutionReport>,
) -> (r: Vec<DelegationTraceRecord>)
    ensures
        exists|now: u64|
            r@.map_values(|x: DelegationTraceRecord| x@) == #[trigger] delegation_traces_spec(
                session_id@,
                entries@,
                reports@,
                now,
            ),
{
    let now = crate::clock::current_time_ms();
    collect_delegation_traces_at(session_id, entries, reports, now)
}

} // verus!
