//! What the run events of a session say about its tasks: which tasks were
//! retried, and every guard decision, with a fallback from the execution
//! report of each task no event speaks of.
use vstd::prelude::*;

use crate::groups::{dedup_first, dedup_texts, lemma_dedup_first, positions_exec, positions_of, text_views};
use crate::lexical::{lemma_sorted_by_text_keys_map, sort_by_text_keys, sorted_by_text_keys};
use crate::memory::json::{json_member, member_spec, JsonValue};
use crate::numbers::{lenient_u64, lenient_u64_spec};
use crate::observability::collector::{
    event_status, payload_string, payload_string_spec, status_from_event, task_or_unknown, GuardHitRecord, RetryRecord,
    TokenCostRecord,
};
use crate::observability::event_stream::EventEnvelope;
use crate::observability::signal::opt_view;
use crate::orchestration::ExecutionReport;
use crate::text::{chars_eq_str, chars_of, push_all, push_str, string_of};
use crate::timeline::{lemma_sorted_by_stamps_map, sort_by_stamps, sorted_by_stamps};

verus! {

/// A run event: a task run or a runtime block.
pub open spec fn is_run(e: EventEnvelope) -> bool {
    e.kind@ == "task_runs"@ || e.kind@ == "runtime_blocks"@
}

/// The positions of the run events.
pub open spec fn run_positions(events: Seq<EventEnvelope>) -> Seq<usize>
    decreases events.len(),
{
    if events.len() == 0 {
        Seq::empty()
    } else {
        let r = run_positions(events.drop_last());
        if is_run(events.last()) {
            r.push((events.len() - 1) as usize)
        } else {
            r
        }
    }
}

/// The tasks of the run events, in order.
pub open spec fn run_tasks(events: Seq<EventEnvelope>) -> Seq<Seq<char>> {
    run_positions(events).map_values(|i: usize| task_or_unknown(events[i as int].task_id))
}

/// The positions of the run events of task `t`.
pub open spec fn task_runs_of(events: Seq<EventEnvelope>, t: Seq<char>) -> Seq<usize> {
    positions_of(run_tasks(events), t).map_values(|i: usize| run_positions(events)[i as int])
}

/// The tasks, of those in `ts`, that ran more than once.
pub open spec fn retried(events: Seq<EventEnvelope>, ts: Seq<Seq<char>>) -> Seq<Seq<char>>
    decreases ts.len(),
{
    if ts.len() == 0 {
        Seq::empty()
    } else {
        let r = retried(events, ts.drop_last());
        if task_runs_of(events, ts.last()).len() > 1 {
            r.push(ts.last())
        } else {
            r
        }
    }
}

/// A retry record as plain values.
pub struct RetryView {
    pub session_id: Seq<char>,
    pub task_id: Seq<char>,
    pub trace_id: Seq<char>,
    pub attempts: u32,
    pub retries: u32,
    pub final_status: Seq<char>,
    pub last_reason: Seq<char>,
}

impl View for RetryRecord {
    type V = RetryView;

    open spec fn view(&self) -> RetryView {
        RetryView {
            session_id: self.session_id@,
            task_id: self.task_id@,
            trace_id: self.trace_id@,
            attempts: self.attempts,
            retries: self.retries,
            final_status: self.final_status@,
            last_reason: self.last_reason@,
        }
    }
}

/// The retry record of task `t`: its attempts (counted up to `u32::MAX`),
/// and the trace, status and reason (else the kind) of its last run event.
pub open spec fn retry_model(session_id: Seq<char>, events: Seq<EventEnvelope>, t: Seq<char>) -> RetryView {
    let p = task_runs_of(events, t);
    let last = events[p.last() as int];
    let attempts: u32 = if p.len() > u32::MAX {
        u32::MAX
    } else {
        p.len() as u32
    };
    RetryView {
        session_id,
        task_id: t,
        trace_id: last.trace_id@,
        attempts,
        retries: (attempts - 1) as u32,
        final_status: event_status(last),
        last_reason: match payload_string_spec(last.payload, "reason"@) {
            Some(x) => x,
            None => last.kind@,
        },
    }
}

/// The retried tasks of a session, in order of first run.
pub open spec fn retried_tasks(events: Seq<EventEnvelope>) -> Seq<Seq<char>> {
    retried(events, dedup_first(run_tasks(events)))
}

/// The retry records of a session, ordered by task id.
pub open spec fn retries_spec(session_id: Seq<char>, events: Seq<EventEnvelope>) -> Seq<RetryView> {
    let ts = retried_tasks(events);
    sorted_by_text_keys(ts.map_values(|t: Seq<char>| retry_model(session_id, events, t)), ts)
}

proof fn lemma_run_positions_bound(events: Seq<EventEnvelope>)
    ensures
        forall|k: int| 0 <= k < run_positions(events).len() ==> #[trigger] run_positions(events)[k] < events.len(),
    decreases events.len(),
{
    if events.len() > 0 {
        lemma_run_positions_bound(events.drop_last());
        let r = run_positions(events.drop_last());
        assert forall|k: int| 0 <= k < run_positions(events).len() implies #[trigger] run_positions(events)[k]
            < events.len() by {
            if k < r.len() {
                assert(run_positions(events)[k] == r[k]);
            }
        }
    }
}

fn is_run_exec(e: &EventEnvelope) -> (r: bool)
    ensures
        r == is_run(*e),
{
    let k = chars_of(e.kind.as_str());
    chars_eq_str(&k, "task_runs") || chars_eq_str(&k, "runtime_blocks")
}

fn task_text(e: &EventEnvelope) -> (r: Vec<char>)
    ensures
        r@ == task_or_unknown(e.task_id),
{
    match &e.task_id {
        Some(t) => chars_of(t.as_str()),
        None => chars_of("task:unknown"),
    }
}

/// The run events' positions and their tasks.
fn run_list(events: &Vec<EventEnvelope>) -> (r: (Vec<usize>, Vec<Vec<char>>))
    ensures
        r.0@ == run_positions(events@),
        text_views(r.1@) == run_tasks(events@),
        forall|k: int| 0 <= k < r.0@.len() ==> #[trigger] r.0@[k] < events@.len(),
{
    let mut pos: Vec<usize> = Vec::new();
    let mut tasks: Vec<Vec<char>> = Vec::new();
    let mut i: usize = 0;
    while i < events.len()
        invariant
            i <= events@.len(),
            pos@ == run_positions(events@.take(i as int)),
            text_views(tasks@) == run_positions(events@.take(i as int)).map_values(
                |j: usize| task_or_unknown(events@[j as int].task_id),
            ),
            forall|k: int| 0 <= k < pos@.len() ==> #[trigger] pos@[k] < i,
        decreases events.len() - i,
    {
        let ghost e1 = events@.take(i + 1);
        assert(e1.drop_last() =~= events@.take(i as int));
        assert(e1.last() == events@[i as int]);
        if is_run_exec(&events[i]) {
            let ghost t0 = text_views(tasks@);
            pos.push(i);
            tasks.push(task_text(&events[i]));
            assert(text_views(tasks@) =~= t0.push(task_or_unknown(events@[i as int].task_id)));
            assert(run_positions(e1).map_values(|j: usize| task_or_unknown(events@[j as int].task_id)) =~= t0.push(
                task_or_unknown(events@[i as int].task_id),
            ));
        }
        i = i + 1;
    }
    assert(events@.take(events@.len() as int) =~= events@);
    (pos, tasks)
}

fn copy_chars(v: &Vec<char>) -> (r: Vec<char>)
    ensures
        r@ == v@,
{
    let r = crate::text::slice(v, 0, v.len());
    assert(r@ =~= v@);
    r
}

fn reason_or_kind(e: &EventEnvelope) -> (r: String)
    ensures
        r@ == match payload_string_spec(e.payload, "reason"@) {
            Some(x) => x,
            None => e.kind@,
        },
{
    match payload_string(&e.payload, "reason") {
        Some(x) => x,
        None => e.kind.clone(),
    }
}

fn retry_record(
    session_id: &str,
    events: &Vec<EventEnvelope>,
    pos: &Vec<usize>,
    q: &Vec<usize>,
    task: &Vec<char>,
) -> (r: RetryRecord)
    requires
        q@.len() > 1,
        forall|k: int| 0 <= k < q@.len() ==> #[trigger] q@[k] < pos@.len(),
        forall|k: int| 0 <= k < pos@.len() ==> #[trigger] pos@[k] < events@.len(),
        q@.map_values(|i: usize| pos@[i as int]) == task_runs_of(events@, task@),
    ensures
        r@ == retry_model(session_id@, events@, task@),
{
    let ghost p = task_runs_of(events@, task@);
    assert(p.last() == pos@[q@.last() as int]);
    let last = &events[pos[q[q.len() - 1]]];
    let attempts: u32 = if q.len() > 4294967295 {
        4294967295
    } else {
        q.len() as u32
    };
    RetryRecord {
        session_id: string_of(&chars_of(session_id)),
        task_id: string_of(task),
        trace_id: last.trace_id.clone(),
        attempts,
        retries: attempts - 1,
        final_status: status_from_event(last),
        last_reason: reason_or_kind(last),
    }
}

/// The tasks that ran more than once, with the trace, status and reason of
/// their last run, ordered by task id (see `retries_spec`).
pub fn collect_retries(session_id: &str, events: &Vec<EventEnvelope>) -> (r: Vec<RetryRecord>)
    ensures
        r@.map_values(|x: RetryRecord| x@) == retries_spec(session_id@, events@),
{
    let (pos, tasks) = run_list(events);
    let distinct = dedup_texts(&tasks);
    let ghost dv = text_views(distinct@);
    let ghost rt = run_tasks(events@);
    let mut recs: Vec<RetryRecord> = Vec::new();
    let mut keys: Vec<Vec<char>> = Vec::new();
    let mut i: usize = 0;
    assert(text_views(tasks@).len() == tasks@.len());
    while i < distinct.len()
        invariant
            i <= distinct@.len(),
            dv == text_views(distinct@),
            pos@ == run_positions(events@),
            rt == run_tasks(events@),
            text_views(tasks@) == rt,
            tasks@.len() == pos@.len(),
            forall|k: int| 0 <= k < pos@.len() ==> #[trigger] pos@[k] < events@.len(),
            text_views(keys@) == retried(events@, dv.take(i as int)),
            recs@.map_values(|x: RetryRecord| x@) == retried(events@, dv.take(i as int)).map_values(
                |t: Seq<char>| retry_model(session_id@, events@, t),
            ),
        decreases distinct.len() - i,
    {
        let ghost d1 = dv.take(i + 1);
        assert(d1.drop_last() =~= dv.take(i as int));
        assert(d1.last() == distinct@[i as int]@);
        let q = positions_exec(&tasks, &distinct[i]);
        assert(q@.map_values(|j: usize| pos@[j as int]) =~= task_runs_of(events@, distinct@[i as int]@));
        if q.len() > 1 {
            let ghost k0 = text_views(keys@);
            let ghost r0 = recs@.map_values(|x: RetryRecord| x@);
            let rec = retry_record(session_id, events, &pos, &q, &distinct[i]);
            recs.push(rec);
            keys.push(copy_chars(&distinct[i]));
            assert(text_views(keys@) =~= k0.push(distinct@[i as int]@));
            assert(recs@.map_values(|x: RetryRecord| x@) =~= r0.push(retry_model(session_id@, events@, distinct@[i as int]@)));
        }
        i = i + 1;
    }
    assert(dv.take(distinct@.len() as int) =~= dv);
    let ghost ts = retried_tasks(events@);
    let ghost rs = recs@;
    assert(text_views(keys@).len() == keys@.len());
    assert(rs.map_values(|x: RetryRecord| x@).len() == rs.len());
    let sorted = sort_by_text_keys(recs, keys);
    proof {
        lemma_sorted_by_text_keys_map(rs, ts, |x: RetryRecord| x@);
    }
    sorted
}

// ---------------------------------------------------------------------------
// Guard hits.
// ---------------------------------------------------------------------------

/// A guard hit as plain values.
pub struct GuardHitView {
    pub session_id: Seq<char>,
    pub trace_id: Seq<char>,
    pub task_id: Seq<char>,
    pub capability_id: Option<Seq<char>>,
    pub decision: Seq<char>,
    pub reason: Seq<char>,
    pub created_at_ms: u64,
}

impl View for GuardHitRecord {
    type V = GuardHitView;

    open spec fn view(&self) -> GuardHitView {
        GuardHitView {
            session_id: self.session_id@,
            trace_id: self.trace_id@,
            task_id: self.task_id@,
            capability_id: opt_view(self.capability_id),
            decision: self.decision@,
            reason: self.reason@,
            created_at_ms: self.created_at_ms,
        }
    }
}

/// The guard hit a run event records: its decision (else the status it puts
/// the task in) and reason (else its kind).
pub open spec fn event_hit(session_id: Seq<char>, e: EventEnvelope) -> GuardHitView {
    GuardHitView {
        session_id,
        trace_id: e.trace_id@,
        task_id: task_or_unknown(e.task_id),
        capability_id: opt_view(e.capability_id),
        decision: match payload_string_spec(e.payload, "decision"@) {
            Some(x) => x,
            None => event_status(e),
        },
        reason: match payload_string_spec(e.payload, "reason"@) {
            Some(x) => x,
            None => e.kind@,
        },
        created_at_ms: e.created_at_ms,
    }
}

/// The guard hit taken from an execution report, stamped `now`.
pub open spec fn fallback_hit(session_id: Seq<char>, rep: ExecutionReport, now: u64) -> GuardHitView {
    GuardHitView {
        session_id,
        trace_id: "trace:"@ + session_id + ":"@ + rep.task.task_id@,
        task_id: rep.task.task_id@,
        capability_id: opt_view(rep.tool_used),
        decision: rep.guard_decision@,
        reason: "execution_report_fallback"@,
        created_at_ms: now,
    }
}

pub open spec fn report_tasks(reports: Seq<ExecutionReport>) -> Seq<Seq<char>> {
    reports.map_values(|r: ExecutionReport| r.task.task_id@)
}

/// The reports whose task neither a run event nor an earlier such report
/// names.
pub open spec fn fallback_reports(reports: Seq<ExecutionReport>, known: Seq<Seq<char>>) -> Seq<ExecutionReport>
    decreases reports.len(),
{
    if reports.len() == 0 {
        Seq::empty()
    } else {
        let prev = fallback_reports(reports.drop_last(), known);
        let t = reports.last().task.task_id@;
        if known.contains(t) || report_tasks(prev).contains(t) {
            prev
        } else {
            prev.push(reports.last())
        }
    }
}

/// The guard hits before ordering: one per run event, then one per report
/// whose task has none.
pub open spec fn unsorted_hits(
    session_id: Seq<char>,
    events: Seq<EventEnvelope>,
    reports: Seq<ExecutionReport>,
    now: u64,
) -> Seq<GuardHitView> {
    run_positions(events).map_values(|i: usize| event_hit(session_id, events[i as int])) + fallback_reports(
        reports,
        run_tasks(events),
    ).map_values(|r: ExecutionReport| fallback_hit(session_id, r, now))
}

/// The guard hits of a session by time, equal times in the order above.
pub open spec fn guard_hits_spec(
    session_id: Seq<char>,
    events: Seq<EventEnvelope>,
    reports: Seq<ExecutionReport>,
    now: u64,
) -> Seq<GuardHitView> {
    let h = unsorted_hits(session_id, events, reports, now);
    sorted_by_stamps(h, h.map_values(|x: GuardHitView| x.created_at_ms))
}

fn copy_opt(o: &Option<String>) -> (r: Option<String>)
    ensures
        opt_view(r) == opt_view(*o),
{
    match o {
        Some(t) => Some(t.clone()),
        None => None,
    }
}

fn hit_of_event(session_id: &str, e: &EventEnvelope) -> (r: GuardHitRecord)
    ensures
        r@ == event_hit(session_id@, *e),
{
    GuardHitRecord {
        session_id: string_of(&chars_of(session_id)),
        trace_id: e.trace_id.clone(),
        task_id: string_of(&task_text(e)),
        capability_id: copy_opt(&e.capability_id),
        decision: match payload_string(&e.payload, "decision") {
            Some(x) => x,
            None => status_from_event(e),
        },
        reason: reason_or_kind(e),
        created_at_ms: e.created_at_ms,
    }
}

fn hit_of_report(session_id: &str, rep: &ExecutionReport, now: u64) -> (r: GuardHitRecord)
    ensures
        r@ == fallback_hit(session_id@, *rep, now),
{
    let mut trace = chars_of("trace:");
    push_str(&mut trace, session_id);
    push_str(&mut trace, ":");
    push_str(&mut trace, rep.task.task_id.as_str());
    GuardHitRecord {
        session_id: string_of(&chars_of(session_id)),
        trace_id: string_of(&trace),
        task_id: rep.task.task_id.clone(),
        capability_id: copy_opt(&rep.tool_used),
        decision: rep.guard_decision.clone(),
        reason: string_of(&chars_of("execution_report_fallback")),
        created_at_ms: now,
    }
}

fn hit_stamps(hits: &Vec<GuardHitRecord>) -> (r: Vec<u64>)
    ensures
        r@ == hits@.map_values(|x: GuardHitRecord| x@).map_values(|x: GuardHitView| x.created_at_ms),
{
    let mut out: Vec<u64> = Vec::new();
    let mut i: usize = 0;
    while i < hits.len()
        invariant
            i <= hits@.len(),
            out@ =~= hits@.map_values(|x: GuardHitRecord| x@).map_values(|x: GuardHitView| x.created_at_ms).take(i as int),
        decreases hits.len() - i,
    {
        out.push(hits[i].created_at_ms);
        i = i + 1;
    }
    out
}

/// The guard decisions of a session, stamped `now` where taken from a report
/// (see `guard_hits_spec`): one per run event, then one per report whose
/// task no run event or earlier report names, ordered by time.
pub fn collect_guard_hits_at(
    session_id: &str,
    events: &Vec<EventEnvelope>,
    reports: &Vec<ExecutionReport>,
    now: u64,
) -> (r: Vec<GuardHitRecord>)
    ensures
        r@.map_values(|x: GuardHitRecord| x@) == guard_hits_spec(session_id@, events@, reports@, now),
{
    let ghost rp = run_positions(events@);
    let ghost ev = rp.map_values(|i: usize| event_hit(session_id@, events@[i as int]));
    let mut hits: Vec<GuardHitRecord> = Vec::new();
    let mut known: Vec<Vec<char>> = Vec::new();
    let mut i: usize = 0;
    while i < events.len()
        invariant
            i <= events@.len(),
            hits@.map_values(|x: GuardHitRecord| x@) == run_positions(events@.take(i as int)).map_values(
                |j: usize| event_hit(session_id@, events@[j as int]),
            ),
            text_views(known@) == run_positions(events@.take(i as int)).map_values(
                |j: usize| task_or_unknown(events@[j as int].task_id),
            ),
        decreases events.len() - i,
    {
        let ghost e1 = events@.take(i + 1);
        assert(e1.drop_last() =~= events@.take(i as int));
        assert(e1.last() == events@[i as int]);
        if is_run_exec(&events[i]) {
            let ghost h0 = hits@.map_values(|x: GuardHitRecord| x@);
            let ghost k0 = text_views(known@);
            hits.push(hit_of_event(session_id, &events[i]));
            known.push(task_text(&events[i]));
            assert(hits@.map_values(|x: GuardHitRecord| x@) =~= h0.push(event_hit(session_id@, events@[i as int])));
            assert(text_views(known@) =~= k0.push(task_or_unknown(events@[i as int].task_id)));
        }
        i = i + 1;
    }
    assert(events@.take(events@.len() as int) =~= events@);
    let ghost rt = run_tasks(events@);
    assert(text_views(known@) == rt);
    let ghost hv = hits@.map_values(|x: GuardHitRecord| x@);
    assert(hv == ev);
    let mut j: usize = 0;
    while j < reports.len()
        invariant
            j <= reports@.len(),
            hits@.map_values(|x: GuardHitRecord| x@) == ev + fallback_reports(reports@.take(j as int), rt).map_values(
                |r: ExecutionReport| fallback_hit(session_id@, r, now),
            ),
            text_views(known@) == rt + report_tasks(fallback_reports(reports@.take(j as int), rt)),
        decreases reports.len() - j,
    {
        let ghost r1 = reports@.take(j + 1);
        assert(r1.drop_last() =~= reports@.take(j as int));
        assert(r1.last() == reports@[j as int]);
        let ghost prev = fallback_reports(reports@.take(j as int), rt);
        let t = chars_of(reports[j].task.task_id.as_str());
        let seen = crate::groups::contains_text(&known, &t);
        assert(seen == (rt.contains(t@) || report_tasks(prev).contains(t@))) by {
            let all = rt + report_tasks(prev);
            if all.contains(t@) {
                let w = choose|w: int| 0 <= w < all.len() && all[w] == t@;
                if w < rt.len() {
                    assert(rt[w] == t@);
                } else {
                    assert(report_tasks(prev)[w - rt.len()] == t@);
                }
            }
            if rt.contains(t@) {
                let w = choose|w: int| 0 <= w < rt.len() && rt[w] == t@;
                assert(all[w] == t@);
            }
            if report_tasks(prev).contains(t@) {
                let w = choose|w: int| 0 <= w < report_tasks(prev).len() && report_tasks(prev)[w] == t@;
                assert(all[rt.len() + w] == t@);
            }
        }
        if !seen {
            let ghost h0 = hits@.map_values(|x: GuardHitRecord| x@);
            let ghost k0 = text_views(known@);
            hits.push(hit_of_report(session_id, &reports[j], now));
            known.push(t);
            assert(hits@.map_values(|x: GuardHitRecord| x@) =~= h0.push(fallback_hit(session_id@, reports@[j as int], now)));
            assert(text_views(known@) =~= k0.push(reports@[j as int].task.task_id@));
            assert(report_tasks(prev.push(reports@[j as int])) =~= report_tasks(prev).push(reports@[j as int].task.task_id@));
        }
        j = j + 1;
    }
    assert(reports@.take(reports@.len() as int) =~= reports@);
    let stamps = hit_stamps(&hits);
    let ghost hs = hits@;
    let sorted = sort_by_stamps(hits, stamps);
    proof {
        lemma_sorted_by_stamps_map(hs, stamps@, |x: GuardHitRecord| x@);
    }
    sorted
}

/// `collect_guard_hits_at` stamped with the current time.
pub fn collect_guard_hits(session_id: &str, events: &Vec<EventEnvelope>, reports: &Vec<ExecutionReport>) -> (r: Vec<
    GuardHitRecord,
>)
    ensures
        exists|now: u64| r@.map_values(|x: GuardHitRecord| x@) == #[trigger] guard_hits_spec(session_id@, events@, reports@, now),
{
    let now = crate::clock::current_time_ms();
    collect_guard_hits_at(session_id, events, reports, now)
}


// ---------------------------------------------------------------------------
// Token costs.
// ---------------------------------------------------------------------------

/// A token cost record as plain values.
pub struct TokenCostView {
    pub session_id: Seq<char>,
    pub trace_id: Seq<char>,
    pub task_id: Seq<char>,
    pub capability_id: Option<Seq<char>>,
    pub estimated_prompt_tokens: Option<u32>,
    pub token_cost_micros: u64,
    pub tool_cost_micros: u64,
    pub duration_cost_micros: u64,
    pub total_cost_micros: u64,
    pub created_at_ms: u64,
}

impl View for TokenCostRecord {
    type V = TokenCostView;

    open spec fn view(&self) -> TokenCostView {
        TokenCostView {
            session_id: self.session_id@,
            trace_id: self.trace_id@,
            task_id: self.task_id@,
            capability_id: opt_view(self.capability_id),
            estimated_prompt_tokens: self.estimated_prompt_tokens,
            token_cost_micros: self.token_cost_micros,
            tool_cost_micros: self.tool_cost_micros,
            duration_cost_micros: self.duration_cost_micros,
            total_cost_micros: self.total_cost_micros,
            created_at_ms: self.created_at_ms,
        }
    }
}

/// The member `key` of `v` read leniently as an unsigned integer.
pub open spec fn member_u64(v: JsonValue, key: Seq<char>) -> Option<u64> {
    match member_spec(v, key) {
        Some(x) => lenient_u64_spec(x),
        None => None,
    }
}

/// The member `key` of a cost breakdown, 0 where it is missing or no number.
pub open spec fn micros(cost: JsonValue, key: Seq<char>) -> u64 {
    match member_u64(cost, key) {
        Some(n) => n,
        None => 0,
    }
}

/// A run event that carries a cost breakdown.
pub open spec fn has_cost(e: EventEnvelope) -> bool {
    is_run(e) && member_spec(e.payload, "cost_breakdown"@) is Some
}

/// The cost record of an event with cost breakdown `cost`; the prompt token
/// estimate keeps the low 32 bits of the number read.
pub open spec fn cost_view(session_id: Seq<char>, e: EventEnvelope, cost: JsonValue) -> TokenCostView {
    TokenCostView {
        session_id,
        trace_id: e.trace_id@,
        task_id: task_or_unknown(e.task_id),
        capability_id: opt_view(e.capability_id),
        estimated_prompt_tokens: match member_u64(e.payload, "estimated_prompt_tokens"@) {
            Some(n) => Some(n as u32),
            None => None,
        },
        token_cost_micros: micros(cost, "token_cost_micros"@),
        tool_cost_micros: micros(cost, "tool_cost_micros"@),
        duration_cost_micros: micros(cost, "duration_cost_micros"@),
        total_cost_micros: micros(cost, "total_cost_micros"@),
        created_at_ms: e.created_at_ms,
    }
}

/// The cost records of the run events with a cost breakdown, in log order.
pub open spec fn cost_records(session_id: Seq<char>, events: Seq<EventEnvelope>) -> Seq<TokenCostView>
    decreases events.len(),
{
    if events.len() == 0 {
        Seq::empty()
    } else {
        let r = cost_records(session_id, events.drop_last());
        let e = events.last();
        if has_cost(e) {
            r.push(cost_view(session_id, e, member_spec(e.payload, "cost_breakdown"@).unwrap()))
        } else {
            r
        }
    }
}

/// The cost records of a session by time, equal times in log order.
pub open spec fn token_costs_spec(session_id: Seq<char>, events: Seq<EventEnvelope>) -> Seq<TokenCostView> {
    let c = cost_records(session_id, events);
    sorted_by_stamps(c, c.map_values(|x: TokenCostView| x.created_at_ms))
}

fn member_u64_exec(v: &JsonValue, key: &str) -> (r: Option<u64>)
    ensures
        r == member_u64(*v, key@),
{
    match json_member(v, key) {
        Some(x) => lenient_u64(x),
        None => None,
    }
}

fn micros_exec(cost: &JsonValue, key: &str) -> (r: u64)
    ensures
        r == micros(*cost, key@),
{
    match member_u64_exec(cost, key) {
        Some(n) => n,
        None => 0,
    }
}

fn cost_record(session_id: &str, e: &EventEnvelope, cost: &JsonValue) -> (r: TokenCostRecord)
    ensures
        r@ == cost_view(session_id@, *e, *cost),
{
    let tokens = match member_u64_exec(&e.payload, "estimated_prompt_tokens") {
        Some(n) => Some(n as u32),
        None => None,
    };
    TokenCostRecord {
        session_id: string_of(&chars_of(session_id)),
        trace_id: e.trace_id.clone(),
        task_id: string_of(&task_text(e)),
        capability_id: copy_opt(&e.capability_id),
        estimated_prompt_tokens: tokens,
        token_cost_micros: micros_exec(cost, "token_cost_micros"),
        tool_cost_micros: micros_exec(cost, "tool_cost_micros"),
        duration_cost_micros: micros_exec(cost, "duration_cost_micros"),
        total_cost_micros: micros_exec(cost, "total_cost_micros"),
        created_at_ms: e.created_at_ms,
    }
}

fn cost_stamps(recs: &Vec<TokenCostRecord>) -> (r: Vec<u64>)
    ensures
        r@ == recs@.map_values(|x: TokenCostRecord| x@).map_values(|x: TokenCostView| x.created_at_ms),
{
    let mut out: Vec<u64> = Vec::new();
    let mut i: usize = 0;
    while i < recs.len()
        invariant
            i <= recs@.len(),
            out@ =~= recs@.map_values(|x: TokenCostRecord| x@).map_values(|x: TokenCostView| x.created_at_ms).take(
                i as int,
            ),
        decreases recs.len() - i,
    {
        out.push(recs[i].created_at_ms);
        i = i + 1;
    }
    out
}

/// The cost breakdowns that a session's task runs and runtime blocks report,
/// ordered by time (see `token_costs_spec`).
pub fn collect_token_costs(session_id: &str, events: &Vec<EventEnvelope>) -> (r: Vec<TokenCostRecord>)
    ensures
        r@.map_values(|x: TokenCostRecord| x@) == token_costs_spec(session_id@, events@),
{
    let mut recs: Vec<TokenCostRecord> = Vec::new();
    let mut i: usize = 0;
    while i < events.len()
        invariant
            i <= events@.len(),
            recs@.map_values(|x: TokenCostRecord| x@) == cost_records(session_id@, events@.take(i as int)),
        decreases events.len() - i,
    {
        let ghost e1 = events@.take(i + 1);
        assert(e1.drop_last() =~= events@.take(i as int));
        assert(e1.last() == events@[i as int]);
        let e = &events[i];
        if is_run_exec(e) {
            match json_member(&e.payload, "cost_breakdown") {
                Some(cost) => {
                    let ghost r0 = recs@.map_values(|x: TokenCostRecord| x@);
                    recs.push(cost_record(session_id, e, cost));
                    assert(recs@.map_values(|x: TokenCostRecord| x@) =~= r0.push(
                        cost_view(session_id@, *e, *cost),
                    ));
                },
                None => {},
            }
        }
        i = i + 1;
    }
    assert(events@.take(events@.len() as int) =~= events@);
    let stamps = cost_stamps(&recs);
    let ghost rs = recs@;
    let sorted = sort_by_stamps(recs, stamps);
    proof {
        lemma_sorted_by_stamps_map(rs, stamps@, |x: TokenCostRecord| x@);
    }
    sorted
}

} // verus!
