//! Execution spans: the events of each trace and task folded into one span
//! with its time range, merged status, first named capability, and the pool
//! and route of the task's execution report.
use vstd::prelude::*;

use crate::groups::{dedup_first, dedup_texts, lemma_dedup_first, positions_exec, positions_of, text_views};
use crate::observability::collector::{
    event_status, infer_pool_from_role, merge_status, merge_status_spec, pool_for_role, status_from_event,
    task_or_unknown, ExecSpanRecord,
};
use crate::observability::event_stream::EventEnvelope;
use crate::observability::signal::opt_view;
use crate::orchestration::ExecutionReport;
use crate::text::{chars_of, push_str, string_of};
use crate::timeline::{lemma_sorted_by_stamps_elements, lemma_sorted_by_stamps_map, sort_by_stamps, sorted_by_stamps};

verus! {

/// The span an event belongs to: `{trace}::{task}`.
pub open spec fn span_key(e: EventEnvelope) -> Seq<char> {
    e.trace_id@ + "::"@ + task_or_unknown(e.task_id)
}

pub open spec fn span_keys(events: Seq<EventEnvelope>) -> Seq<Seq<char>> {
    events.map_values(|e: EventEnvelope| span_key(e))
}

/// The events of each span, spans in order of first appearance.
pub open spec fn event_groups(events: Seq<EventEnvelope>) -> Seq<Seq<usize>> {
    dedup_first(span_keys(events)).map_values(|k: Seq<char>| positions_of(span_keys(events), k))
}

/// The earliest stamp among the events at positions `g`.
pub open spec fn earliest(events: Seq<EventEnvelope>, g: Seq<usize>) -> u64
    decreases g.len(),
{
    if g.len() <= 1 {
        events[g[0] as int].created_at_ms
    } else {
        let m = earliest(events, g.drop_last());
        let c = events[g.last() as int].created_at_ms;
        if c < m {
            c
        } else {
            m
        }
    }
}

/// The latest stamp among the events at positions `g`.
pub open spec fn latest(events: Seq<EventEnvelope>, g: Seq<usize>) -> u64
    decreases g.len(),
{
    if g.len() <= 1 {
        events[g[0] as int].created_at_ms
    } else {
        let m = latest(events, g.drop_last());
        let c = events[g.last() as int].created_at_ms;
        if c > m {
            c
        } else {
            m
        }
    }
}

/// The first capability named by the events at positions `g`.
pub open spec fn first_capability(events: Seq<EventEnvelope>, g: Seq<usize>) -> Option<Seq<char>>
    decreases g.len(),
{
    if g.len() == 0 {
        None
    } else {
        let p = first_capability(events, g.drop_last());
        if p is Some {
            p
        } else {
            opt_view(events[g.last() as int].capability_id)
        }
    }
}

/// The status of a span: each event's status merged in turn into the first
/// event's status.
pub open spec fn folded_status(events: Seq<EventEnvelope>, g: Seq<usize>) -> Seq<char>
    decreases g.len(),
{
    if g.len() <= 1 {
        merge_status_spec(event_status(events[g[0] as int]), event_status(events[g[0] as int]))
    } else {
        merge_status_spec(folded_status(events, g.drop_last()), event_status(events[g.last() as int]))
    }
}

/// The last execution report of a task.
pub open spec fn report_for(reports: Seq<ExecutionReport>, task: Seq<char>) -> Option<ExecutionReport>
    decreases reports.len(),
{
    if reports.len() == 0 {
        None
    } else if reports.last().task.task_id@ == task {
        Some(reports.last())
    } else {
        report_for(reports.drop_last(), task)
    }
}

/// The span record of the events at positions `g`, named by the first of them.
pub open spec fn span_matches(
    r: ExecSpanRecord,
    session_id: Seq<char>,
    events: Seq<EventEnvelope>,
    reports: Seq<ExecutionReport>,
    g: Seq<usize>,
) -> bool {
    let e0 = events[g[0] as int];
    let task = task_or_unknown(e0.task_id);
    let rep = report_for(reports, task);
    &&& r.span_id@ == "span:"@ + session_id + ":"@ + e0.trace_id@ + ":"@ + task
    &&& r.session_id@ == session_id
    &&& r.trace_id@ == e0.trace_id@
    &&& r.task_id@ == task
    &&& opt_view(r.capability_id) == first_capability(events, g)
    &&& r.status@ == folded_status(events, g)
    &&& r.start_ms == earliest(events, g)
    &&& r.end_ms == latest(events, g)
    &&& r.latency_ms == latest(events, g) - earliest(events, g)
    &&& opt_view(r.pool) == match rep {
        Some(x) => Some(pool_for_role(x.task.role@)),
        None => None,
    }
    &&& opt_view(r.route_variant) == match rep {
        Some(x) => Some(x.route_variant@),
        None => None,
    }
}

/// The spans of a session as groups of event positions, by start time.
pub open spec fn spans_spec(events: Seq<EventEnvelope>) -> Seq<Seq<usize>> {
    let gs = event_groups(events);
    sorted_by_stamps(gs, gs.map_values(|g: Seq<usize>| earliest(events, g)))
}

proof fn lemma_earliest_latest(events: Seq<EventEnvelope>, g: Seq<usize>)
    requires
        g.len() > 0,
    ensures
        earliest(events, g) <= latest(events, g),
    decreases g.len(),
{
    if g.len() > 1 {
        lemma_earliest_latest(events, g.drop_last());
    }
}

fn span_key_list(events: &Vec<EventEnvelope>) -> (r: Vec<Vec<char>>)
    ensures
        text_views(r@) == span_keys(events@),
{
    let mut out: Vec<Vec<char>> = Vec::new();
    let mut i: usize = 0;
    while i < events.len()
        invariant
            i <= events@.len(),
            text_views(out@) =~= span_keys(events@).take(i as int),
        decreases events.len() - i,
    {
        let mut key = chars_of(events[i].trace_id.as_str());
        push_str(&mut key, "::");
        match &events[i].task_id {
            Some(t) => push_str(&mut key, t.as_str()),
            None => push_str(&mut key, "task:unknown"),
        }
        let ghost o0 = text_views(out@);
        out.push(key);
        assert(text_views(out@) =~= o0.push(span_key(events@[i as int])));
        i = i + 1;
    }
    out
}

fn report_for_exec(reports: &Vec<ExecutionReport>, task: &Vec<char>) -> (r: Option<usize>)
    ensures
        r matches Some(k) ==> k < reports@.len() && report_for(reports@, task@) == Some(reports@[k as int]),
        r is None ==> report_for(reports@, task@) is None,
{
    let mut found: Option<usize> = None;
    let mut i: usize = 0;
    while i < reports.len()
        invariant
            i <= reports@.len(),
            found matches Some(k) ==> k < i && report_for(reports@.take(i as int), task@) == Some(reports@[k as int]),
            found is None ==> report_for(reports@.take(i as int), task@) is None,
        decreases reports.len() - i,
    {
        assert(reports@.take(i + 1).drop_last() =~= reports@.take(i as int));
        assert(reports@.take(i + 1).last() == reports@[i as int]);
        let this = chars_of(reports[i].task.task_id.as_str());
        if crate::text::chars_eq(&this, task) {
            found = Some(i);
        }
        i = i + 1;
    }
    assert(reports@.take(reports@.len() as int) =~= reports@);
    found
}

fn copy_opt(o: &Option<String>) -> (r: Option<String>)
    ensures
        opt_view(r) == opt_view(*o),
{
    match o {
        Some(t) => Some(t.clone()),
        None => None,
    }
}

/// The span of the events at positions `g`.
fn span_of(session_id: &str, events: &Vec<EventEnvelope>, reports: &Vec<ExecutionReport>, g: &Vec<usize>) -> (r: ExecSpanRecord)
    requires
        g@.len() > 0,
        forall|k: int| 0 <= k < g@.len() ==> #[trigger] g@[k] < events@.len(),
    ensures
        span_matches(r, session_id@, events@, reports@, g@),
{
    let first = &events[g[0]];
    let mut start = first.created_at_ms;
    let mut end = first.created_at_ms;
    let mut capability = copy_opt(&first.capability_id);
    let s0 = status_from_event(first);
    let mut status = merge_status(s0.as_str(), s0.as_str());
    assert(g@.take(1).len() == 1 && g@.take(1)[0] == g@[0]);
    assert(first_capability(events@, g@.take(1)) == opt_view(first.capability_id)) by {
        assert(g@.take(1).drop_last() =~= Seq::<usize>::empty());
        assert(first_capability(events@, Seq::<usize>::empty()) is None);
        assert(g@.take(1).last() == g@[0]);
    }
    let mut j: usize = 1;
    while j < g.len()
        invariant
            1 <= j <= g@.len(),
            forall|k: int| 0 <= k < g@.len() ==> #[trigger] g@[k] < events@.len(),
            start == earliest(events@, g@.take(j as int)),
            end == latest(events@, g@.take(j as int)),
            opt_view(capability) == first_capability(events@, g@.take(j as int)),
            status@ == folded_status(events@, g@.take(j as int)),
        decreases g.len() - j,
    {
        let ghost t = g@.take(j + 1);
        assert(t.drop_last() =~= g@.take(j as int));
        assert(t.last() == g@[j as int]);
        let e = &events[g[j]];
        if e.created_at_ms < start {
            start = e.created_at_ms;
        }
        if e.created_at_ms > end {
            end = e.created_at_ms;
        }
        if capability.is_none() {
            capability = copy_opt(&e.capability_id);
        }
        let es = status_from_event(e);
        status = merge_status(status.as_str(), es.as_str());
        j = j + 1;
    }
    assert(g@.take(g@.len() as int) =~= g@);
    proof {
        lemma_earliest_latest(events@, g@);
    }
    let task = match &first.task_id {
        Some(t) => chars_of(t.as_str()),
        None => chars_of("task:unknown"),
    };
    let rep = report_for_exec(reports, &task);
    let (pool, route_variant) = match rep {
        Some(k) => (Some(infer_pool_from_role(reports[k].task.role.as_str())), Some(reports[k].route_variant.clone())),
        None => (None, None),
    };
    let mut span_id = chars_of("span:");
    push_str(&mut span_id, session_id);
    push_str(&mut span_id, ":");
    push_str(&mut span_id, first.trace_id.as_str());
    push_str(&mut span_id, ":");
    crate::text::push_all(&mut span_id, &task);
    ExecSpanRecord {
        span_id: string_of(&span_id),
        session_id: string_of(&chars_of(session_id)),
        trace_id: first.trace_id.clone(),
        task_id: string_of(&task),
        capability_id: capability,
        status,
        start_ms: start,
        end_ms: end,
        latency_ms: end - start,
        pool,
        route_variant,
    }
}

proof fn lemma_positions_nonempty(keys: Seq<Seq<char>>, key: Seq<char>, w: int)
    requires
        0 <= w < keys.len(),
        keys[w] == key,
    ensures
        positions_of(keys, key).len() > 0,
    decreases keys.len(),
{
    if w < keys.len() - 1 {
        lemma_positions_nonempty(keys.drop_last(), key, w);
    }
}

proof fn lemma_positions_bound(keys: Seq<Seq<char>>, key: Seq<char>)
    ensures
        forall|k: int| 0 <= k < positions_of(keys, key).len() ==> #[trigger] positions_of(keys, key)[k] < keys.len(),
    decreases keys.len(),
{
    if keys.len() > 0 {
        lemma_positions_bound(keys.drop_last(), key);
        let r = positions_of(keys.drop_last(), key);
        assert forall|k: int| 0 <= k < positions_of(keys, key).len() implies #[trigger] positions_of(keys, key)[k]
            < keys.len() by {
            if k < r.len() {
                assert(positions_of(keys, key)[k] == r[k]);
            }
        }
    }
}

/// The execution spans of a session: one per trace and task, in order of
/// start time, spans starting together in order of first appearance (see
/// `spans_spec` and `span_matches`).
pub fn collect_exec_spans(session_id: &str, events: &Vec<EventEnvelope>, reports: &Vec<ExecutionReport>) -> (r: Vec<
    ExecSpanRecord,
>)
    ensures
        r@.len() == spans_spec(events@).len(),
        forall|k: int|
            0 <= k < r@.len() ==> span_matches(#[trigger] r@[k], session_id@, events@, reports@, spans_spec(events@)[k]),
{
    let keys = span_key_list(events);
    let distinct = dedup_texts(&keys);
    proof {
        lemma_dedup_first(span_keys(events@));
    }
    let ghost dk = text_views(distinct@);
    let ghost sk = span_keys(events@);
    let mut groups: Vec<Vec<usize>> = Vec::new();
    let mut firsts: Vec<u64> = Vec::new();
    let mut t: usize = 0;
    while t < distinct.len()
        invariant
            t <= distinct@.len(),
            dk == text_views(distinct@),
            dk == dedup_first(sk),
            sk == span_keys(events@),
            sk.len() == events@.len(),
            forall|x: Seq<char>| dk.contains(x) <==> sk.contains(x),
            text_views(keys@) == sk,
            groups@.len() == t,
            firsts@.len() == t,
            forall|m: int| 0 <= m < t ==> (#[trigger] groups@[m])@ == positions_of(sk, dk[m]),
            forall|m: int| 0 <= m < t ==> (#[trigger] groups@[m])@.len() > 0,
            forall|m: int, j: int| 0 <= m < t && 0 <= j < groups@[m]@.len() ==> #[trigger] groups@[m]@[j] < events@.len(),
            forall|m: int| 0 <= m < t ==> #[trigger] firsts@[m] == earliest(events@, groups@[m]@),
        decreases distinct.len() - t,
    {
        let p = positions_exec(&keys, &distinct[t]);
        proof {
            assert(dk.contains(dk[t as int]));
            let w = choose|w: int| 0 <= w < sk.len() && sk[w] == dk[t as int];
            lemma_positions_nonempty(sk, dk[t as int], w);
        }
        let sp = span_of(session_id, events, reports, &p);
        firsts.push(sp.start_ms);
        groups.push(p);
        t = t + 1;
    }
    let ghost gs = event_groups(events@);
    assert(groups@.map_values(|v: Vec<usize>| v@) =~= gs);
    assert(firsts@ =~= gs.map_values(|g: Seq<usize>| earliest(events@, g)));
    let ghost group_seq = groups@;
    let ordered = sort_by_stamps(groups, firsts);
    proof {
        lemma_sorted_by_stamps_map(group_seq, gs.map_values(|g: Seq<usize>| earliest(events@, g)), |v: Vec<usize>| v@);
        lemma_sorted_by_stamps_elements(group_seq, gs.map_values(|g: Seq<usize>| earliest(events@, g)));
    }
    assert(ordered@.map_values(|v: Vec<usize>| v@) == spans_spec(events@));
    let mut out: Vec<ExecSpanRecord> = Vec::new();
    let mut k: usize = 0;
    while k < ordered.len()
        invariant
            k <= ordered@.len(),
            ordered@.map_values(|v: Vec<usize>| v@) == spans_spec(events@),
            forall|m: int| 0 <= m < ordered@.len() ==> group_seq.contains(#[trigger] ordered@[m]),
            forall|m: int| 0 <= m < group_seq.len() ==> (#[trigger] group_seq[m])@.len() > 0,
            forall|m: int, j: int| 0 <= m < group_seq.len() && 0 <= j < group_seq[m]@.len() ==> #[trigger] group_seq[m]@[j] < events@.len(),
            out@.len() == k,
            forall|m: int|
                0 <= m < k ==> span_matches(#[trigger] out@[m], session_id@, events@, reports@, spans_spec(events@)[m]),
        decreases ordered.len() - k,
    {
        assert(group_seq.contains(ordered@[k as int]));
        let ghost w = choose|w: int| 0 <= w < group_seq.len() && group_seq[w] == ordered@[k as int];
        assert(spans_spec(events@)[k as int] == ordered@[k as int]@);
        let sp = span_of(session_id, events, reports, &ordered[k]);
        out.push(sp);
        k = k + 1;
    }
    out
}

} // verus!
