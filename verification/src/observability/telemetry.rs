//! Telemetry derived from a session's spans and guard decisions: status
//! regressions between consecutive traces of a task, contradicting guard
//! decisions, and the trace each task's branch collapses to.
use vstd::prelude::*;

use crate::groups::{dedup_first, dedup_texts, positions_exec, positions_of, text_views};
use crate::observability::collector::{
    normalize_decision, normalize_decision_spec, status_rank, status_rank_spec, BranchCollapseRecord,
    ContradictionCaptureRecord, ExecSpanRecord, GuardHitRecord, RegressionCaptureRecord,
};
use crate::observability::business::string_views;
use crate::observability::signal::opt_view;
use crate::text::{chars_eq, chars_of, push_str, string_of};
use crate::timeline::{lemma_sorted_by_stamps_map, sort_by_stamps, sorted_by_stamps};

verus! {

pub open spec fn span_tasks(spans: Seq<ExecSpanRecord>) -> Seq<Seq<char>> {
    spans.map_values(|s: ExecSpanRecord| s.task_id@)
}

pub open spec fn end_stamps(spans: Seq<ExecSpanRecord>, idx: Seq<usize>) -> Seq<u64> {
    idx.map_values(|i: usize| spans[i as int].end_ms)
}

/// The spans of task `t`, by end time.
pub open spec fn task_spans_by_end(spans: Seq<ExecSpanRecord>, t: Seq<char>) -> Seq<usize> {
    let p = positions_of(span_tasks(spans), t);
    sorted_by_stamps(p, end_stamps(spans, p))
}

/// Consecutive spans (by position in `g`) whose status ranks lower than the one before.
pub open spec fn status_drops(spans: Seq<ExecSpanRecord>, g: Seq<usize>) -> Seq<(usize, usize)>
    decreases g.len(),
{
    if g.len() < 2 {
        Seq::empty()
    } else {
        let r = status_drops(spans, g.drop_last());
        let l = g[g.len() - 2];
        let x = g.last();
        if status_rank_spec(spans[x as int].status@) < status_rank_spec(spans[l as int].status@) {
            r.push((l, x))
        } else {
            r
        }
    }
}

/// The drops of every task, task by task in the order tasks first appear.
pub open spec fn drops_by_task(spans: Seq<ExecSpanRecord>, tasks: Seq<Seq<char>>) -> Seq<(usize, usize)>
    decreases tasks.len(),
{
    if tasks.len() == 0 {
        Seq::empty()
    } else {
        drops_by_task(spans, tasks.drop_last()) + status_drops(spans, task_spans_by_end(spans, tasks.last()))
    }
}

pub open spec fn pair_right_ends(spans: Seq<ExecSpanRecord>, ps: Seq<(usize, usize)>) -> Seq<u64> {
    ps.map_values(|p: (usize, usize)| spans[p.1 as int].end_ms)
}

/// The regressions of a session as pairs of span positions, by detection time.
pub open spec fn regressions_spec(spans: Seq<ExecSpanRecord>) -> Seq<(usize, usize)> {
    let all = drops_by_task(spans, dedup_first(span_tasks(spans)));
    sorted_by_stamps(all, pair_right_ends(spans, all))
}

/// The regression record of the step from span `l` to span `x`.
pub open spec fn regression_matches(
    r: RegressionCaptureRecord,
    session_id: Seq<char>,
    l: ExecSpanRecord,
    x: ExecSpanRecord,
) -> bool {
    &&& r.session_id@ == session_id
    &&& r.task_id@ == x.task_id@
    &&& r.previous_trace_id@ == l.trace_id@
    &&& r.current_trace_id@ == x.trace_id@
    &&& r.from_status@ == l.status@
    &&& r.to_status@ == x.status@
    &&& r.detected_at_ms == x.end_ms
}

fn text(s: &str) -> (r: String)
    ensures
        r@ == s@,
{
    string_of(&chars_of(s))
}

fn span_task_keys(spans: &Vec<ExecSpanRecord>) -> (r: Vec<Vec<char>>)
    ensures
        text_views(r@) == span_tasks(spans@),
{
    let mut out: Vec<Vec<char>> = Vec::new();
    let mut i: usize = 0;
    while i < spans.len()
        invariant
            i <= spans@.len(),
            text_views(out@) =~= span_tasks(spans@).take(i as int),
        decreases spans.len() - i,
    {
        let ghost o0 = text_views(out@);
        out.push(chars_of(spans[i].task_id.as_str()));
        assert(text_views(out@) =~= o0.push(spans@[i as int].task_id@));
        assert(span_tasks(spans@).take(i + 1) =~= span_tasks(spans@).take(i as int).push(spans@[i as int].task_id@));
        i = i + 1;
    }
    assert(span_tasks(spans@).take(spans@.len() as int) =~= span_tasks(spans@));
    out
}

fn ends_of(spans: &Vec<ExecSpanRecord>, idx: &Vec<usize>) -> (r: Vec<u64>)
    requires
        forall|k: int| 0 <= k < idx@.len() ==> #[trigger] idx@[k] < spans@.len(),
    ensures
        r@ == end_stamps(spans@, idx@),
{
    let mut out: Vec<u64> = Vec::new();
    let mut i: usize = 0;
    while i < idx.len()
        invariant
            i <= idx@.len(),
            forall|k: int| 0 <= k < idx@.len() ==> #[trigger] idx@[k] < spans@.len(),
            out@ =~= end_stamps(spans@, idx@).take(i as int),
        decreases idx.len() - i,
    {
        out.push(spans[idx[i]].end_ms);
        i = i + 1;
    }
    assert(end_stamps(spans@, idx@).take(idx@.len() as int) =~= end_stamps(spans@, idx@));
    out
}

proof fn lemma_sorted_positions_bound(p: Seq<usize>, stamps: Seq<u64>, n: nat)
    requires
        p.len() == stamps.len(),
        forall|k: int| 0 <= k < p.len() ==> #[trigger] p[k] < n,
    ensures
        sorted_by_stamps(p, stamps).len() == p.len(),
        forall|k: int| 0 <= k < p.len() ==> #[trigger] sorted_by_stamps(p, stamps)[k] < n,
{
    crate::timeline::lemma_sorted_by_stamps_elements(p, stamps);
    assert forall|k: int| 0 <= k < p.len() implies #[trigger] sorted_by_stamps(p, stamps)[k] < n by {
        let w = choose|w: int| 0 <= w < p.len() && p[w] == sorted_by_stamps(p, stamps)[k];
    }
}

/// The status drops along one task's spans sorted by end time.
fn drops_in(spans: &Vec<ExecSpanRecord>, g: &Vec<usize>) -> (r: Vec<(usize, usize)>)
    requires
        forall|k: int| 0 <= k < g@.len() ==> #[trigger] g@[k] < spans@.len(),
    ensures
        r@ == status_drops(spans@, g@),
        forall|k: int| 0 <= k < r@.len() ==> (#[trigger] r@[k]).0 < spans@.len() && r@[k].1 < spans@.len(),
{
    let mut out: Vec<(usize, usize)> = Vec::new();
    let mut i: usize = 1;
    if g.len() < 2 {
        return out;
    }
    assert(g@.take(1).len() < 2);
    while i < g.len()
        invariant
            1 <= i <= g@.len(),
            forall|k: int| 0 <= k < g@.len() ==> #[trigger] g@[k] < spans@.len(),
            out@ == status_drops(spans@, g@.take(i as int)),
            forall|k: int| 0 <= k < out@.len() ==> (#[trigger] out@[k]).0 < spans@.len() && out@[k].1 < spans@.len(),
        decreases g.len() - i,
    {
        let ghost gi = g@.take(i + 1);
        assert(gi.drop_last() =~= g@.take(i as int));
        assert(gi[gi.len() - 2] == g@[i - 1]);
        assert(gi.last() == g@[i as int]);
        let l = g[i - 1];
        let x = g[i];
        if status_rank(spans[x].status.as_str()) < status_rank(spans[l].status.as_str()) {
            out.push((l, x));
        }
        i = i + 1;
    }
    assert(g@.take(g@.len() as int) =~= g@);
    out
}

/// Steps from one trace of a task to the next (by end time) in which the
/// task's status got worse, by detection time (see `regressions_spec`).
pub fn collect_regressions(session_id: &str, spans: &Vec<ExecSpanRecord>) -> (r: Vec<RegressionCaptureRecord>)
    ensures
        r@.len() == regressions_spec(spans@).len(),
        forall|k: int|
            0 <= k < r@.len() ==> regression_matches(
                #[trigger] r@[k],
                session_id@,
                spans@[regressions_spec(spans@)[k].0 as int],
                spans@[regressions_spec(spans@)[k].1 as int],
            ),
{
    let keys = span_task_keys(spans);
    let tasks = dedup_texts(&keys);
    let mut all: Vec<(usize, usize)> = Vec::new();
    let mut t: usize = 0;
    while t < tasks.len()
        invariant
            t <= tasks@.len(),
            text_views(keys@) == span_tasks(spans@),
            all@ == drops_by_task(spans@, text_views(tasks@).take(t as int)),
            forall|k: int| 0 <= k < all@.len() ==> (#[trigger] all@[k]).0 < spans@.len() && all@[k].1 < spans@.len(),
        decreases tasks.len() - t,
    {
        assert(text_views(tasks@).take(t + 1).drop_last() =~= text_views(tasks@).take(t as int));
        assert(text_views(tasks@).take(t + 1).last() == tasks@[t as int]@);
        let p = positions_exec(&keys, &tasks[t]);
        let stamps = ends_of(spans, &p);
        let ghost pv = p@;
        proof {
            lemma_sorted_positions_bound(p@, stamps@, spans@.len());
        }
        let g = sort_by_stamps(p, stamps);
        let d = drops_in(spans, &g);
        let ghost a0 = all@;
        let mut dd = d;
        all.append(&mut dd);
        assert forall|k: int| 0 <= k < all@.len() implies (#[trigger] all@[k]).0 < spans@.len() && all@[k].1
            < spans@.len() by {
            if k >= a0.len() {
                assert(all@[k] == d@[k - a0.len()]);
            }
        }
        t = t + 1;
    }
    assert(text_views(tasks@).take(tasks@.len() as int) =~= text_views(tasks@));
    let mut stamps: Vec<u64> = Vec::new();
    let mut i: usize = 0;
    while i < all.len()
        invariant
            i <= all@.len(),
            forall|k: int| 0 <= k < all@.len() ==> (#[trigger] all@[k]).0 < spans@.len() && all@[k].1 < spans@.len(),
            stamps@ =~= pair_right_ends(spans@, all@).take(i as int),
        decreases all.len() - i,
    {
        stamps.push(spans[all[i].1].end_ms);
        i = i + 1;
    }
    assert(pair_right_ends(spans@, all@).take(all@.len() as int) =~= pair_right_ends(spans@, all@));
    let ghost all_seq = all@;
    let ordered = sort_by_stamps(all, stamps);
    proof {
        crate::timeline::lemma_sorted_by_stamps_elements(all_seq, stamps@);
    }
    let mut out: Vec<RegressionCaptureRecord> = Vec::new();
    let mut k: usize = 0;
    while k < ordered.len()
        invariant
            k <= ordered@.len(),
            ordered@ == regressions_spec(spans@),
            forall|m: int| 0 <= m < ordered@.len() ==> all_seq.contains(#[trigger] ordered@[m]),
            forall|m: int| 0 <= m < all_seq.len() ==> (#[trigger] all_seq[m]).0 < spans@.len() && all_seq[m].1 < spans@.len(),
            out@.len() == k,
            forall|m: int|
                0 <= m < k ==> regression_matches(
                    #[trigger] out@[m],
                    session_id@,
                    spans@[ordered@[m].0 as int],
                    spans@[ordered@[m].1 as int],
                ),
        decreases ordered.len() - k,
    {
        let (l, x) = ordered[k];
        assert(all_seq.contains(ordered@[k as int]));
        let ghost w = choose|w: int| 0 <= w < all_seq.len() && all_seq[w] == ordered@[k as int];
        let left = &spans[l];
        let right = &spans[x];
        out.push(
            RegressionCaptureRecord {
                session_id: text(session_id),
                task_id: right.task_id.clone(),
                previous_trace_id: left.trace_id.clone(),
                current_trace_id: right.trace_id.clone(),
                from_status: left.status.clone(),
                to_status: right.status.clone(),
                detected_at_ms: right.end_ms,
            },
        );
        k = k + 1;
    }
    out
}

// ---------------------------------------------------------------------------
// Contradicting guard decisions.
// ---------------------------------------------------------------------------

pub open spec fn capability_or_unknown(c: Option<String>) -> Seq<char> {
    match c {
        Some(x) => x@,
        None => "capability:unknown"@,
    }
}

/// The key guard decisions are compared under: task and capability.
pub open spec fn hit_key(h: GuardHitRecord) -> Seq<char> {
    h.task_id@ + "::"@ + capability_or_unknown(h.capability_id)
}

pub open spec fn hit_keys(hits: Seq<GuardHitRecord>) -> Seq<Seq<char>> {
    hits.map_values(|h: GuardHitRecord| hit_key(h))
}

pub open spec fn created_stamps(hits: Seq<GuardHitRecord>, idx: Seq<usize>) -> Seq<u64> {
    idx.map_values(|i: usize| hits[i as int].created_at_ms)
}

/// The hits of key `k`, by time.
pub open spec fn hits_by_time(hits: Seq<GuardHitRecord>, k: Seq<char>) -> Seq<usize> {
    let p = positions_of(hit_keys(hits), k);
    sorted_by_stamps(p, created_stamps(hits, p))
}

/// Consecutive hits (by position in `g`) whose normalised decisions differ.
pub open spec fn decision_flips(hits: Seq<GuardHitRecord>, g: Seq<usize>) -> Seq<(usize, usize)>
    decreases g.len(),
{
    if g.len() < 2 {
        Seq::empty()
    } else {
        let r = decision_flips(hits, g.drop_last());
        let l = g[g.len() - 2];
        let x = g.last();
        if normalize_decision_spec(hits[l as int].decision@) != normalize_decision_spec(hits[x as int].decision@) {
            r.push((l, x))
        } else {
            r
        }
    }
}

pub open spec fn flips_by_key(hits: Seq<GuardHitRecord>, keys: Seq<Seq<char>>) -> Seq<(usize, usize)>
    decreases keys.len(),
{
    if keys.len() == 0 {
        Seq::empty()
    } else {
        flips_by_key(hits, keys.drop_last()) + decision_flips(hits, hits_by_time(hits, keys.last()))
    }
}

pub open spec fn pair_right_times(hits: Seq<GuardHitRecord>, ps: Seq<(usize, usize)>) -> Seq<u64> {
    ps.map_values(|p: (usize, usize)| hits[p.1 as int].created_at_ms)
}

/// The contradictions of a session as pairs of hit positions, by detection time.
pub open spec fn contradictions_spec(hits: Seq<GuardHitRecord>) -> Seq<(usize, usize)> {
    let all = flips_by_key(hits, dedup_first(hit_keys(hits)));
    sorted_by_stamps(all, pair_right_times(hits, all))
}

/// The record of the contradiction between hit `l` and the later hit `x`.
pub open spec fn contradiction_matches(
    c: ContradictionCaptureRecord,
    session_id: Seq<char>,
    l: GuardHitRecord,
    x: GuardHitRecord,
) -> bool {
    &&& c.session_id@ == session_id
    &&& c.task_id@ == x.task_id@
    &&& opt_view(c.capability_id) == opt_view(x.capability_id)
    &&& c.left_decision@ == l.decision@
    &&& c.right_decision@ == x.decision@
    &&& c.left_trace_id@ == l.trace_id@
    &&& c.right_trace_id@ == x.trace_id@
    &&& c.detected_at_ms == x.created_at_ms
}

fn hit_key_list(hits: &Vec<GuardHitRecord>) -> (r: Vec<Vec<char>>)
    ensures
        text_views(r@) == hit_keys(hits@),
{
    let mut out: Vec<Vec<char>> = Vec::new();
    let mut i: usize = 0;
    while i < hits.len()
        invariant
            i <= hits@.len(),
            text_views(out@) =~= hit_keys(hits@).take(i as int),
        decreases hits.len() - i,
    {
        let h = &hits[i];
        let mut key = chars_of(h.task_id.as_str());
        push_str(&mut key, "::");
        match &h.capability_id {
            Some(c) => push_str(&mut key, c.as_str()),
            None => push_str(&mut key, "capability:unknown"),
        }
        let ghost o0 = text_views(out@);
        out.push(key);
        assert(text_views(out@) =~= o0.push(hit_key(hits@[i as int])));
        assert(hit_keys(hits@).take(i + 1) =~= hit_keys(hits@).take(i as int).push(hit_key(hits@[i as int])));
        i = i + 1;
    }
    assert(hit_keys(hits@).take(hits@.len() as int) =~= hit_keys(hits@));
    out
}

fn times_of(hits: &Vec<GuardHitRecord>, idx: &Vec<usize>) -> (r: Vec<u64>)
    requires
        forall|k: int| 0 <= k < idx@.len() ==> #[trigger] idx@[k] < hits@.len(),
    ensures
        r@ == created_stamps(hits@, idx@),
{
    let mut out: Vec<u64> = Vec::new();
    let mut i: usize = 0;
    while i < idx.len()
        invariant
            i <= idx@.len(),
            forall|k: int| 0 <= k < idx@.len() ==> #[trigger] idx@[k] < hits@.len(),
            out@ =~= created_stamps(hits@, idx@).take(i as int),
        decreases idx.len() - i,
    {
        out.push(hits[idx[i]].created_at_ms);
        i = i + 1;
    }
    assert(created_stamps(hits@, idx@).take(idx@.len() as int) =~= created_stamps(hits@, idx@));
    out
}

fn flips_in(hits: &Vec<GuardHitRecord>, g: &Vec<usize>) -> (r: Vec<(usize, usize)>)
    requires
        forall|k: int| 0 <= k < g@.len() ==> #[trigger] g@[k] < hits@.len(),
    ensures
        r@ == decision_flips(hits@, g@),
        forall|k: int| 0 <= k < r@.len() ==> (#[trigger] r@[k]).0 < hits@.len() && r@[k].1 < hits@.len(),
{
    let mut out: Vec<(usize, usize)> = Vec::new();
    let mut i: usize = 1;
    if g.len() < 2 {
        return out;
    }
    while i < g.len()
        invariant
            1 <= i <= g@.len(),
            forall|k: int| 0 <= k < g@.len() ==> #[trigger] g@[k] < hits@.len(),
            out@ == decision_flips(hits@, g@.take(i as int)),
            forall|k: int| 0 <= k < out@.len() ==> (#[trigger] out@[k]).0 < hits@.len() && out@[k].1 < hits@.len(),
        decreases g.len() - i,
    {
        let ghost gi = g@.take(i + 1);
        assert(gi.drop_last() =~= g@.take(i as int));
        assert(gi[gi.len() - 2] == g@[i - 1]);
        assert(gi.last() == g@[i as int]);
        let l = g[i - 1];
        let x = g[i];
        let dl = normalize_decision(hits[l].decision.as_str());
        let dx = normalize_decision(hits[x].decision.as_str());
        if !chars_eq(&chars_of(dl.as_str()), &chars_of(dx.as_str())) {
            out.push((l, x));
        }
        i = i + 1;
    }
    assert(g@.take(g@.len() as int) =~= g@);
    out
}

/// Consecutive guard decisions on the same task and capability (by time)
/// that disagree, by detection time (see `contradictions_spec`).
pub fn collect_contradictions(session_id: &str, hits: &Vec<GuardHitRecord>) -> (r: Vec<ContradictionCaptureRecord>)
    ensures
        r@.len() == contradictions_spec(hits@).len(),
        forall|k: int|
            0 <= k < r@.len() ==> contradiction_matches(
                #[trigger] r@[k],
                session_id@,
                hits@[contradictions_spec(hits@)[k].0 as int],
                hits@[contradictions_spec(hits@)[k].1 as int],
            ),
{
    let keys = hit_key_list(hits);
    let distinct = dedup_texts(&keys);
    let mut all: Vec<(usize, usize)> = Vec::new();
    let mut t: usize = 0;
    while t < distinct.len()
        invariant
            t <= distinct@.len(),
            text_views(keys@) == hit_keys(hits@),
            all@ == flips_by_key(hits@, text_views(distinct@).take(t as int)),
            forall|k: int| 0 <= k < all@.len() ==> (#[trigger] all@[k]).0 < hits@.len() && all@[k].1 < hits@.len(),
        decreases distinct.len() - t,
    {
        assert(text_views(distinct@).take(t + 1).drop_last() =~= text_views(distinct@).take(t as int));
        assert(text_views(distinct@).take(t + 1).last() == distinct@[t as int]@);
        let p = positions_exec(&keys, &distinct[t]);
        let stamps = times_of(hits, &p);
        proof {
            lemma_sorted_positions_bound(p@, stamps@, hits@.len());
        }
        let g = sort_by_stamps(p, stamps);
        let d = flips_in(hits, &g);
        let ghost a0 = all@;
        let mut dd = d;
        all.append(&mut dd);
        assert forall|k: int| 0 <= k < all@.len() implies (#[trigger] all@[k]).0 < hits@.len() && all@[k].1
            < hits@.len() by {
            if k >= a0.len() {
                assert(all@[k] == d@[k - a0.len()]);
            }
        }
        t = t + 1;
    }
    assert(text_views(distinct@).take(distinct@.len() as int) =~= text_views(distinct@));
    let mut stamps: Vec<u64> = Vec::new();
    let mut i: usize = 0;
    while i < all.len()
        invariant
            i <= all@.len(),
            forall|k: int| 0 <= k < all@.len() ==> (#[trigger] all@[k]).0 < hits@.len() && all@[k].1 < hits@.len(),
            stamps@ =~= pair_right_times(hits@, all@).take(i as int),
        decreases all.len() - i,
    {
        stamps.push(hits[all[i].1].created_at_ms);
        i = i + 1;
    }
    assert(pair_right_times(hits@, all@).take(all@.len() as int) =~= pair_right_times(hits@, all@));
    let ghost all_seq = all@;
    let ordered = sort_by_stamps(all, stamps);
    proof {
        crate::timeline::lemma_sorted_by_stamps_elements(all_seq, stamps@);
    }
    let mut out: Vec<ContradictionCaptureRecord> = Vec::new();
    let mut k: usize = 0;
    while k < ordered.len()
        invariant
            k <= ordered@.len(),
            ordered@ == contradictions_spec(hits@),
            forall|m: int| 0 <= m < ordered@.len() ==> all_seq.contains(#[trigger] ordered@[m]),
            forall|m: int| 0 <= m < all_seq.len() ==> (#[trigger] all_seq[m]).0 < hits@.len() && all_seq[m].1 < hits@.len(),
            out@.len() == k,
            forall|m: int|
                0 <= m < k ==> contradiction_matches(
                    #[trigger] out@[m],
                    session_id@,
                    hits@[ordered@[m].0 as int],
                    hits@[ordered@[m].1 as int],
                ),
        decreases ordered.len() - k,
    {
        let (l, x) = ordered[k];
        assert(all_seq.contains(ordered@[k as int]));
        let ghost w = choose|w: int| 0 <= w < all_seq.len() && all_seq[w] == ordered@[k as int];
        let left = &hits[l];
        let right = &hits[x];
        out.push(
            ContradictionCaptureRecord {
                session_id: text(session_id),
                task_id: right.task_id.clone(),
                capability_id: match &right.capability_id {
                    Some(c) => Some(c.clone()),
                    None => None,
                },
                left_decision: left.decision.clone(),
                right_decision: right.decision.clone(),
                left_trace_id: left.trace_id.clone(),
                right_trace_id: right.trace_id.clone(),
                detected_at_ms: right.created_at_ms,
            },
        );
        k = k + 1;
    }
    out
}

// ---------------------------------------------------------------------------
// Branch collapse.
// ---------------------------------------------------------------------------

pub open spec fn branch_key(session_id: Seq<char>, s: ExecSpanRecord) -> Seq<char> {
    "branch:"@ + session_id + ":"@ + s.task_id@
}

pub open spec fn branch_keys(session_id: Seq<char>, spans: Seq<ExecSpanRecord>) -> Seq<Seq<char>> {
    spans.map_values(|s: ExecSpanRecord| branch_key(session_id, s))
}

pub open spec fn start_stamps(spans: Seq<ExecSpanRecord>, idx: Seq<usize>) -> Seq<u64> {
    idx.map_values(|i: usize| spans[i as int].start_ms)
}

/// The spans of one branch, by start time.
pub open spec fn branch_spans(session_id: Seq<char>, spans: Seq<ExecSpanRecord>, k: Seq<char>) -> Seq<usize> {
    let p = positions_of(branch_keys(session_id, spans), k);
    sorted_by_stamps(p, start_stamps(spans, p))
}

/// `a` wins over `b` when picking a branch's trace: a higher status rank, or
/// the same rank and an end no earlier (the later of equals wins).
pub open spec fn wins_over(a: ExecSpanRecord, b: ExecSpanRecord) -> bool {
    status_rank_spec(a.status@) > status_rank_spec(b.status@) || (status_rank_spec(a.status@)
        == status_rank_spec(b.status@) && a.end_ms >= b.end_ms)
}

/// The span a branch collapses to.
pub open spec fn best_span(spans: Seq<ExecSpanRecord>, g: Seq<usize>) -> usize
    decreases g.len(),
{
    if g.len() <= 1 {
        g[0]
    } else {
        let b = best_span(spans, g.drop_last());
        if wins_over(spans[g.last() as int], spans[b as int]) {
            g.last()
        } else {
            b
        }
    }
}

pub open spec fn branch_groups(session_id: Seq<char>, spans: Seq<ExecSpanRecord>) -> Seq<Seq<usize>> {
    dedup_first(branch_keys(session_id, spans)).map_values(|k: Seq<char>| branch_spans(session_id, spans, k))
}

/// The branches of a session, as their spans by start time, by start time.
pub open spec fn collapse_spec(session_id: Seq<char>, spans: Seq<ExecSpanRecord>) -> Seq<Seq<usize>> {
    let gs = branch_groups(session_id, spans);
    sorted_by_stamps(gs, gs.map_values(|g: Seq<usize>| spans[g[0] as int].start_ms))
}

/// The collapse record of one branch's spans `g` (by start time).
pub open spec fn collapse_matches(
    c: BranchCollapseRecord,
    session_id: Seq<char>,
    spans: Seq<ExecSpanRecord>,
    g: Seq<usize>,
) -> bool {
    &&& c.session_id@ == session_id
    &&& c.branch_id@ == branch_key(session_id, spans[g[0] as int])
    &&& c.task_id@ == spans[g[0] as int].task_id@
    &&& string_views(c.candidate_trace_ids@) == g.map_values(|i: usize| spans[i as int].trace_id@)
    &&& c.selected_trace_id@ == spans[best_span(spans, g) as int].trace_id@
    &&& c.selected_status@ == spans[best_span(spans, g) as int].status@
    &&& c.start_ms == spans[g[0] as int].start_ms
    &&& c.end_ms == spans[g.last() as int].end_ms
}

fn branch_key_list(session_id: &str, spans: &Vec<ExecSpanRecord>) -> (r: Vec<Vec<char>>)
    ensures
        text_views(r@) == branch_keys(session_id@, spans@),
{
    let mut out: Vec<Vec<char>> = Vec::new();
    let mut i: usize = 0;
    while i < spans.len()
        invariant
            i <= spans@.len(),
            text_views(out@) =~= branch_keys(session_id@, spans@).take(i as int),
        decreases spans.len() - i,
    {
        let mut key = chars_of("branch:");
        push_str(&mut key, session_id);
        push_str(&mut key, ":");
        push_str(&mut key, spans[i].task_id.as_str());
        let ghost o0 = text_views(out@);
        out.push(key);
        assert(text_views(out@) =~= o0.push(branch_key(session_id@, spans@[i as int])));
        assert(branch_keys(session_id@, spans@).take(i + 1) =~= branch_keys(session_id@, spans@).take(i as int).push(
            branch_key(session_id@, spans@[i as int]),
        ));
        i = i + 1;
    }
    assert(branch_keys(session_id@, spans@).take(spans@.len() as int) =~= branch_keys(session_id@, spans@));
    out
}

fn starts_of(spans: &Vec<ExecSpanRecord>, idx: &Vec<usize>) -> (r: Vec<u64>)
    requires
        forall|k: int| 0 <= k < idx@.len() ==> #[trigger] idx@[k] < spans@.len(),
    ensures
        r@ == start_stamps(spans@, idx@),
{
    let mut out: Vec<u64> = Vec::new();
    let mut i: usize = 0;
    while i < idx.len()
        invariant
            i <= idx@.len(),
            forall|k: int| 0 <= k < idx@.len() ==> #[trigger] idx@[k] < spans@.len(),
            out@ =~= start_stamps(spans@, idx@).take(i as int),
        decreases idx.len() - i,
    {
        out.push(spans[idx[i]].start_ms);
        i = i + 1;
    }
    assert(start_stamps(spans@, idx@).take(idx@.len() as int) =~= start_stamps(spans@, idx@));
    out
}

fn best_in(spans: &Vec<ExecSpanRecord>, g: &Vec<usize>) -> (r: usize)
    requires
        g@.len() > 0,
        forall|k: int| 0 <= k < g@.len() ==> #[trigger] g@[k] < spans@.len(),
    ensures
        r == best_span(spans@, g@),
        r < spans@.len(),
{
    let mut best = g[0];
    let mut i: usize = 1;
    assert(g@.take(1) =~= seq![g@[0]]);
    while i < g.len()
        invariant
            1 <= i <= g@.len(),
            forall|k: int| 0 <= k < g@.len() ==> #[trigger] g@[k] < spans@.len(),
            best == best_span(spans@, g@.take(i as int)),
            best < spans@.len(),
        decreases g.len() - i,
    {
        assert(g@.take(i + 1).drop_last() =~= g@.take(i as int));
        assert(g@.take(i + 1).last() == g@[i as int]);
        let x = g[i];
        let rx = status_rank(spans[x].status.as_str());
        let rb = status_rank(spans[best].status.as_str());
        if rx > rb || (rx == rb && spans[x].end_ms >= spans[best].end_ms) {
            best = x;
        }
        i = i + 1;
    }
    assert(g@.take(g@.len() as int) =~= g@);
    best
}

/// For each task's branch, the trace it collapses to: the spans by start
/// time, the one with the highest status rank (latest end among equals)
/// selected; branches by start time (see `collapse_spec`).
pub fn collect_branch_collapse(session_id: &str, spans: &Vec<ExecSpanRecord>) -> (r: Vec<BranchCollapseRecord>)
    ensures
        r@.len() == collapse_spec(session_id@, spans@).len(),
        forall|k: int|
            0 <= k < r@.len() ==> collapse_matches(
                #[trigger] r@[k],
                session_id@,
                spans@,
                collapse_spec(session_id@, spans@)[k],
            ),
{
    let keys = branch_key_list(session_id, spans);
    let distinct = dedup_texts(&keys);
    proof {
        crate::groups::lemma_dedup_first(branch_keys(session_id@, spans@));
    }
    let ghost dk = text_views(distinct@);
    let mut groups: Vec<Vec<usize>> = Vec::new();
    let mut firsts: Vec<u64> = Vec::new();
    let mut t: usize = 0;
    while t < distinct.len()
        invariant
            t <= distinct@.len(),
            dk == text_views(distinct@),
            dk == dedup_first(branch_keys(session_id@, spans@)),
            forall|x: Seq<char>| dk.contains(x) <==> branch_keys(session_id@, spans@).contains(x),
            text_views(keys@) == branch_keys(session_id@, spans@),
            groups@.len() == t,
            firsts@.len() == t,
            forall|m: int| 0 <= m < t ==> (#[trigger] groups@[m])@ == branch_spans(session_id@, spans@, dk[m]),
            forall|m: int| 0 <= m < t ==> (#[trigger] groups@[m])@.len() > 0,
            forall|m: int, j: int| 0 <= m < t && 0 <= j < groups@[m]@.len() ==> #[trigger] groups@[m]@[j] < spans@.len(),
            forall|m: int| 0 <= m < t ==> #[trigger] firsts@[m] == spans@[groups@[m]@[0] as int].start_ms,
        decreases distinct.len() - t,
    {
        let p = positions_exec(&keys, &distinct[t]);
        proof {
            assert(dk.contains(dk[t as int]));
            let w = choose|w: int| 0 <= w < branch_keys(session_id@, spans@).len() && branch_keys(session_id@, spans@)[w] == dk[t as int];
            lemma_positions_nonempty(branch_keys(session_id@, spans@), dk[t as int], w);
        }
        let stamps = starts_of(spans, &p);
        proof {
            lemma_sorted_positions_bound(p@, stamps@, spans@.len());
        }
        let g = sort_by_stamps(p, stamps);
        firsts.push(spans[g[0]].start_ms);
        groups.push(g);
        t = t + 1;
    }
    let ghost gs = branch_groups(session_id@, spans@);
    assert(groups@.map_values(|v: Vec<usize>| v@) =~= gs);
    assert(firsts@ =~= gs.map_values(|g: Seq<usize>| spans@[g[0] as int].start_ms));
    let ghost group_seq = groups@;
    let ordered = sort_by_stamps(groups, firsts);
    proof {
        crate::timeline::lemma_sorted_by_stamps_map(group_seq, gs.map_values(|g: Seq<usize>| spans@[g[0] as int].start_ms), |v: Vec<usize>| v@);
        crate::timeline::lemma_sorted_by_stamps_elements(group_seq, gs.map_values(|g: Seq<usize>| spans@[g[0] as int].start_ms));
    }
    assert(ordered@.map_values(|v: Vec<usize>| v@) == collapse_spec(session_id@, spans@));
    let mut out: Vec<BranchCollapseRecord> = Vec::new();
    let mut k: usize = 0;
    while k < ordered.len()
        invariant
            k <= ordered@.len(),
            ordered@.map_values(|v: Vec<usize>| v@) == collapse_spec(session_id@, spans@),
            forall|m: int| 0 <= m < ordered@.len() ==> group_seq.contains(#[trigger] ordered@[m]),
            forall|m: int| 0 <= m < group_seq.len() ==> (#[trigger] group_seq[m])@.len() > 0,
            forall|m: int, j: int| 0 <= m < group_seq.len() && 0 <= j < group_seq[m]@.len() ==> #[trigger] group_seq[m]@[j] < spans@.len(),
            out@.len() == k,
            forall|m: int|
                0 <= m < k ==> collapse_matches(
                    #[trigger] out@[m],
                    session_id@,
                    spans@,
                    collapse_spec(session_id@, spans@)[m],
                ),
        decreases ordered.len() - k,
    {
        let g = &ordered[k];
        assert(group_seq.contains(ordered@[k as int]));
        let ghost w = choose|w: int| 0 <= w < group_seq.len() && group_seq[w] == ordered@[k as int];
        assert(collapse_spec(session_id@, spans@)[k as int] == g@);
        let first = g[0];
        let last = g[g.len() - 1];
        let best = best_in(spans, g);
        let mut candidates: Vec<String> = Vec::new();
        let mut j: usize = 0;
        while j < g.len()
            invariant
                j <= g@.len(),
                forall|q: int| 0 <= q < g@.len() ==> #[trigger] g@[q] < spans@.len(),
                string_views(candidates@) =~= g@.map_values(|i: usize| spans@[i as int].trace_id@).take(j as int),
            decreases g.len() - j,
        {
            let ghost c0 = string_views(candidates@);
            candidates.push(spans[g[j]].trace_id.clone());
            assert(string_views(candidates@) =~= c0.push(spans@[g@[j as int] as int].trace_id@));
            j = j + 1;
        }
        assert(g@.map_values(|i: usize| spans@[i as int].trace_id@).take(g@.len() as int) =~= g@.map_values(
            |i: usize| spans@[i as int].trace_id@,
        ));
        let mut branch = chars_of("branch:");
        push_str(&mut branch, session_id);
        push_str(&mut branch, ":");
        push_str(&mut branch, spans[first].task_id.as_str());
        out.push(
            BranchCollapseRecord {
                session_id: text(session_id),
                branch_id: string_of(&branch),
                task_id: spans[first].task_id.clone(),
                candidate_trace_ids: candidates,
                selected_trace_id: spans[best].trace_id.clone(),
                selected_status: spans[best].status.clone(),
                start_ms: spans[first].start_ms,
                end_ms: spans[last].end_ms,
            },
        );
        k = k + 1;
    }
    out
}

proof fn lemma_positions_nonempty(keys: Seq<Seq<char>>, key: Seq<char>, w: int)
    requires
        0 <= w < keys.len(),
        keys[w] == key,
    ensures
        positions_of(keys, key).len() > 0,
    decreases keys.len(),
{
    if w < keys.len() - 1 {
        lemma_positions_nonempty(keys.drop_last(), key, w);
    }
}

} // verus!
