//! Replay fingerprints: a digest of each trace's events, and, between
//! consecutive traces of a task whose digests differ, which aspects of the
//! traces differ.
use vstd::prelude::*;

use crate::groups::{dedup_first, dedup_texts, lemma_dedup_first, text_views};
use crate::lexical::{lemma_sorted_by_text_keys_map, sort_by_text_keys, sorted_by_text_keys};
use crate::memory::json::{json_text, json_text_of, JsonValue};
use crate::observability::collector::{
    digest_of_parts, digest_of_parts_spec, event_status, index_sequence, status_from_event, task_or_unknown,
    ReplayDiffLocatorRecord, ReplayFingerprintRecord,
};
use crate::observability::event_stream::{event_kinds, event_stamps, in_time_order, of_trace, EventEnvelope};
use crate::text::{chars_eq, chars_of, join, join_exec, push_all, push_str, string_of, views};
use crate::timeline::{lemma_sorted_by_stamps_map, sort_by_stamps, sorted_by_stamps};

verus! {

// ---------------------------------------------------------------------------
// The fingerprint of a trace.
// ---------------------------------------------------------------------------

pub open spec fn capability_or_unknown(c: Option<String>) -> Seq<char> {
    match c {
        Some(x) => x@,
        None => "capability:unknown"@,
    }
}

/// A payload member as `key=value`, the value as compact JSON.
pub open spec fn member_pair(m: (String, JsonValue)) -> Seq<char> {
    m.0@ + "="@ + json_text(m.1)
}

/// The members of an object payload as `key=value`; none for other payloads.
pub open spec fn payload_pairs(payload: JsonValue) -> Seq<Seq<char>> {
    match payload {
        JsonValue::Object(ms) => ms@.map_values(|m: (String, JsonValue)| member_pair(m)),
        _ => Seq::empty(),
    }
}

/// The payload's `key=value` pairs in text order, joined by commas.
pub open spec fn payload_text(payload: JsonValue) -> Seq<char> {
    let p = payload_pairs(payload);
    join(sorted_by_text_keys(p, p), ","@)
}

/// What one event adds to its trace's fingerprint.
pub open spec fn event_part(e: EventEnvelope) -> Seq<char> {
    e.kind@ + "|"@ + task_or_unknown(e.task_id) + "|"@ + capability_or_unknown(e.capability_id) + "|"@
        + e.version@ + "|"@ + payload_text(e.payload)
}

/// The fingerprint of a list of events: the digest of their parts.
pub open spec fn fingerprint_spec(events: Seq<EventEnvelope>) -> Seq<char> {
    digest_of_parts_spec(events.map_values(|e: EventEnvelope| event_part(e)))
}

fn payload_text_exec(payload: &JsonValue) -> (r: Vec<char>)
    ensures
        r@ == payload_text(*payload),
{
    match payload {
        JsonValue::Object(ms) => {
            let ghost pv = ms@.map_values(|m: (String, JsonValue)| member_pair(m));
            let mut items: Vec<Vec<char>> = Vec::new();
            let mut keys: Vec<Vec<char>> = Vec::new();
            let mut i: usize = 0;
            while i < ms.len()
                invariant
                    i <= ms@.len(),
                    pv == ms@.map_values(|m: (String, JsonValue)| member_pair(m)),
                    views(items@) =~= pv.take(i as int),
                    text_views(keys@) =~= pv.take(i as int),
                decreases ms.len() - i,
            {
                let mut a = chars_of(ms[i].0.as_str());
                push_str(&mut a, "=");
                let v = json_text_of(&ms[i].1);
                push_str(&mut a, v.as_str());
                let b = crate::text::slice(&a, 0, a.len());
                assert(b@ =~= a@);
                assert(a@ == pv[i as int]);
                let ghost i0 = views(items@);
                let ghost k0 = text_views(keys@);
                items.push(a);
                keys.push(b);
                assert(views(items@) =~= i0.push(pv[i as int]));
                assert(text_views(keys@) =~= k0.push(pv[i as int]));
                assert(pv.take(i + 1) =~= pv.take(i as int).push(pv[i as int]));
                i = i + 1;
            }
            assert(pv.take(ms@.len() as int) =~= pv);
            let ghost iv = items@;
            let ghost kv = text_views(keys@);
            let sorted = sort_by_text_keys(items, keys);
            proof {
                lemma_sorted_by_text_keys_map(iv, kv, |x: Vec<char>| x@);
                assert(iv.map_values(|x: Vec<char>| x@) =~= pv);
            }
            join_exec(&sorted, ",")
        },
        _ => {
            assert(sorted_by_text_keys(Seq::<Seq<char>>::empty(), Seq::<Seq<char>>::empty()).len() == 0) by {
                lemma_sorted_by_text_keys_map(Seq::<Seq<char>>::empty(), Seq::<Seq<char>>::empty(), |x: Seq<char>| x);
            }
            Vec::new()
        },
    }
}

fn event_part_exec(e: &EventEnvelope) -> (r: String)
    ensures
        r@ == event_part(*e),
{
    let mut out = chars_of(e.kind.as_str());
    push_str(&mut out, "|");
    match &e.task_id {
        Some(t) => push_str(&mut out, t.as_str()),
        None => push_str(&mut out, "task:unknown"),
    }
    push_str(&mut out, "|");
    match &e.capability_id {
        Some(c) => push_str(&mut out, c.as_str()),
        None => push_str(&mut out, "capability:unknown"),
    }
    push_str(&mut out, "|");
    push_str(&mut out, e.version.as_str());
    push_str(&mut out, "|");
    let p = payload_text_exec(&e.payload);
    push_all(&mut out, &p);
    string_of(&out)
}

/// The fingerprint of the events at positions `order`, in that order.
fn fingerprint_at(events: &Vec<EventEnvelope>, order: &Vec<usize>) -> (r: String)
    requires
        forall|k: int| 0 <= k < order@.len() ==> #[trigger] order@[k] < events@.len(),
    ensures
        r@ == fingerprint_spec(order@.map_values(|i: usize| events@[i as int])),
{
    let ghost run = order@.map_values(|i: usize| events@[i as int]);
    let ghost want = run.map_values(|e: EventEnvelope| event_part(e));
    let mut parts: Vec<String> = Vec::new();
    let mut k: usize = 0;
    while k < order.len()
        invariant
            k <= order@.len(),
            forall|m: int| 0 <= m < order@.len() ==> #[trigger] order@[m] < events@.len(),
            run == order@.map_values(|i: usize| events@[i as int]),
            want == run.map_values(|e: EventEnvelope| event_part(e)),
            parts@.map_values(|p: String| p@) =~= want.take(k as int),
        decreases order.len() - k,
    {
        let p = event_part_exec(&events[order[k]]);
        assert(p@ == want[k as int]);
        let ghost q0 = parts@.map_values(|p: String| p@);
        parts.push(p);
        assert(parts@.map_values(|p: String| p@) =~= q0.push(want[k as int]));
        assert(want.take(k + 1) =~= want.take(k as int).push(want[k as int]));
        k = k + 1;
    }
    assert(want.take(order@.len() as int) =~= want);
    digest_of_parts(&parts)
}

/// The fingerprint of a trace's events, in the order given: each event as
/// `kind|task|capability|version|payload` (the task and capability
/// `unknown` where missing, the payload's members as sorted `key=value`
/// pairs), digested together.
pub fn deterministic_trace_fingerprint(events: &Vec<EventEnvelope>) -> (r: String)
    ensures
        r@ == fingerprint_spec(events@),
{
    let order = all_positions(events);
    fingerprint_at(events, &order)
}

// ---------------------------------------------------------------------------
// The fingerprints of a session's traces.
// ---------------------------------------------------------------------------

/// A replay fingerprint record as plain values.
pub struct FingerprintView {
    pub session_id: Seq<char>,
    pub task_id: Seq<char>,
    pub trace_id: Seq<char>,
    pub fingerprint: Seq<char>,
    pub event_count: nat,
    pub generated_at_ms: u64,
}

impl View for ReplayFingerprintRecord {
    type V = FingerprintView;

    open spec fn view(&self) -> FingerprintView {
        FingerprintView {
            session_id: self.session_id@,
            task_id: self.task_id@,
            trace_id: self.trace_id@,
            fingerprint: self.deterministic_replay_fingerprint@,
            event_count: self.event_count as nat,
            generated_at_ms: self.generated_at_ms,
        }
    }
}

/// The distinct traces of the events, in the order they first appear.
pub open spec fn trace_ids(events: Seq<EventEnvelope>) -> Seq<Seq<char>> {
    dedup_first(events.map_values(|e: EventEnvelope| e.trace_id@))
}

/// The events of trace `t` in time order.
pub open spec fn trace_run(events: Seq<EventEnvelope>, t: Seq<char>) -> Seq<EventEnvelope> {
    in_time_order(of_trace(events, t))
}

/// The fingerprint record of trace `t`: the task of its first event, the
/// fingerprint and count of its events, the time of its last.
pub open spec fn fingerprint_view(session_id: Seq<char>, events: Seq<EventEnvelope>, t: Seq<char>) -> FingerprintView {
    let run = trace_run(events, t);
    FingerprintView {
        session_id,
        task_id: task_or_unknown(run[0].task_id),
        trace_id: t,
        fingerprint: fingerprint_spec(run),
        event_count: run.len(),
        generated_at_ms: run.last().created_at_ms,
    }
}

/// One fingerprint record per trace, ordered by when the trace ended, equal
/// times in the order the traces first appear.
pub open spec fn fingerprints_spec(session_id: Seq<char>, events: Seq<EventEnvelope>) -> Seq<FingerprintView> {
    let f = trace_ids(events).map_values(|t: Seq<char>| fingerprint_view(session_id, events, t));
    sorted_by_stamps(f, f.map_values(|x: FingerprintView| x.generated_at_ms))
}

proof fn lemma_of_trace_nonempty(events: Seq<EventEnvelope>, t: Seq<char>, i: int)
    requires
        0 <= i < events.len(),
        events[i].trace_id@ == t,
    ensures
        of_trace(events, t).len() > 0,
    decreases events.len(),
{
    if i < events.len() - 1 {
        lemma_of_trace_nonempty(events.drop_last(), t, i);
    }
}

proof fn lemma_of_trace_len(events: Seq<EventEnvelope>, t: Seq<char>)
    ensures
        of_trace(events, t).len() <= events.len(),
    decreases events.len(),
{
    if events.len() > 0 {
        lemma_of_trace_len(events.drop_last(), t);
    }
}

/// The positions of trace `t`'s events, in time order.
fn trace_order(events: &Vec<EventEnvelope>, t: &Vec<char>) -> (r: Vec<usize>)
    ensures
        r@.map_values(|i: usize| events@[i as int]) == trace_run(events@, t@),
        forall|k: int| 0 <= k < r@.len() ==> #[trigger] r@[k] < events@.len(),
{
    let mut pos: Vec<usize> = Vec::new();
    let mut stamps: Vec<u64> = Vec::new();
    let mut i: usize = 0;
    while i < events.len()
        invariant
            i <= events@.len(),
            pos@.map_values(|j: usize| events@[j as int]) == of_trace(events@.take(i as int), t@),
            stamps@ == pos@.map_values(|j: usize| events@[j as int].created_at_ms),
            forall|k: int| 0 <= k < pos@.len() ==> #[trigger] pos@[k] < i,
        decreases events.len() - i,
    {
        let ghost e1 = events@.take(i + 1);
        assert(e1.drop_last() =~= events@.take(i as int));
        assert(e1.last() == events@[i as int]);
        let tid = chars_of(events[i].trace_id.as_str());
        if chars_eq(&tid, t) {
            let ghost p0 = pos@;
            pos.push(i);
            stamps.push(events[i].created_at_ms);
            assert(pos@.map_values(|j: usize| events@[j as int]) =~= p0.map_values(|j: usize| events@[j as int]).push(
                events@[i as int],
            ));
            assert(stamps@ =~= pos@.map_values(|j: usize| events@[j as int].created_at_ms));
        }
        i = i + 1;
    }
    assert(events@.take(events@.len() as int) =~= events@);
    let ghost pv = pos@;
    let ghost f = |j: usize| events@[j as int];
    let sorted = sort_by_stamps(pos, stamps);
    proof {
        lemma_sorted_by_stamps_map(pv, stamps@, f);
        assert(stamps@ =~= event_stamps(pv.map_values(f)));
        crate::timeline::lemma_sorted_by_stamps_elements(pv, stamps@);
        assert forall|k: int| 0 <= k < sorted@.len() implies #[trigger] sorted@[k] < events@.len() by {
            assert(pv.contains(sorted@[k]));
        }
    }
    sorted
}

fn fingerprint_record(session_id: &str, events: &Vec<EventEnvelope>, t: &Vec<char>) -> (r: ReplayFingerprintRecord)
    requires
        of_trace(events@, t@).len() > 0,
    ensures
        r@ == fingerprint_view(session_id@, events@, t@),
{
    let order = trace_order(events, t);
    let ghost run = trace_run(events@, t@);
    proof {
        crate::timeline::lemma_sorted_by_stamps_elements(of_trace(events@, t@), event_stamps(of_trace(events@, t@)));
    }
    assert(order@.len() == run.len());
    let first = &events[order[0]];
    let last = &events[order[order.len() - 1]];
    assert(run[0] == *first);
    assert(run.last() == *last);
    let task = match &first.task_id {
        Some(x) => x.clone(),
        None => string_of(&chars_of("task:unknown")),
    };
    ReplayFingerprintRecord {
        session_id: string_of(&chars_of(session_id)),
        task_id: task,
        trace_id: string_of(t),
        deterministic_replay_fingerprint: fingerprint_at(events, &order),
        event_count: order.len(),
        generated_at_ms: last.created_at_ms,
    }
}

fn fingerprint_stamps(recs: &Vec<ReplayFingerprintRecord>) -> (r: Vec<u64>)
    ensures
        r@ == recs@.map_values(|x: ReplayFingerprintRecord| x@).map_values(|x: FingerprintView| x.generated_at_ms),
{
    let mut out: Vec<u64> = Vec::new();
    let mut i: usize = 0;
    while i < recs.len()
        invariant
            i <= recs@.len(),
            out@ =~= recs@.map_values(|x: ReplayFingerprintRecord| x@).map_values(
                |x: FingerprintView| x.generated_at_ms,
            ).take(i as int),
        decreases recs.len() - i,
    {
        out.push(recs[i].generated_at_ms);
        i = i + 1;
    }
    out
}

/// One replay fingerprint per trace of the session (see `fingerprints_spec`).
pub fn collect_replay_fingerprints(session_id: &str, events: &Vec<EventEnvelope>) -> (r: Vec<ReplayFingerprintRecord>)
    ensures
        r@.map_values(|x: ReplayFingerprintRecord| x@) == fingerprints_spec(session_id@, events@),
{
    let mut all: Vec<Vec<char>> = Vec::new();
    let mut i: usize = 0;
    while i < events.len()
        invariant
            i <= events@.len(),
            text_views(all@) =~= events@.map_values(|e: EventEnvelope| e.trace_id@).take(i as int),
        decreases events.len() - i,
    {
        let ghost a0 = text_views(all@);
        all.push(chars_of(events[i].trace_id.as_str()));
        assert(text_views(all@) =~= a0.push(events@[i as int].trace_id@));
        i = i + 1;
    }
    assert(events@.map_values(|e: EventEnvelope| e.trace_id@).take(events@.len() as int) =~= events@.map_values(
        |e: EventEnvelope| e.trace_id@,
    ));
    let ids = dedup_texts(&all);
    let ghost tids = trace_ids(events@);
    proof {
        lemma_dedup_first(events@.map_values(|e: EventEnvelope| e.trace_id@));
    }
    let ghost want = tids.map_values(|t: Seq<char>| fingerprint_view(session_id@, events@, t));
    let mut recs: Vec<ReplayFingerprintRecord> = Vec::new();
    let mut k: usize = 0;
    while k < ids.len()
        invariant
            k <= ids@.len(),
            text_views(ids@) == tids,
            tids == trace_ids(events@),
            forall|x: Seq<char>| tids.contains(x) <==> events@.map_values(|e: EventEnvelope| e.trace_id@).contains(x),
            want == tids.map_values(|t: Seq<char>| fingerprint_view(session_id@, events@, t)),
            recs@.map_values(|x: ReplayFingerprintRecord| x@) =~= want.take(k as int),
        decreases ids.len() - k,
    {
        let ghost t = tids[k as int];
        assert(ids@[k as int]@ == t);
        proof {
            assert(tids.contains(t));
            let ids_all = events@.map_values(|e: EventEnvelope| e.trace_id@);
            assert(ids_all.contains(t));
            let w = choose|w: int| 0 <= w < ids_all.len() && ids_all[w] == t;
            lemma_of_trace_nonempty(events@, t, w);
        }
        let rec = fingerprint_record(session_id, events, &ids[k]);
        let ghost r0 = recs@.map_values(|x: ReplayFingerprintRecord| x@);
        recs.push(rec);
        assert(recs@.map_values(|x: ReplayFingerprintRecord| x@) =~= r0.push(want[k as int]));
        assert(want.take(k + 1) =~= want.take(k as int).push(want[k as int]));
        k = k + 1;
    }
    assert(want.take(ids@.len() as int) =~= want);
    let stamps = fingerprint_stamps(&recs);
    let ghost rs = recs@;
    let sorted = sort_by_stamps(recs, stamps);
    proof {
        lemma_sorted_by_stamps_map(rs, stamps@, |x: ReplayFingerprintRecord| x@);
    }
    sorted
}


// ---------------------------------------------------------------------------
// Where two traces differ.
// ---------------------------------------------------------------------------

/// The capabilities the events name, in order.
pub open spec fn capabilities_of(es: Seq<EventEnvelope>) -> Seq<Seq<char>>
    decreases es.len(),
{
    if es.len() == 0 {
        Seq::empty()
    } else {
        let r = capabilities_of(es.drop_last());
        match es.last().capability_id {
            Some(c) => r.push(c@),
            None => r,
        }
    }
}

/// The status the last event puts its task in.
pub open spec fn terminal_status(es: Seq<EventEnvelope>) -> Option<Seq<char>> {
    if es.len() == 0 {
        None
    } else {
        Some(event_status(es.last()))
    }
}

pub open spec fn flag_if(differs: bool, name: Seq<char>) -> Seq<Seq<char>> {
    if differs {
        seq![name]
    } else {
        Seq::empty()
    }
}

/// Which aspects of two event lists differ: the sequence of kinds, the
/// sequence of capabilities, the number of events, the terminal status.
pub open spec fn mismatch_spec(b: Seq<EventEnvelope>, c: Seq<EventEnvelope>) -> Seq<Seq<char>> {
    flag_if(event_kinds(b) != event_kinds(c), "event_kind_sequence"@) + flag_if(
        capabilities_of(b) != capabilities_of(c),
        "capability_sequence"@,
    ) + flag_if(b.len() != c.len(), "event_count"@) + flag_if(
        terminal_status(b) != terminal_status(c),
        "terminal_status"@,
    )
}

/// The kinds of the events at positions `q`.
fn kinds_at(events: &Vec<EventEnvelope>, q: &Vec<usize>) -> (r: Vec<Vec<char>>)
    requires
        forall|k: int| 0 <= k < q@.len() ==> #[trigger] q@[k] < events@.len(),
    ensures
        text_views(r@) == event_kinds(q@.map_values(|i: usize| events@[i as int])),
{
    let ghost want = event_kinds(q@.map_values(|i: usize| events@[i as int]));
    let mut out: Vec<Vec<char>> = Vec::new();
    let mut k: usize = 0;
    while k < q.len()
        invariant
            k <= q@.len(),
            forall|m: int| 0 <= m < q@.len() ==> #[trigger] q@[m] < events@.len(),
            want == event_kinds(q@.map_values(|i: usize| events@[i as int])),
            text_views(out@) =~= want.take(k as int),
        decreases q.len() - k,
    {
        let ghost o0 = text_views(out@);
        out.push(chars_of(events[q[k]].kind.as_str()));
        assert(text_views(out@) =~= o0.push(want[k as int]));
        assert(want.take(k + 1) =~= want.take(k as int).push(want[k as int]));
        k = k + 1;
    }
    assert(want.take(q@.len() as int) =~= want);
    out
}

/// The capabilities named by the events at positions `q`.
fn capabilities_at(events: &Vec<EventEnvelope>, q: &Vec<usize>) -> (r: Vec<Vec<char>>)
    requires
        forall|k: int| 0 <= k < q@.len() ==> #[trigger] q@[k] < events@.len(),
    ensures
        text_views(r@) == capabilities_of(q@.map_values(|i: usize| events@[i as int])),
{
    let ghost run = q@.map_values(|i: usize| events@[i as int]);
    let mut out: Vec<Vec<char>> = Vec::new();
    let mut k: usize = 0;
    while k < q.len()
        invariant
            k <= q@.len(),
            forall|m: int| 0 <= m < q@.len() ==> #[trigger] q@[m] < events@.len(),
            run == q@.map_values(|i: usize| events@[i as int]),
            text_views(out@) == capabilities_of(run.take(k as int)),
        decreases q.len() - k,
    {
        let ghost r1 = run.take(k + 1);
        assert(r1.drop_last() =~= run.take(k as int));
        assert(r1.last() == events@[q@[k as int] as int]);
        match &events[q[k]].capability_id {
            Some(c) => {
                let ghost o0 = text_views(out@);
                out.push(chars_of(c.as_str()));
                assert(text_views(out@) =~= o0.push(c@));
            },
            None => {},
        }
        k = k + 1;
    }
    assert(run.take(q@.len() as int) =~= run);
    out
}

fn texts_eq(a: &Vec<Vec<char>>, b: &Vec<Vec<char>>) -> (r: bool)
    ensures
        r == (text_views(a@) == text_views(b@)),
{
    if a.len() != b.len() {
        assert(text_views(a@).len() != text_views(b@).len());
        return false;
    }
    let mut i: usize = 0;
    while i < a.len()
        invariant
            i <= a@.len(),
            a@.len() == b@.len(),
            forall|j: int| 0 <= j < i ==> a@[j]@ == b@[j]@,
        decreases a.len() - i,
    {
        if !chars_eq(&a[i], &b[i]) {
            assert(text_views(a@)[i as int] != text_views(b@)[i as int]);
            return false;
        }
        i = i + 1;
    }
    assert(text_views(a@) =~= text_views(b@));
    true
}

/// The terminal status of the events at positions `q`.
fn terminal_at(events: &Vec<EventEnvelope>, q: &Vec<usize>) -> (r: Option<String>)
    requires
        forall|k: int| 0 <= k < q@.len() ==> #[trigger] q@[k] < events@.len(),
    ensures
        crate::observability::signal::opt_view(r) == terminal_status(q@.map_values(|i: usize| events@[i as int])),
{
    if q.len() == 0 {
        None
    } else {
        Some(status_from_event(&events[q[q.len() - 1]]))
    }
}

fn opt_text_eq(a: &Option<String>, b: &Option<String>) -> (r: bool)
    ensures
        r == (crate::observability::signal::opt_view(*a) == crate::observability::signal::opt_view(*b)),
{
    match (a, b) {
        (Some(x), Some(y)) => {
            let u = chars_of(x.as_str());
            let v = chars_of(y.as_str());
            chars_eq(&u, &v)
        },
        (None, None) => true,
        _ => false,
    }
}

/// Which aspects of the events at `qb` in `eb` and at `qc` in `ec` differ.
fn mismatch_at(eb: &Vec<EventEnvelope>, qb: &Vec<usize>, ec: &Vec<EventEnvelope>, qc: &Vec<usize>) -> (r: Vec<String>)
    requires
        forall|k: int| 0 <= k < qb@.len() ==> #[trigger] qb@[k] < eb@.len(),
        forall|k: int| 0 <= k < qc@.len() ==> #[trigger] qc@[k] < ec@.len(),
    ensures
        r@.map_values(|s: String| s@) == mismatch_spec(
            qb@.map_values(|i: usize| eb@[i as int]),
            qc@.map_values(|i: usize| ec@[i as int]),
        ),
{
    let ghost b = qb@.map_values(|i: usize| eb@[i as int]);
    let ghost c = qc@.map_values(|i: usize| ec@[i as int]);
    let mut out: Vec<String> = Vec::new();
    let kb = kinds_at(eb, qb);
    let kc = kinds_at(ec, qc);
    if !texts_eq(&kb, &kc) {
        out.push(string_of(&chars_of("event_kind_sequence")));
    }
    assert(out@.map_values(|s: String| s@) =~= flag_if(event_kinds(b) != event_kinds(c), "event_kind_sequence"@));
    let ghost o1 = out@.map_values(|s: String| s@);
    let cb = capabilities_at(eb, qb);
    let cc = capabilities_at(ec, qc);
    if !texts_eq(&cb, &cc) {
        out.push(string_of(&chars_of("capability_sequence")));
    }
    assert(out@.map_values(|s: String| s@) =~= o1 + flag_if(
        capabilities_of(b) != capabilities_of(c),
        "capability_sequence"@,
    ));
    let ghost o2 = out@.map_values(|s: String| s@);
    if qb.len() != qc.len() {
        out.push(string_of(&chars_of("event_count")));
    }
    assert(out@.map_values(|s: String| s@) =~= o2 + flag_if(b.len() != c.len(), "event_count"@));
    let ghost o3 = out@.map_values(|s: String| s@);
    let tb = terminal_at(eb, qb);
    let tc = terminal_at(ec, qc);
    if !opt_text_eq(&tb, &tc) {
        out.push(string_of(&chars_of("terminal_status")));
    }
    assert(out@.map_values(|s: String| s@) =~= o3 + flag_if(
        terminal_status(b) != terminal_status(c),
        "terminal_status"@,
    ));
    out
}

/// The positions of all the events, in order.
fn all_positions(events: &Vec<EventEnvelope>) -> (r: Vec<usize>)
    ensures
        r@.map_values(|i: usize| events@[i as int]) == events@,
        forall|k: int| 0 <= k < r@.len() ==> #[trigger] r@[k] < events@.len(),
{
    let order = index_sequence(events.len());
    proof {
        assert forall|k: int| 0 <= k < order@.len() implies #[trigger] order@[k] < events@.len() by {
            assert(order@.map_values(|i: usize| i as int)[k] == k);
        }
        assert(order@.map_values(|i: usize| events@[i as int]) =~= events@) by {
            assert forall|k: int| 0 <= k < events@.len() implies order@[k] as int == k by {
                assert(order@.map_values(|i: usize| i as int)[k] == k);
            }
        }
    }
    order
}

/// Which aspects of a baseline and a candidate trace differ (see
/// `mismatch_spec`), in the order kinds, capabilities, count, terminal status.
pub fn infer_mismatch_fields(baseline: &Vec<EventEnvelope>, candidate: &Vec<EventEnvelope>) -> (r: Vec<String>)
    ensures
        r@.map_values(|s: String| s@) == mismatch_spec(baseline@, candidate@),
{
    let qb = all_positions(baseline);
    let qc = all_positions(candidate);
    mismatch_at(baseline, &qb, candidate, &qc)
}

// ---------------------------------------------------------------------------
// Diff locators.
// ---------------------------------------------------------------------------

/// A diff locator record as plain values.
pub struct LocatorView {
    pub session_id: Seq<char>,
    pub task_id: Seq<char>,
    pub baseline_trace_id: Seq<char>,
    pub candidate_trace_id: Seq<char>,
    pub baseline_fingerprint: Seq<char>,
    pub candidate_fingerprint: Seq<char>,
    pub mismatch_fields: Seq<Seq<char>>,
    pub located: bool,
}

impl View for ReplayDiffLocatorRecord {
    type V = LocatorView;

    open spec fn view(&self) -> LocatorView {
        LocatorView {
            session_id: self.session_id@,
            task_id: self.task_id@,
            baseline_trace_id: self.baseline_trace_id@,
            candidate_trace_id: self.candidate_trace_id@,
            baseline_fingerprint: self.baseline_fingerprint@,
            candidate_fingerprint: self.candidate_fingerprint@,
            mismatch_fields: self.mismatch_fields@.map_values(|s: String| s@),
            located: self.located,
        }
    }
}

/// The fingerprints of task `t`, in the order given.
pub open spec fn fingerprints_of_task(fps: Seq<FingerprintView>, t: Seq<char>) -> Seq<FingerprintView>
    decreases fps.len(),
{
    if fps.len() == 0 {
        Seq::empty()
    } else {
        let r = fingerprints_of_task(fps.drop_last(), t);
        if fps.last().task_id == t {
            r.push(fps.last())
        } else {
            r
        }
    }
}

/// The fingerprints of task `t` ordered by time, equal times in the order given.
pub open spec fn task_items(fps: Seq<FingerprintView>, t: Seq<char>) -> Seq<FingerprintView> {
    let f = fingerprints_of_task(fps, t);
    sorted_by_stamps(f, f.map_values(|x: FingerprintView| x.generated_at_ms))
}

/// The locator of a baseline and a candidate fingerprint of task `task`.
pub open spec fn locator(
    session_id: Seq<char>,
    events: Seq<EventEnvelope>,
    task: Seq<char>,
    b: FingerprintView,
    c: FingerprintView,
) -> LocatorView {
    let m = mismatch_spec(trace_run(events, b.trace_id), trace_run(events, c.trace_id));
    LocatorView {
        session_id,
        task_id: task,
        baseline_trace_id: b.trace_id,
        candidate_trace_id: c.trace_id,
        baseline_fingerprint: b.fingerprint,
        candidate_fingerprint: c.fingerprint,
        mismatch_fields: m,
        located: m.len() > 0,
    }
}

/// One locator per two consecutive items whose fingerprints differ.
pub open spec fn item_locators(
    session_id: Seq<char>,
    events: Seq<EventEnvelope>,
    task: Seq<char>,
    items: Seq<FingerprintView>,
) -> Seq<LocatorView>
    decreases items.len(),
{
    if items.len() < 2 {
        Seq::empty()
    } else {
        let prev = item_locators(session_id, events, task, items.drop_last());
        let b = items[items.len() - 2];
        let c = items.last();
        if b.fingerprint == c.fingerprint {
            prev
        } else {
            prev.push(locator(session_id, events, task, b, c))
        }
    }
}

/// The locators of the tasks `ts`, task after task.
pub open spec fn locators_for(
    session_id: Seq<char>,
    events: Seq<EventEnvelope>,
    fps: Seq<FingerprintView>,
    ts: Seq<Seq<char>>,
) -> Seq<LocatorView>
    decreases ts.len(),
{
    if ts.len() == 0 {
        Seq::empty()
    } else {
        locators_for(session_id, events, fps, ts.drop_last()) + item_locators(
            session_id,
            events,
            ts.last(),
            task_items(fps, ts.last()),
        )
    }
}

/// The locators of every task of the fingerprints, tasks in the order they
/// first appear.
pub open spec fn diff_locators_spec(
    session_id: Seq<char>,
    events: Seq<EventEnvelope>,
    fps: Seq<FingerprintView>,
) -> Seq<LocatorView> {
    locators_for(session_id, events, fps, dedup_first(fps.map_values(|x: FingerprintView| x.task_id)))
}

/// The positions of task `t`'s fingerprints, by time.
fn task_order(fps: &Vec<ReplayFingerprintRecord>, t: &Vec<char>) -> (r: Vec<usize>)
    ensures
        r@.map_values(|i: usize| fps@[i as int]@) == task_items(fps@.map_values(|x: ReplayFingerprintRecord| x@), t@),
        forall|k: int| 0 <= k < r@.len() ==> #[trigger] r@[k] < fps@.len(),
{
    let ghost fv = fps@.map_values(|x: ReplayFingerprintRecord| x@);
    let mut pos: Vec<usize> = Vec::new();
    let mut stamps: Vec<u64> = Vec::new();
    let mut i: usize = 0;
    while i < fps.len()
        invariant
            i <= fps@.len(),
            fv == fps@.map_values(|x: ReplayFingerprintRecord| x@),
            pos@.map_values(|j: usize| fv[j as int]) == fingerprints_of_task(fv.take(i as int), t@),
            stamps@ == pos@.map_values(|j: usize| fv[j as int].generated_at_ms),
            forall|k: int| 0 <= k < pos@.len() ==> #[trigger] pos@[k] < i,
        decreases fps.len() - i,
    {
        let ghost f1 = fv.take(i + 1);
        assert(f1.drop_last() =~= fv.take(i as int));
        assert(f1.last() == fv[i as int]);
        let tid = chars_of(fps[i].task_id.as_str());
        if chars_eq(&tid, t) {
            let ghost p0 = pos@;
            pos.push(i);
            stamps.push(fps[i].generated_at_ms);
            assert(pos@.map_values(|j: usize| fv[j as int]) =~= p0.map_values(|j: usize| fv[j as int]).push(
                fv[i as int],
            ));
            assert(stamps@ =~= pos@.map_values(|j: usize| fv[j as int].generated_at_ms));
        }
        i = i + 1;
    }
    assert(fv.take(fps@.len() as int) =~= fv);
    let ghost pv = pos@;
    let ghost f = |j: usize| fv[j as int];
    let sorted = sort_by_stamps(pos, stamps);
    proof {
        lemma_sorted_by_stamps_map(pv, stamps@, f);
        assert(stamps@ =~= pv.map_values(f).map_values(|x: FingerprintView| x.generated_at_ms));
        crate::timeline::lemma_sorted_by_stamps_elements(pv, stamps@);
        assert forall|k: int| 0 <= k < sorted@.len() implies #[trigger] sorted@[k] < fps@.len() by {
            assert(pv.contains(sorted@[k]));
        }
        assert(sorted@.map_values(|i: usize| fps@[i as int]@) =~= sorted@.map_values(f));
    }
    sorted
}

fn locator_record(
    session_id: &str,
    events: &Vec<EventEnvelope>,
    task: &Vec<char>,
    b: &ReplayFingerprintRecord,
    c: &ReplayFingerprintRecord,
) -> (r: ReplayDiffLocatorRecord)
    ensures
        r@ == locator(session_id@, events@, task@, b@, c@),
{
    let qb = trace_order(events, &chars_of(b.trace_id.as_str()));
    let qc = trace_order(events, &chars_of(c.trace_id.as_str()));
    let fields = mismatch_at(events, &qb, events, &qc);
    let located = fields.len() > 0;
    ReplayDiffLocatorRecord {
        session_id: string_of(&chars_of(session_id)),
        task_id: string_of(task),
        baseline_trace_id: b.trace_id.clone(),
        candidate_trace_id: c.trace_id.clone(),
        baseline_fingerprint: b.deterministic_replay_fingerprint.clone(),
        candidate_fingerprint: c.deterministic_replay_fingerprint.clone(),
        mismatch_fields: fields,
        located,
    }
}

/// The locators of one task.
fn task_locators(
    session_id: &str,
    events: &Vec<EventEnvelope>,
    fps: &Vec<ReplayFingerprintRecord>,
    task: &Vec<char>,
) -> (r: Vec<ReplayDiffLocatorRecord>)
    ensures
        r@.map_values(|x: ReplayDiffLocatorRecord| x@) == item_locators(
            session_id@,
            events@,
            task@,
            task_items(fps@.map_values(|x: ReplayFingerprintRecord| x@), task@),
        ),
{
    let q = task_order(fps, task);
    let ghost items = task_items(fps@.map_values(|x: ReplayFingerprintRecord| x@), task@);
    assert(q@.len() == items.len());
    let mut out: Vec<ReplayDiffLocatorRecord> = Vec::new();
    if q.len() < 2 {
        return out;
    }
    let mut j: usize = 1;
    assert(item_locators(session_id@, events@, task@, items.take(1)) =~= Seq::<LocatorView>::empty());
    while j < q.len()
        invariant
            1 <= j <= q@.len(),
            q@.map_values(|i: usize| fps@[i as int]@) == items,
            forall|k: int| 0 <= k < q@.len() ==> #[trigger] q@[k] < fps@.len(),
            out@.map_values(|x: ReplayDiffLocatorRecord| x@) == item_locators(
                session_id@,
                events@,
                task@,
                items.take(j as int),
            ),
        decreases q.len() - j,
    {
        let ghost t1 = items.take(j + 1);
        assert(t1.drop_last() =~= items.take(j as int));
        assert(t1[t1.len() - 2] == items[j - 1]);
        assert(t1.last() == items[j as int]);
        let b = &fps[q[j - 1]];
        let c = &fps[q[j]];
        let fb = chars_of(b.deterministic_replay_fingerprint.as_str());
        let fc = chars_of(c.deterministic_replay_fingerprint.as_str());
        if !chars_eq(&fb, &fc) {
            let ghost o0 = out@.map_values(|x: ReplayDiffLocatorRecord| x@);
            out.push(locator_record(session_id, events, task, b, c));
            assert(out@.map_values(|x: ReplayDiffLocatorRecord| x@) =~= o0.push(
                locator(session_id@, events@, task@, items[j - 1], items[j as int]),
            ));
        }
        j = j + 1;
    }
    assert(items.take(q@.len() as int) =~= items);
    out
}

/// Between consecutive fingerprints of each task (ordered by time) whose
/// digests differ, which aspects of their traces differ (see
/// `diff_locators_spec`); tasks in the order they first appear.
pub fn collect_replay_diff_locators(
    session_id: &str,
    events: &Vec<EventEnvelope>,
    replay_fingerprints: &Vec<ReplayFingerprintRecord>,
) -> (r: Vec<ReplayDiffLocatorRecord>)
    ensures
        r@.map_values(|x: ReplayDiffLocatorRecord| x@) == diff_locators_spec(
            session_id@,
            events@,
            replay_fingerprints@.map_values(|x: ReplayFingerprintRecord| x@),
        ),
{
    let ghost fv = replay_fingerprints@.map_values(|x: ReplayFingerprintRecord| x@);
    let mut all: Vec<Vec<char>> = Vec::new();
    let mut i: usize = 0;
    while i < replay_fingerprints.len()
        invariant
            i <= replay_fingerprints@.len(),
            fv == replay_fingerprints@.map_values(|x: ReplayFingerprintRecord| x@),
            text_views(all@) =~= fv.map_values(|x: FingerprintView| x.task_id).take(i as int),
        decreases replay_fingerprints.len() - i,
    {
        let ghost a0 = text_views(all@);
        all.push(chars_of(replay_fingerprints[i].task_id.as_str()));
        assert(text_views(all@) =~= a0.push(fv[i as int].task_id));
        i = i + 1;
    }
    assert(fv.map_values(|x: FingerprintView| x.task_id).take(replay_fingerprints@.len() as int) =~= fv.map_values(
        |x: FingerprintView| x.task_id,
    ));
    let tasks = dedup_texts(&all);
    let ghost ts = text_views(tasks@);
    let mut out: Vec<ReplayDiffLocatorRecord> = Vec::new();
    let mut k: usize = 0;
    while k < tasks.len()
        invariant
            k <= tasks@.len(),
            ts == text_views(tasks@),
            ts == dedup_first(fv.map_values(|x: FingerprintView| x.task_id)),
            fv == replay_fingerprints@.map_values(|x: ReplayFingerprintRecord| x@),
            out@.map_values(|x: ReplayDiffLocatorRecord| x@) == locators_for(session_id@, events@, fv, ts.take(k as int)),
        decreases tasks.len() - k,
    {
        let ghost t1 = ts.take(k + 1);
        assert(t1.drop_last() =~= ts.take(k as int));
        assert(t1.last() == tasks@[k as int]@);
        let ghost o0 = out@.map_values(|x: ReplayDiffLocatorRecord| x@);
        let mut part = task_locators(session_id, events, replay_fingerprints, &tasks[k]);
        let ghost pv = part@.map_values(|x: ReplayDiffLocatorRecord| x@);
        out.append(&mut part);
        assert(out@.map_values(|x: ReplayDiffLocatorRecord| x@) =~= o0 + pv);
        k = k + 1;
    }
    assert(ts.take(tasks@.len() as int) =~= ts);
    out
}

} // verus!
