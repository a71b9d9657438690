//! Explaining evolution shadow runs: the stored parts of each run grouped by
//! run key, and what they say about the trace, the chosen candidate, the
//! board's decision, why a path was rejected and when the run happened.
use vstd::prelude::*;

use crate::lexical::{sorted_distinct, strictly_sorted};
use crate::memory::facts::lemma_sorted_same_elements;
use crate::memory::json::{json_document, json_member, member_spec, parse_json_document, JsonValue};
use crate::observability::business::string_views;
use crate::observability::whitebox::{json_u64, json_u64_exec, sorted_texts, KnowledgeEntry};
use crate::text::{
    chars_eq, chars_eq_str, chars_of, contains, contains_exec, ends_with, ends_with_exec, find, find_exec,
    parse_unsigned, parse_unsigned_exec, push_str, starts_with, starts_with_exec, string_of,
};
use crate::timeline::{lemma_sorted_by_stamps_map, sort_by_stamps, sorted_by_stamps};

verus! {

// ---------------------------------------------------------------------------
// Keys.
// ---------------------------------------------------------------------------

/// The position of the last `:` of a key, -1 when it has none.
pub open spec fn last_colon(key: Seq<char>) -> int
    decreases key.len(),
{
    if key.len() == 0 {
        -1
    } else if key.last() == ':' {
        key.len() - 1
    } else {
        last_colon(key.drop_last())
    }
}

/// The run a key belongs to (what precedes its last `:`).
pub open spec fn run_of_key(key: Seq<char>) -> Seq<char> {
    key.take(last_colon(key))
}

/// The part of a run a key holds (what follows its last `:`).
pub open spec fn kind_of_key(key: Seq<char>) -> Seq<char> {
    key.skip(last_colon(key) + 1)
}

/// A stored entry takes part when its value is JSON, its key is not a
/// `:latest` key and has a `:`.
pub open spec fn takes_part(e: KnowledgeEntry) -> bool {
    &&& json_document(e.value@) is Some
    &&& !ends_with(e.key@, ":latest"@)
    &&& last_colon(e.key@) >= 0
}

/// The runs the entries name, in order, repeats kept.
pub open spec fn run_keys(es: Seq<KnowledgeEntry>) -> Seq<Seq<char>>
    decreases es.len(),
{
    if es.len() == 0 {
        Seq::empty()
    } else {
        let p = run_keys(es.drop_last());
        if takes_part(es.last()) {
            p.push(run_of_key(es.last().key@))
        } else {
            p
        }
    }
}

/// The value of the last entry holding `kind` of `run`.
pub open spec fn part_of(es: Seq<KnowledgeEntry>, run: Seq<char>, kind: Seq<char>) -> Option<JsonValue>
    decreases es.len(),
{
    if es.len() == 0 {
        None
    } else if takes_part(es.last()) && run_of_key(es.last().key@) == run && kind_of_key(es.last().key@) == kind {
        json_document(es.last().value@)
    } else {
        part_of(es.drop_last(), run, kind)
    }
}

proof fn lemma_last_colon(key: Seq<char>)
    ensures
        -1 <= last_colon(key) < key.len(),
        last_colon(key) >= 0 ==> key[last_colon(key)] == ':',
        forall|i: int| last_colon(key) < i < key.len() ==> key[i] != ':',
    decreases key.len(),
{
    if key.len() > 0 && key.last() != ':' {
        lemma_last_colon(key.drop_last());
        assert forall|i: int| last_colon(key) < i < key.len() implies key[i] != ':' by {
            if i < key.len() - 1 {
                assert(key.drop_last()[i] == key[i]);
            }
        }
    }
}

fn last_colon_exec(key: &Vec<char>) -> (r: Option<usize>)
    ensures
        r matches Some(p) ==> p as int == last_colon(key@) && p < key@.len(),
        r is None ==> last_colon(key@) == -1,
{
    proof {
        lemma_last_colon(key@);
    }
    let mut i: usize = key.len();
    while i > 0
        invariant
            i <= key@.len(),
            forall|j: int| i <= j < key@.len() ==> key@[j] != ':',
            -1 <= last_colon(key@) < key@.len(),
            last_colon(key@) >= 0 ==> key@[last_colon(key@)] == ':',
            forall|j: int| last_colon(key@) < j < key@.len() ==> key@[j] != ':',
        decreases i,
    {
        if key[i - 1] == ':' {
            return Some(i - 1);
        }
        i = i - 1;
    }
    None
}

fn takes_part_exec(e: &KnowledgeEntry) -> (r: Option<(Vec<char>, Vec<char>)>)
    ensures
        r matches Some(x) ==> takes_part(*e) && x.0@ == run_of_key(e.key@) && x.1@ == kind_of_key(e.key@),
        r is None ==> !takes_part(*e),
{
    let key = chars_of(e.key.as_str());
    if ends_with_exec(&key, &chars_of(":latest")) {
        return None;
    }
    let lc = last_colon_exec(&key);
    if lc.is_none() {
        return None;
    }
    let p = lc.unwrap();
    assert(p < key@.len());
    if parse_json_document(e.value.as_str()).is_none() {
        return None;
    }
    let run = crate::text::slice(&key, 0, p);
    let kind = crate::text::slice(&key, p + 1, key.len());
    assert(run@ =~= run_of_key(e.key@));
    assert(kind@ =~= kind_of_key(e.key@));
    Some((run, kind))
}

// ---------------------------------------------------------------------------
// Runs.
// ---------------------------------------------------------------------------

/// The stored parts of one evolution run.
#[derive(Debug)]
pub struct EvolutionRun {
    pub run_key: String,
    pub summary: Option<JsonValue>,
    pub board: Option<JsonValue>,
    pub candidate_graphs: Option<JsonValue>,
    pub worldline_scores: Option<JsonValue>,
    pub path_execution: Option<JsonValue>,
    pub next_gen_execution: Option<JsonValue>,
}

/// An evolution run as plain values.
pub struct RunView {
    pub run_key: Seq<char>,
    pub summary: Option<JsonValue>,
    pub board: Option<JsonValue>,
    pub candidate_graphs: Option<JsonValue>,
    pub worldline_scores: Option<JsonValue>,
    pub path_execution: Option<JsonValue>,
    pub next_gen_execution: Option<JsonValue>,
}

impl View for EvolutionRun {
    type V = RunView;

    open spec fn view(&self) -> RunView {
        RunView {
            run_key: self.run_key@,
            summary: self.summary,
            board: self.board,
            candidate_graphs: self.candidate_graphs,
            worldline_scores: self.worldline_scores,
            path_execution: self.path_execution,
            next_gen_execution: self.next_gen_execution,
        }
    }
}

/// The run of key `k` over the entries: each part the last stored for it.
pub open spec fn run_model(es: Seq<KnowledgeEntry>, k: Seq<char>) -> RunView {
    RunView {
        run_key: k,
        summary: part_of(es, k, "summary"@),
        board: part_of(es, k, "board"@),
        candidate_graphs: part_of(es, k, "candidate-graphs"@),
        worldline_scores: part_of(es, k, "worldline-scores"@),
        path_execution: part_of(es, k, "path-execution"@),
        next_gen_execution: part_of(es, k, "next-gen-execution"@),
    }
}

fn part_exec(es: &Vec<KnowledgeEntry>, run: &Vec<char>, kind: &str) -> (r: Option<JsonValue>)
    ensures
        r == part_of(es@, run@, kind@),
{
    let mut found: Option<usize> = None;
    let mut i: usize = 0;
    while i < es.len()
        invariant
            i <= es@.len(),
            found matches Some(k) ==> k < i && takes_part(es@[k as int]) && part_of(es@.take(i as int), run@, kind@)
                == json_document(es@[k as int].value@),
            found is None ==> part_of(es@.take(i as int), run@, kind@) is None,
        decreases es.len() - i,
    {
        assert(es@.take(i + 1).drop_last() =~= es@.take(i as int));
        assert(es@.take(i + 1).last() == es@[i as int]);
        match takes_part_exec(&es[i]) {
            Some((r, k)) => {
                if chars_eq(&r, run) && chars_eq_str(&k, kind) {
                    found = Some(i);
                }
            },
            None => {},
        }
        i = i + 1;
    }
    assert(es@.take(es@.len() as int) =~= es@);
    match found {
        Some(k) => parse_json_document(es[k].value.as_str()),
        None => None,
    }
}

fn run_of(es: &Vec<KnowledgeEntry>, key: &String) -> (r: EvolutionRun)
    ensures
        r@ == run_model(es@, key@),
{
    let k = chars_of(key.as_str());
    EvolutionRun {
        run_key: key.clone(),
        summary: part_exec(es, &k, "summary"),
        board: part_exec(es, &k, "board"),
        candidate_graphs: part_exec(es, &k, "candidate-graphs"),
        worldline_scores: part_exec(es, &k, "worldline-scores"),
        path_execution: part_exec(es, &k, "path-execution"),
        next_gen_execution: part_exec(es, &k, "next-gen-execution"),
    }
}

// ---------------------------------------------------------------------------
// What a run says.
// ---------------------------------------------------------------------------

/// `get(key)` on a part, a missing part reading as `{}`.
pub open spec fn at(o: Option<JsonValue>, key: Seq<char>) -> Option<JsonValue> {
    match o {
        Some(v) => member_spec(v, key),
        None => None,
    }
}

pub open spec fn as_text(o: Option<JsonValue>) -> Option<Seq<char>> {
    match o {
        Some(JsonValue::Text(s)) => Some(s@),
        _ => None,
    }
}

pub open spec fn first_item(o: Option<JsonValue>) -> Option<JsonValue> {
    match o {
        Some(JsonValue::Array(items)) => if items@.len() > 0 {
            Some(items@[0])
        } else {
            None
        },
        _ => None,
    }
}

pub open spec fn either(a: Option<JsonValue>, b: Option<JsonValue>) -> Option<JsonValue> {
    if a is Some {
        a
    } else {
        b
    }
}

/// The trace of a run: its summary's `reality.trace_id`.
pub open spec fn run_trace(r: RunView) -> Option<Seq<char>> {
    as_text(at(at(r.summary, "reality"@), "trace_id"@))
}

/// The board's decision: the summary's `board_decision`, else the board's `decision`.
pub open spec fn board_decision_spec(r: RunView) -> Option<JsonValue> {
    either(at(r.summary, "board_decision"@), at(r.board, "decision"@))
}

/// The candidate: the recommended candidate, else the first listed one.
pub open spec fn candidate_spec(r: RunView) -> Option<JsonValue> {
    either(
        at(at(r.summary, "recommendation"@), "recommended_candidate_id"@),
        at(first_item(at(r.summary, "candidates"@)), "candidate_id"@),
    )
}

/// Why the path was rejected: the path execution's `reason`, its runtime
/// gate's `reason` or `error`, or its `error`.
pub open spec fn reject_reason_spec(r: RunView) -> Option<JsonValue> {
    let gate = at(r.path_execution, "runtime_gate"@);
    either(
        at(r.path_execution, "reason"@),
        either(at(gate, "reason"@), either(at(gate, "error"@), at(r.path_execution, "error"@))),
    )
}

/// The texts among the summary's recommendation reasons, in order.
pub open spec fn text_reasons(r: RunView) -> Seq<Seq<char>> {
    match at(at(r.summary, "recommendation"@), "reasons"@) {
        Some(JsonValue::Array(items)) => texts_of(items@),
        _ => Seq::empty(),
    }
}

pub open spec fn texts_of(items: Seq<JsonValue>) -> Seq<Seq<char>>
    decreases items.len(),
{
    if items.len() == 0 {
        Seq::empty()
    } else {
        let p = texts_of(items.drop_last());
        match items.last() {
            JsonValue::Text(s) => p.push(s@),
            _ => p,
        }
    }
}

/// The first text with the prefix, the prefix removed.
pub open spec fn first_with_prefix(ts: Seq<Seq<char>>, prefix: Seq<char>) -> Option<Seq<char>>
    decreases ts.len(),
{
    if ts.len() == 0 {
        None
    } else {
        match first_with_prefix(ts.drop_last(), prefix) {
            Some(x) => Some(x),
            None => if starts_with(ts.last(), prefix) {
                Some(ts.last().skip(prefix.len() as int))
            } else {
                None
            },
        }
    }
}

/// The first text that contains `p`.
pub open spec fn first_containing(ts: Seq<Seq<char>>, p: Seq<char>) -> Option<Seq<char>>
    decreases ts.len(),
{
    if ts.len() == 0 {
        None
    } else {
        match first_containing(ts.drop_last(), p) {
            Some(x) => Some(x),
            None => if contains(ts.last(), p) {
                Some(ts.last())
            } else {
                None
            },
        }
    }
}

/// The first score item naming the candidate.
pub open spec fn score_for(items: Seq<JsonValue>, cid: Seq<char>) -> Option<JsonValue>
    decreases items.len(),
{
    if items.len() == 0 {
        None
    } else {
        match score_for(items.drop_last(), cid) {
            Some(x) => Some(x),
            None => if as_text(member_spec(items.last(), "candidate_id"@)) == Some(cid) {
                Some(items.last())
            } else {
                None
            },
        }
    }
}

/// Why the candidate leads: a `top_candidate_reason=` reason of the summary,
/// else the first reason of the candidate's worldline score, else
/// `reason=unavailable`.
pub open spec fn top_reason_spec(r: RunView) -> Seq<char> {
    match first_with_prefix(text_reasons(r), "top_candidate_reason="@) {
        Some(x) => x,
        None => {
            let from_scores = match as_text(candidate_spec(r)) {
                Some(cid) => match at(r.worldline_scores, "scores"@) {
                    Some(JsonValue::Array(items)) => match score_for(items@, cid) {
                        Some(item) => as_text(first_item(member_spec(item, "reasons"@))),
                        None => None,
                    },
                    _ => None,
                },
                None => None,
            };
            match from_scores {
                Some(x) => x,
                None => "reason=unavailable"@,
            }
        },
    }
}

/// The text before the first `;`.
pub open spec fn before_semicolon(s: Seq<char>) -> Seq<char> {
    match find(s, ";"@) {
        Some(p) => s.take(p),
        None => s,
    }
}

/// The weights version the first worldline score was computed with.
pub open spec fn weights_version_spec(r: RunView) -> Option<Seq<char>> {
    match as_text(first_item(at(first_item(at(r.worldline_scores, "scores"@)), "reasons"@))) {
        Some(reason) => {
            let head = before_semicolon(reason);
            if starts_with(head, "weights_version="@) {
                Some(head.skip(16))
            } else {
                None
            }
        },
        None => None,
    }
}

/// What explains a replay mismatch: a reason mentioning the mismatch rate,
/// else the reject reason when it is text.
pub open spec fn mismatch_spec(r: RunView) -> Option<Seq<char>> {
    match first_containing(text_reasons(r), "replay_mismatch_rate"@) {
        Some(x) => Some(x),
        None => match as_text(reject_reason_spec(r)) {
            Some(t) => Some("reject_reason="@ + t),
            None => None,
        },
    }
}

/// A JSON object's time: for each of `created_at_ms`, `updated_at_ms`,
/// `generated_at_ms`, `injected_at_ms`, `queued_at_ms` and `fired_at_ms` in
/// turn, the member itself, then the same member of its `value`.
pub open spec fn stamp_of(v: Option<JsonValue>, key: Seq<char>) -> Option<u64> {
    let own = match at(v, key) {
        Some(x) => json_u64(x),
        None => None,
    };
    if own is Some {
        own
    } else {
        match at(at(v, "value"@), key) {
            Some(x) => json_u64(x),
            None => None,
        }
    }
}

pub open spec fn first_u64(a: Option<u64>, b: Option<u64>) -> Option<u64> {
    if a is Some {
        a
    } else {
        b
    }
}

pub open spec fn json_ts(v: Option<JsonValue>) -> Option<u64> {
    first_u64(
        stamp_of(v, "created_at_ms"@),
        first_u64(
            stamp_of(v, "updated_at_ms"@),
            first_u64(
                stamp_of(v, "generated_at_ms"@),
                first_u64(stamp_of(v, "injected_at_ms"@), first_u64(stamp_of(v, "queued_at_ms"@), stamp_of(v, "fired_at_ms"@))),
            ),
        ),
    )
}

/// When a run happened: the number after the last `:` of its key, else the
/// time of its summary, else zero.
pub open spec fn created_spec(r: RunView) -> u64 {
    let tail = r.run_key.skip(last_colon(r.run_key) + 1);
    match parse_unsigned(tail, u64::MAX as nat) {
        Some(n) => n as u64,
        None => match json_ts(r.summary) {
            Some(t) => t,
            None => 0,
        },
    }
}

/// Whether a run is shown for the trace filter: its trace when it names one,
/// else whether its key contains the filter.
pub open spec fn shown(r: RunView, trace: Option<Seq<char>>) -> bool {
    match trace {
        None => true,
        Some(f) => match run_trace(r) {
            Some(t) => t == f,
            None => contains(r.run_key, f),
        },
    }
}

// ---------------------------------------------------------------------------
// Reading a run.
// ---------------------------------------------------------------------------

pub open spec fn deref_opt(o: Option<&JsonValue>) -> Option<JsonValue> {
    match o {
        Some(v) => Some(*v),
        None => None,
    }
}

fn part_ref(o: &Option<JsonValue>) -> (r: Option<&JsonValue>)
    ensures
        deref_opt(r) == *o,
{
    match o {
        Some(v) => Some(v),
        None => None,
    }
}

fn at_exec<'a>(o: Option<&'a JsonValue>, key: &str) -> (r: Option<&'a JsonValue>)
    ensures
        deref_opt(r) == at(deref_opt(o), key@),
{
    match o {
        Some(v) => json_member(v, key),
        None => None,
    }
}

fn text_of(o: Option<&JsonValue>) -> (r: Option<Vec<char>>)
    ensures
        match r {
            Some(t) => as_text(deref_opt(o)) == Some(t@),
            None => as_text(deref_opt(o)) is None,
        },
{
    match o {
        Some(JsonValue::Text(s)) => Some(chars_of(s.as_str())),
        _ => None,
    }
}

fn first_item_exec<'a>(o: Option<&'a JsonValue>) -> (r: Option<&'a JsonValue>)
    ensures
        deref_opt(r) == first_item(deref_opt(o)),
{
    match o {
        Some(JsonValue::Array(items)) => if items.len() > 0 {
            Some(&items[0])
        } else {
            None
        },
        _ => None,
    }
}

fn either_exec<'a>(a: Option<&'a JsonValue>, b: Option<&'a JsonValue>) -> (r: Option<&'a JsonValue>)
    ensures
        deref_opt(r) == either(deref_opt(a), deref_opt(b)),
{
    if a.is_some() {
        a
    } else {
        b
    }
}

fn string_opt(o: Option<Vec<char>>) -> (r: Option<String>)
    ensures
        match o {
            Some(t) => r matches Some(x) && x@ == t@,
            None => r is None,
        },
{
    match o {
        Some(t) => Some(string_of(&t)),
        None => None,
    }
}

/// The trace of a run (see `run_trace`).
pub fn evolution_trace(run: &EvolutionRun) -> (r: Option<String>)
    ensures
        match r {
            Some(t) => run_trace(run@) == Some(t@),
            None => run_trace(run@) is None,
        },
{
    string_opt(text_of(at_exec(at_exec(part_ref(&run.summary), "reality"), "trace_id")))
}

/// The board's decision (see `board_decision_spec`).
pub fn board_decision(run: &EvolutionRun) -> (r: Option<&JsonValue>)
    ensures
        deref_opt(r) == board_decision_spec(run@),
{
    either_exec(at_exec(part_ref(&run.summary), "board_decision"), at_exec(part_ref(&run.board), "decision"))
}

/// The chosen candidate (see `candidate_spec`).
pub fn evolution_candidate(run: &EvolutionRun) -> (r: Option<&JsonValue>)
    ensures
        deref_opt(r) == candidate_spec(run@),
{
    let summary = part_ref(&run.summary);
    either_exec(
        at_exec(at_exec(summary, "recommendation"), "recommended_candidate_id"),
        at_exec(first_item_exec(at_exec(summary, "candidates")), "candidate_id"),
    )
}

/// Why the path was rejected (see `reject_reason_spec`).
pub fn reject_reason(run: &EvolutionRun) -> (r: Option<&JsonValue>)
    ensures
        deref_opt(r) == reject_reason_spec(run@),
{
    let path = part_ref(&run.path_execution);
    let gate = at_exec(path, "runtime_gate");
    either_exec(
        at_exec(path, "reason"),
        either_exec(at_exec(gate, "reason"), either_exec(at_exec(gate, "error"), at_exec(path, "error"))),
    )
}

/// The summary's recommendation reasons, as stored.
pub fn recommendation_reasons(run: &EvolutionRun) -> (r: Option<&JsonValue>)
    ensures
        deref_opt(r) == at(at(run@.summary, "recommendation"@), "reasons"@),
{
    at_exec(at_exec(part_ref(&run.summary), "recommendation"), "reasons")
}

fn text_reasons_exec(run: &EvolutionRun) -> (r: Vec<Vec<char>>)
    ensures
        crate::groups::text_views(r@) == text_reasons(run@),
{
    let mut out: Vec<Vec<char>> = Vec::new();
    match recommendation_reasons(run) {
        Some(JsonValue::Array(items)) => {
            let mut i: usize = 0;
            while i < items.len()
                invariant
                    i <= items@.len(),
                    crate::groups::text_views(out@) == texts_of(items@.take(i as int)),
                decreases items.len() - i,
            {
                assert(items@.take(i + 1).drop_last() =~= items@.take(i as int));
                assert(items@.take(i + 1).last() == items@[i as int]);
                match &items[i] {
                    JsonValue::Text(t) => {
                        let ghost o0 = crate::groups::text_views(out@);
                        out.push(chars_of(t.as_str()));
                        assert(crate::groups::text_views(out@) =~= o0.push(t@));
                    },
                    _ => {},
                }
                i = i + 1;
            }
            assert(items@.take(items@.len() as int) =~= items@);
        },
        _ => {},
    }
    out
}

fn first_with_prefix_exec(ts: &Vec<Vec<char>>, prefix: &str) -> (r: Option<Vec<char>>)
    ensures
        match r {
            Some(x) => first_with_prefix(crate::groups::text_views(ts@), prefix@) == Some(x@),
            None => first_with_prefix(crate::groups::text_views(ts@), prefix@) is None,
        },
{
    let p = chars_of(prefix);
    let ghost tv = crate::groups::text_views(ts@);
    let mut i: usize = 0;
    while i < ts.len()
        invariant
            i <= ts@.len(),
            p@ == prefix@,
            tv == crate::groups::text_views(ts@),
            first_with_prefix(tv.take(i as int), prefix@) is None,
        decreases ts.len() - i,
    {
        assert(tv.take(i + 1).drop_last() =~= tv.take(i as int));
        assert(tv.take(i + 1).last() == ts@[i as int]@);
        if starts_with_exec(&ts[i], &p) {
            let rest = crate::text::slice(&ts[i], p.len(), ts[i].len());
            proof {
                lemma_first_with_prefix_prefix(tv, i as int + 1, prefix@);
            }
            assert(rest@ =~= ts@[i as int]@.skip(prefix@.len() as int));
            return Some(rest);
        }
        i = i + 1;
    }
    assert(tv.take(ts@.len() as int) =~= tv);
    None
}

proof fn lemma_first_with_prefix_prefix(ts: Seq<Seq<char>>, n: int, prefix: Seq<char>)
    requires
        0 <= n <= ts.len(),
        first_with_prefix(ts.take(n), prefix) is Some,
    ensures
        first_with_prefix(ts, prefix) == first_with_prefix(ts.take(n), prefix),
    decreases ts.len() - n,
{
    if n < ts.len() {
        assert(ts.drop_last().take(n) =~= ts.take(n));
        lemma_first_with_prefix_prefix(ts.drop_last(), n, prefix);
    } else {
        assert(ts.take(n) =~= ts);
    }
}

proof fn lemma_first_containing_prefix(ts: Seq<Seq<char>>, n: int, p: Seq<char>)
    requires
        0 <= n <= ts.len(),
        first_containing(ts.take(n), p) is Some,
    ensures
        first_containing(ts, p) == first_containing(ts.take(n), p),
    decreases ts.len() - n,
{
    if n < ts.len() {
        assert(ts.drop_last().take(n) =~= ts.take(n));
        lemma_first_containing_prefix(ts.drop_last(), n, p);
    } else {
        assert(ts.take(n) =~= ts);
    }
}

proof fn lemma_score_for_prefix(items: Seq<JsonValue>, n: int, cid: Seq<char>)
    requires
        0 <= n <= items.len(),
        score_for(items.take(n), cid) is Some,
    ensures
        score_for(items, cid) == score_for(items.take(n), cid),
    decreases items.len() - n,
{
    if n < items.len() {
        assert(items.drop_last().take(n) =~= items.take(n));
        lemma_score_for_prefix(items.drop_last(), n, cid);
    } else {
        assert(items.take(n) =~= items);
    }
}

fn first_containing_exec(ts: &Vec<Vec<char>>, needle: &str) -> (r: Option<Vec<char>>)
    ensures
        match r {
            Some(x) => first_containing(crate::groups::text_views(ts@), needle@) == Some(x@),
            None => first_containing(crate::groups::text_views(ts@), needle@) is None,
        },
{
    let p = chars_of(needle);
    let ghost tv = crate::groups::text_views(ts@);
    let mut i: usize = 0;
    while i < ts.len()
        invariant
            i <= ts@.len(),
            p@ == needle@,
            tv == crate::groups::text_views(ts@),
            first_containing(tv.take(i as int), needle@) is None,
        decreases ts.len() - i,
    {
        assert(tv.take(i + 1).drop_last() =~= tv.take(i as int));
        assert(tv.take(i + 1).last() == ts@[i as int]@);
        if contains_exec(&ts[i], &p) {
            proof {
                lemma_first_containing_prefix(tv, i as int + 1, needle@);
            }
            return Some(crate::text::slice(&ts[i], 0, ts[i].len()));
        }
        i = i + 1;
    }
    assert(tv.take(ts@.len() as int) =~= tv);
    None
}

fn score_for_exec<'a>(items: &'a Vec<JsonValue>, cid: &Vec<char>) -> (r: Option<&'a JsonValue>)
    ensures
        deref_opt(r) == score_for(items@, cid@),
{
    let mut i: usize = 0;
    while i < items.len()
        invariant
            i <= items@.len(),
            score_for(items@.take(i as int), cid@) is None,
        decreases items.len() - i,
    {
        assert(items@.take(i + 1).drop_last() =~= items@.take(i as int));
        assert(items@.take(i + 1).last() == items@[i as int]);
        match text_of(json_member(&items[i], "candidate_id")) {
            Some(t) => if chars_eq(&t, cid) {
                proof {
                    lemma_score_for_prefix(items@, i as int + 1, cid@);
                }
                return Some(&items[i]);
            },
            None => {},
        }
        i = i + 1;
    }
    assert(items@.take(items@.len() as int) =~= items@);
    None
}

/// Why the candidate leads (see `top_reason_spec`).
pub fn top_candidate_reason(run: &EvolutionRun) -> (r: String)
    ensures
        r@ == top_reason_spec(run@),
{
    let reasons = text_reasons_exec(run);
    match first_with_prefix_exec(&reasons, "top_candidate_reason=") {
        Some(x) => {
            return string_of(&x);
        },
        None => {},
    }
    let from_scores = match text_of(evolution_candidate(run)) {
        Some(cid) => match at_exec(part_ref(&run.worldline_scores), "scores") {
            Some(JsonValue::Array(items)) => match score_for_exec(items, &cid) {
                Some(item) => text_of(first_item_exec(json_member(item, "reasons"))),
                None => None,
            },
            _ => None,
        },
        None => None,
    };
    match from_scores {
        Some(x) => string_of(&x),
        None => string_of(&chars_of("reason=unavailable")),
    }
}

/// The weights version of the first worldline score (see `weights_version_spec`).
pub fn worldline_weights_version(run: &EvolutionRun) -> (r: Option<String>)
    ensures
        match r {
            Some(t) => weights_version_spec(run@) == Some(t@),
            None => weights_version_spec(run@) is None,
        },
{
    let reason = text_of(first_item_exec(at_exec(first_item_exec(at_exec(part_ref(&run.worldline_scores), "scores")), "reasons")));
    match reason {
        Some(t) => {
            proof {
                reveal_strlit(";");
                crate::text::lemma_find_from_props(t@, ";"@, 0);
            }
            let head = match find_exec(&t, &chars_of(";")) {
                Some(p) => crate::text::slice(&t, 0, p),
                None => crate::text::slice(&t, 0, t.len()),
            };
            assert(head@ =~= before_semicolon(t@));
            let prefix = chars_of("weights_version=");
            proof {
                reveal_strlit("weights_version=");
            }
            if starts_with_exec(&head, &prefix) {
                let rest = crate::text::slice(&head, 16, head.len());
                assert(rest@ =~= head@.skip(16));
                Some(string_of(&rest))
            } else {
                None
            }
        },
        None => None,
    }
}

/// What explains a replay mismatch (see `mismatch_spec`).
pub fn mismatch_explainer(run: &EvolutionRun) -> (r: Option<String>)
    ensures
        match r {
            Some(t) => mismatch_spec(run@) == Some(t@),
            None => mismatch_spec(run@) is None,
        },
{
    let reasons = text_reasons_exec(run);
    match first_containing_exec(&reasons, "replay_mismatch_rate") {
        Some(x) => Some(string_of(&x)),
        None => match text_of(reject_reason(run)) {
            Some(t) => {
                let mut out = chars_of("reject_reason=");
                crate::text::push_all(&mut out, &t);
                Some(string_of(&out))
            },
            None => None,
        },
    }
}

fn stamp_of_exec(v: Option<&JsonValue>, key: &str) -> (r: Option<u64>)
    ensures
        r == stamp_of(deref_opt(v), key@),
{
    let own = match at_exec(v, key) {
        Some(x) => json_u64_exec(x),
        None => None,
    };
    if own.is_some() {
        own
    } else {
        match at_exec(at_exec(v, "value"), key) {
            Some(x) => json_u64_exec(x),
            None => None,
        }
    }
}

/// A JSON object's time (see `json_ts`).
pub fn json_extract_ts(v: Option<&JsonValue>) -> (r: Option<u64>)
    ensures
        r == json_ts(deref_opt(v)),
{
    let a = stamp_of_exec(v, "created_at_ms");
    if a.is_some() {
        return a;
    }
    let b = stamp_of_exec(v, "updated_at_ms");
    if b.is_some() {
        return b;
    }
    let c = stamp_of_exec(v, "generated_at_ms");
    if c.is_some() {
        return c;
    }
    let d = stamp_of_exec(v, "injected_at_ms");
    if d.is_some() {
        return d;
    }
    let e = stamp_of_exec(v, "queued_at_ms");
    if e.is_some() {
        return e;
    }
    stamp_of_exec(v, "fired_at_ms")
}

/// When a run happened (see `created_spec`).
pub fn evolution_created_at(run: &EvolutionRun) -> (r: u64)
    ensures
        r == created_spec(run@),
{
    let key = chars_of(run.run_key.as_str());
    let start = match last_colon_exec(&key) {
        Some(p) => p + 1,
        None => 0,
    };
    let tail = crate::text::slice(&key, start, key.len());
    assert(tail@ =~= run@.run_key.skip(last_colon(run@.run_key) + 1));
    match parse_unsigned_exec(&tail, 18446744073709551615) {
        Some(n) => n,
        None => match json_extract_ts(part_ref(&run.summary)) {
            Some(t) => t,
            None => 0,
        },
    }
}

pub open spec fn opt_str(o: Option<&str>) -> Option<Seq<char>> {
    match o {
        Some(t) => Some(t@),
        None => None,
    }
}

fn shown_exec(run: &EvolutionRun, trace: Option<&str>) -> (r: bool)
    ensures
        r == shown(run@, opt_str(trace)),
{
    match trace {
        None => true,
        Some(f) => match evolution_trace(run) {
            Some(t) => chars_eq_str(&chars_of(t.as_str()), f),
            None => contains_exec(&chars_of(run.run_key.as_str()), &chars_of(f)),
        },
    }
}

// ---------------------------------------------------------------------------
// The explanation.
// ---------------------------------------------------------------------------

/// The runs shown for the filter, in order.
pub open spec fn shown_runs(rs: Seq<RunView>, trace: Option<Seq<char>>) -> Seq<RunView>
    decreases rs.len(),
{
    if rs.len() == 0 {
        Seq::empty()
    } else {
        let p = shown_runs(rs.drop_last(), trace);
        if shown(rs.last(), trace) {
            p.push(rs.last())
        } else {
            p
        }
    }
}

/// The runs of the stored entries, by run key, those the filter shows,
/// ordered by when they happened.
pub open spec fn explain_spec(es: Seq<KnowledgeEntry>, trace: Option<Seq<char>>) -> Seq<RunView> {
    let rs = shown_runs(sorted_texts(run_keys(es)).map_values(|k: Seq<char>| run_model(es, k)), trace);
    sorted_by_stamps(rs, rs.map_values(|r: RunView| created_spec(r)))
}

/// Groups the stored shadow-run entries into runs (see `run_model`), keeps
/// those of the trace asked for, and orders them by time (see
/// `explain_spec`); what each run says is read with the functions above.
pub fn collect_evolution_replay_explain(entries: &Vec<KnowledgeEntry>, trace_id: Option<&str>) -> (r: Vec<EvolutionRun>)
    ensures
        r@.map_values(|x: EvolutionRun| x@) == explain_spec(entries@, opt_str(trace_id)),
{
    let mut keys: Vec<String> = Vec::new();
    let mut i: usize = 0;
    while i < entries.len()
        invariant
            i <= entries@.len(),
            string_views(keys@) == run_keys(entries@.take(i as int)),
        decreases entries.len() - i,
    {
        assert(entries@.take(i + 1).drop_last() =~= entries@.take(i as int));
        assert(entries@.take(i + 1).last() == entries@[i as int]);
        match takes_part_exec(&entries[i]) {
            Some((run, _kind)) => {
                let ghost k0 = string_views(keys@);
                keys.push(string_of(&run));
                assert(string_views(keys@) =~= k0.push(run@));
            },
            None => {},
        }
        i = i + 1;
    }
    assert(entries@.take(entries@.len() as int) =~= entries@);
    let sorted = sorted_distinct(&keys);
    let ghost ks = sorted_texts(run_keys(entries@));
    proof {
        lemma_sorted_same_elements(string_views(sorted@), ks);
    }
    let ghost all = ks.map_values(|k: Seq<char>| run_model(entries@, k));
    let mut runs: Vec<EvolutionRun> = Vec::new();
    let mut stamps: Vec<u64> = Vec::new();
    let mut j: usize = 0;
    while j < sorted.len()
        invariant
            j <= sorted@.len(),
            string_views(sorted@) == ks,
            all == ks.map_values(|k: Seq<char>| run_model(entries@, k)),
            runs@.map_values(|x: EvolutionRun| x@) == shown_runs(all.take(j as int), opt_str(trace_id)),
            stamps@ == runs@.map_values(|x: EvolutionRun| x@).map_values(|r: RunView| created_spec(r)),
        decreases sorted.len() - j,
    {
        assert(all.take(j + 1).drop_last() =~= all.take(j as int));
        assert(all.take(j + 1).last() == run_model(entries@, sorted@[j as int]@));
        let run = run_of(entries, &sorted[j]);
        if shown_exec(&run, trace_id) {
            let ghost r0 = runs@.map_values(|x: EvolutionRun| x@);
            stamps.push(evolution_created_at(&run));
            runs.push(run);
            assert(runs@.map_values(|x: EvolutionRun| x@) =~= r0.push(runs@.last()@));
            assert(stamps@ =~= runs@.map_values(|x: EvolutionRun| x@).map_values(|r: RunView| created_spec(r)));
        }
        j = j + 1;
    }
    assert(all.take(sorted@.len() as int) =~= all);
    let ghost rs = runs@;
    let ordered = sort_by_stamps(runs, stamps);
    proof {
        lemma_sorted_by_stamps_map(rs, stamps@, |x: EvolutionRun| x@);
    }
    ordered
}

} // verus!
