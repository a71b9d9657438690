//! The white-box view of a session's harness rounds: for each trace, the last
//! patch, shell, test and git-checkpoint report, the stage evidence, and any
//! rollback they show, rounds ordered by when they last reported.
use vstd::prelude::*;

use crate::lexical::{lemma_sorted_by_text_keys_map, sort_by_text_keys, sorted_by_text_keys, sorted_distinct, strictly_sorted};
use crate::memory::facts::lemma_sorted_same_elements;
use crate::observability::business::string_views;
use crate::memory::json::{json_document, json_member, json_member_text, member_spec, member_text_spec, parse_json_document, JsonValue};
use crate::text::{chars_eq_str, chars_of, ends_with, ends_with_exec, parse_unsigned, parse_unsigned_exec};
use crate::timeline::{lemma_sorted_by_stamps_map, sort_by_stamps, sorted_by_stamps};

verus! {

/// A record of the state store as read: its key, its source and its value
/// (JSON where the stored text is JSON, else the text itself).
#[derive(Debug)]
pub struct StoreRecord {
    pub key: String,
    pub source: String,
    pub value: JsonValue,
}

/// A record of the state store as stored: the value is text.
#[derive(Debug)]
pub struct KnowledgeEntry {
    pub key: String,
    pub source: String,
    pub value: String,
}

/// The record an entry reads as.
pub open spec fn record_of(e: KnowledgeEntry) -> StoreRecord {
    StoreRecord {
        key: e.key,
        source: e.source,
        value: match json_document(e.value@) {
            Some(v) => v,
            None => JsonValue::Text(e.value),
        },
    }
}

pub open spec fn entry_keys(es: Seq<KnowledgeEntry>) -> Seq<Seq<char>> {
    es.map_values(|e: KnowledgeEntry| e.key@)
}

/// The first `limit` entries by key, read as records.
pub open spec fn records_spec(es: Seq<KnowledgeEntry>, limit: nat) -> Seq<StoreRecord> {
    let sorted = sorted_by_text_keys(es, entry_keys(es));
    let kept = if sorted.len() <= limit {
        sorted
    } else {
        sorted.take(limit as int)
    };
    kept.map_values(|e: KnowledgeEntry| record_of(e))
}

/// Orders entries by key, keeps the first `limit`, and reads each value as
/// JSON, keeping the text where it is not JSON.
pub fn collect_records_as_values(entries: Vec<KnowledgeEntry>, limit: usize) -> (r: Vec<StoreRecord>)
    ensures
        r@ == records_spec(entries@, limit as nat),
{
    let mut keys: Vec<Vec<char>> = Vec::new();
    let mut i: usize = 0;
    while i < entries.len()
        invariant
            i <= entries@.len(),
            crate::groups::text_views(keys@) =~= entry_keys(entries@).take(i as int),
        decreases entries.len() - i,
    {
        let ghost k0 = crate::groups::text_views(keys@);
        keys.push(chars_of(entries[i].key.as_str()));
        assert(crate::groups::text_views(keys@) =~= k0.push(entries@[i as int].key@));
        i = i + 1;
    }
    assert(entry_keys(entries@).take(entries@.len() as int) =~= entry_keys(entries@));
    assert(crate::groups::text_views(keys@).len() == keys@.len());
    let ghost es = entries@;
    let sorted = sort_by_text_keys(entries, keys);
    proof {
        lemma_sorted_by_text_keys_map(es, entry_keys(es), |e: KnowledgeEntry| e);
        assert(es.map_values(|e: KnowledgeEntry| e) =~= es);
    }
    let ghost ss = sorted@;
    let mut out: Vec<StoreRecord> = Vec::new();
    assert(ss.skip(0) =~= ss);
    let mut rest = sorted;
    let n = if rest.len() <= limit {
        rest.len()
    } else {
        limit
    };
    let mut k: usize = 0;
    while k < n
        invariant
            k <= n,
            n <= ss.len(),
            rest@ == ss.skip(k as int),
            out@ =~= ss.take(k as int).map_values(|e: KnowledgeEntry| record_of(e)),
        decreases n - k,
    {
        let e = rest.remove(0);
        assert(e == ss[k as int]);
        assert(rest@ =~= ss.skip(k + 1));
        let parsed = parse_json_document(e.value.as_str());
        let value = match parsed {
            Some(v) => v,
            None => JsonValue::Text(e.value),
        };
        let ghost o0 = out@;
        out.push(StoreRecord { key: e.key, source: e.source, value });
        assert(out@ =~= o0.push(record_of(ss[k as int])));
        assert(ss.take(k + 1).map_values(|e: KnowledgeEntry| record_of(e)) =~= ss.take(k as int).map_values(
            |e: KnowledgeEntry| record_of(e),
        ).push(record_of(ss[k as int])));
        k = k + 1;
    }
    assert(if ss.len() <= limit {
        ss
    } else {
        ss.take(limit as int)
    } =~= ss.take(n as int));
    out
}

// ---------------------------------------------------------------------------
// Record fields.
// ---------------------------------------------------------------------------

/// A JSON value read as `serde_json::Value::as_u64`: an unsigned integer
/// number that fits 64 bits (written as digits only).
pub open spec fn json_u64(v: JsonValue) -> Option<u64> {
    match v {
        JsonValue::Number(t) => if t@.len() > 0 && t@[0] != '+' {
            match parse_unsigned(t@, u64::MAX as nat) {
                Some(n) => Some(n as u64),
                None => None,
            }
        } else {
            None
        },
        _ => None,
    }
}

pub fn json_u64_exec(v: &JsonValue) -> (r: Option<u64>)
    ensures
        r == json_u64(*v),
{
    match v {
        JsonValue::Number(t) => {
            let c = chars_of(t.as_str());
            if c.len() > 0 && c[0] != '+' {
                parse_unsigned_exec(&c, 18446744073709551615)
            } else {
                None
            }
        },
        _ => None,
    }
}

/// The trace a record belongs to: its value's `trace_id` text.
pub open spec fn record_trace(r: StoreRecord) -> Option<Seq<char>> {
    member_text_spec(r.value, "trace_id"@)
}

pub open spec fn stamp_at(r: StoreRecord, key: Seq<char>) -> Option<u64> {
    match member_spec(r.value, key) {
        Some(x) => json_u64(x),
        None => None,
    }
}

pub open spec fn first_stamp(a: Option<u64>, b: Option<u64>) -> Option<u64> {
    if a is Some {
        a
    } else {
        b
    }
}

/// A record's time: the first of its value's `created_at_ms`,
/// `updated_at_ms`, `generated_at_ms`, `injected_at_ms`, `queued_at_ms` and
/// `fired_at_ms` that is an unsigned integer.
pub open spec fn record_ts(r: StoreRecord) -> Option<u64> {
    first_stamp(
        stamp_at(r, "created_at_ms"@),
        first_stamp(
            stamp_at(r, "updated_at_ms"@),
            first_stamp(
                stamp_at(r, "generated_at_ms"@),
                first_stamp(stamp_at(r, "injected_at_ms"@), first_stamp(stamp_at(r, "queued_at_ms"@), stamp_at(r, "fired_at_ms"@))),
            ),
        ),
    )
}

pub open spec fn ts_or_zero(r: StoreRecord) -> u64 {
    match record_ts(r) {
        Some(t) => t,
        None => 0,
    }
}

fn text_member<'a>(v: &'a JsonValue, key: &str) -> (r: Option<&'a String>)
    ensures
        r matches Some(s) ==> member_text_spec(*v, key@) == Some(s@),
        r is None ==> member_text_spec(*v, key@) is None,
{
    match json_member(v, key) {
        Some(JsonValue::Text(s)) => Some(s),
        _ => None,
    }
}

fn stamp_at_exec(r: &StoreRecord, key: &str) -> (t: Option<u64>)
    ensures
        t == stamp_at(*r, key@),
{
    match json_member(&r.value, key) {
        Some(x) => json_u64_exec(x),
        None => None,
    }
}

/// A record's time (see `record_ts`).
pub fn extract_ts(r: &StoreRecord) -> (t: Option<u64>)
    ensures
        t == record_ts(*r),
{
    let a = stamp_at_exec(r, "created_at_ms");
    if a.is_some() {
        return a;
    }
    let b = stamp_at_exec(r, "updated_at_ms");
    if b.is_some() {
        return b;
    }
    let c = stamp_at_exec(r, "generated_at_ms");
    if c.is_some() {
        return c;
    }
    let d = stamp_at_exec(r, "injected_at_ms");
    if d.is_some() {
        return d;
    }
    let e = stamp_at_exec(r, "queued_at_ms");
    if e.is_some() {
        return e;
    }
    stamp_at_exec(r, "fired_at_ms")
}

/// Whether a record belongs to the trace.
pub fn trace_matches(r: &StoreRecord, trace_id: &str) -> (b: bool)
    ensures
        b == (record_trace(*r) == Some(trace_id@)),
{
    match text_member(&r.value, "trace_id") {
        Some(t) => {
            let c = chars_of(t.as_str());
            chars_eq_str(&c, trace_id)
        },
        None => false,
    }
}

// ---------------------------------------------------------------------------
// Filtering and ordering the reports.
// ---------------------------------------------------------------------------

pub open spec fn opt_str(o: Option<&str>) -> Option<Seq<char>> {
    match o {
        Some(t) => Some(t@),
        None => None,
    }
}

pub open spec fn trace_ok(r: StoreRecord, trace: Option<Seq<char>>) -> bool {
    match trace {
        Some(t) => record_trace(r) == Some(t),
        None => true,
    }
}

/// The harness stages whose evidence the view shows.
pub open spec fn harness_stage(stage: Seq<char>) -> bool {
    stage == "diff_patch_engine"@ || stage == "diff_patch_engine_revert"@ || stage == "shell_execution_loop"@
        || stage == "test_verifier"@ || stage == "git_checkpoint_layer"@
}

/// Which records a list keeps: reports not under a `:latest` key, evidence
/// of a harness stage; in either case of the trace asked for, if any.
pub open spec fn keeps(r: StoreRecord, evidence: bool, trace: Option<Seq<char>>) -> bool {
    &&& if evidence {
        harness_stage(
            match member_text_spec(r.value, "stage"@) {
                Some(s) => s,
                None => Seq::empty(),
            },
        )
    } else {
        !ends_with(r.key@, ":latest"@)
    }
    &&& trace_ok(r, trace)
}

pub open spec fn kept(rs: Seq<StoreRecord>, evidence: bool, trace: Option<Seq<char>>) -> Seq<StoreRecord>
    decreases rs.len(),
{
    if rs.len() == 0 {
        Seq::empty()
    } else {
        let p = kept(rs.drop_last(), evidence, trace);
        if keeps(rs.last(), evidence, trace) {
            p.push(rs.last())
        } else {
            p
        }
    }
}

/// The kept records by time (records without one count as time zero).
pub open spec fn ordered_records(rs: Seq<StoreRecord>, evidence: bool, trace: Option<Seq<char>>) -> Seq<StoreRecord> {
    let k = kept(rs, evidence, trace);
    sorted_by_stamps(k, k.map_values(|r: StoreRecord| ts_or_zero(r)))
}

fn keeps_exec(r: &StoreRecord, evidence: bool, trace: Option<&str>) -> (b: bool)
    ensures
        b == keeps(*r, evidence, opt_str(trace)),
{
    let first = if evidence {
        let stage = match text_member(&r.value, "stage") {
            Some(s) => chars_of(s.as_str()),
            None => Vec::new(),
        };
        chars_eq_str(&stage, "diff_patch_engine") || chars_eq_str(&stage, "diff_patch_engine_revert")
            || chars_eq_str(&stage, "shell_execution_loop") || chars_eq_str(&stage, "test_verifier")
            || chars_eq_str(&stage, "git_checkpoint_layer")
    } else {
        let key = chars_of(r.key.as_str());
        !ends_with_exec(&key, &chars_of(":latest"))
    };
    if !first {
        return false;
    }
    match trace {
        Some(t) => trace_matches(r, t),
        None => true,
    }
}

/// Keeps the records asked for (see `keeps`) and orders them by time.
pub fn order_records(records: Vec<StoreRecord>, evidence: bool, trace: Option<&str>) -> (r: Vec<StoreRecord>)
    ensures
        r@ == ordered_records(records@, evidence, opt_str(trace)),
{
    let ghost rs = records@;
    let mut rest = records;
    let mut out: Vec<StoreRecord> = Vec::new();
    let mut stamps: Vec<u64> = Vec::new();
    let mut k: usize = 0;
    let n = rest.len();
    assert(rs.skip(0) =~= rs);
    while k < n
        invariant
            k <= n,
            n == rs.len(),
            rest@ == rs.skip(k as int),
            out@ == kept(rs.take(k as int), evidence, opt_str(trace)),
            stamps@ == out@.map_values(|r: StoreRecord| ts_or_zero(r)),
        decreases n - k,
    {
        let x = rest.remove(0);
        assert(x == rs[k as int]);
        assert(rest@ =~= rs.skip(k + 1));
        assert(rs.take(k + 1).drop_last() =~= rs.take(k as int));
        if keeps_exec(&x, evidence, trace) {
            let t = match extract_ts(&x) {
                Some(t) => t,
                None => 0,
            };
            let ghost o0 = out@;
            out.push(x);
            stamps.push(t);
            assert(stamps@ =~= out@.map_values(|r: StoreRecord| ts_or_zero(r)));
        }
        k = k + 1;
    }
    assert(rs.take(n as int) =~= rs);
    sort_by_stamps(out, stamps)
}

// ---------------------------------------------------------------------------
// Rounds.
// ---------------------------------------------------------------------------

/// The traces the records name, in order.
pub open spec fn traces_of(rs: Seq<StoreRecord>) -> Seq<Seq<char>>
    decreases rs.len(),
{
    if rs.len() == 0 {
        Seq::empty()
    } else {
        let p = traces_of(rs.drop_last());
        match record_trace(rs.last()) {
            Some(t) => p.push(t),
            None => p,
        }
    }
}

/// The distinct texts of a list, sorted.
pub open spec fn sorted_texts(all: Seq<Seq<char>>) -> Seq<Seq<char>> {
    choose|s: Seq<Seq<char>>| strictly_sorted(s) && forall|t: Seq<char>| s.contains(t) <==> all.contains(t)
}

/// The position of the last record of the trace.
pub open spec fn last_of_trace(rs: Seq<StoreRecord>, t: Seq<char>) -> Option<usize>
    decreases rs.len(),
{
    if rs.len() == 0 {
        None
    } else if record_trace(rs.last()) == Some(t) {
        Some((rs.len() - 1) as usize)
    } else {
        last_of_trace(rs.drop_last(), t)
    }
}

/// The positions of the records of the trace, in order.
pub open spec fn positions_of_trace(rs: Seq<StoreRecord>, t: Seq<char>) -> Seq<usize>
    decreases rs.len(),
{
    if rs.len() == 0 {
        Seq::empty()
    } else {
        let p = positions_of_trace(rs.drop_last(), t);
        if record_trace(rs.last()) == Some(t) {
            p.push((rs.len() - 1) as usize)
        } else {
            p
        }
    }
}

/// A patch report shows a rollback when its value's `rollback_performed` is `true`.
pub open spec fn patch_rolled_back(r: StoreRecord) -> bool {
    member_spec(r.value, "rollback_performed"@) == Some(JsonValue::Bool(true))
}

/// A git checkpoint shows a rollback when one of its `steps` has the action `rollback`.
pub open spec fn git_rolled_back(r: StoreRecord) -> bool {
    match member_spec(r.value, "steps"@) {
        Some(JsonValue::Array(items)) => exists|i: int|
            0 <= i < items@.len() && member_text_spec(#[trigger] items@[i], "action"@) == Some("rollback"@),
        _ => false,
    }
}

pub open spec fn time_of(rs: Seq<StoreRecord>, k: Option<usize>) -> u64 {
    match k {
        Some(i) => ts_or_zero(rs[i as int]),
        None => 0,
    }
}

pub open spec fn max_u64(a: u64, b: u64) -> u64 {
    if a >= b {
        a
    } else {
        b
    }
}

/// One harness round: a trace with the positions of its last report of each
/// kind and of its stage evidence.
#[derive(Debug)]
pub struct HarnessRound {
    pub trace_id: String,
    pub generated_at_ms: u64,
    pub patch: Option<usize>,
    pub commands: Option<usize>,
    pub tests: Option<usize>,
    pub git_checkpoint: Option<usize>,
    pub evidence: Vec<usize>,
    pub patch_rollback: bool,
    pub git_rollback: bool,
}

/// A harness round as plain values.
pub struct RoundView {
    pub trace_id: Seq<char>,
    pub generated_at_ms: u64,
    pub patch: Option<usize>,
    pub commands: Option<usize>,
    pub tests: Option<usize>,
    pub git_checkpoint: Option<usize>,
    pub evidence: Seq<usize>,
    pub patch_rollback: bool,
    pub git_rollback: bool,
}

impl View for HarnessRound {
    type V = RoundView;

    open spec fn view(&self) -> RoundView {
        RoundView {
            trace_id: self.trace_id@,
            generated_at_ms: self.generated_at_ms,
            patch: self.patch,
            commands: self.commands,
            tests: self.tests,
            git_checkpoint: self.git_checkpoint,
            evidence: self.evidence@,
            patch_rollback: self.patch_rollback,
            git_rollback: self.git_rollback,
        }
    }
}

/// The round of trace `t` over the ordered lists: the last report of each
/// kind, all the stage evidence, the rollbacks the patch and git reports
/// show, and the latest time among the four reports (zero when none has one).
pub open spec fn round_model(
    p: Seq<StoreRecord>,
    s: Seq<StoreRecord>,
    te: Seq<StoreRecord>,
    g: Seq<StoreRecord>,
    ev: Seq<StoreRecord>,
    t: Seq<char>,
) -> RoundView {
    let pk = last_of_trace(p, t);
    let sk = last_of_trace(s, t);
    let tk = last_of_trace(te, t);
    let gk = last_of_trace(g, t);
    RoundView {
        trace_id: t,
        generated_at_ms: max_u64(max_u64(max_u64(time_of(p, pk), time_of(s, sk)), time_of(te, tk)), time_of(g, gk)),
        patch: pk,
        commands: sk,
        tests: tk,
        git_checkpoint: gk,
        evidence: positions_of_trace(ev, t),
        patch_rollback: match pk {
            Some(i) => patch_rolled_back(p[i as int]),
            None => false,
        },
        git_rollback: match gk {
            Some(i) => git_rolled_back(g[i as int]),
            None => false,
        },
    }
}

/// The rounds of the ordered lists: one per trace they name (traces in
/// sorted order), ordered by time.
pub open spec fn rounds_spec(
    p: Seq<StoreRecord>,
    s: Seq<StoreRecord>,
    te: Seq<StoreRecord>,
    g: Seq<StoreRecord>,
    ev: Seq<StoreRecord>,
) -> Seq<RoundView> {
    let ts = sorted_texts(traces_of(p) + traces_of(s) + traces_of(te) + traces_of(g) + traces_of(ev));
    let ms = ts.map_values(|t: Seq<char>| round_model(p, s, te, g, ev, t));
    sorted_by_stamps(ms, ms.map_values(|m: RoundView| m.generated_at_ms))
}

/// The white-box view: the ordered report lists and the rounds over them.
#[derive(Debug)]
pub struct HarnessWhitebox {
    pub patch_reports: Vec<StoreRecord>,
    pub command_reports: Vec<StoreRecord>,
    pub test_reports: Vec<StoreRecord>,
    pub git_checkpoint_reports: Vec<StoreRecord>,
    pub stage_evidence: Vec<StoreRecord>,
    pub rounds: Vec<HarnessRound>,
}

fn push_traces(out: &mut Vec<String>, rs: &Vec<StoreRecord>)
    ensures
        string_views(final(out)@) == string_views(old(out)@) + traces_of(rs@),
{
    let ghost o0 = string_views(out@);
    let mut i: usize = 0;
    assert(traces_of(rs@.take(0)) =~= Seq::<Seq<char>>::empty());
    assert(string_views(out@) =~= o0 + traces_of(rs@.take(0)));
    while i < rs.len()
        invariant
            i <= rs@.len(),
            string_views(out@) == o0 + traces_of(rs@.take(i as int)),
        decreases rs.len() - i,
    {
        assert(rs@.take(i + 1).drop_last() =~= rs@.take(i as int));
        assert(rs@.take(i + 1).last() == rs@[i as int]);
        match text_member(&rs[i].value, "trace_id") {
            Some(t) => {
                let ghost b = string_views(out@);
                out.push(t.clone());
                assert(string_views(out@) =~= b.push(t@));
                assert(o0 + traces_of(rs@.take(i as int)).push(t@) =~= (o0 + traces_of(rs@.take(i as int))).push(t@));
            },
            None => {},
        }
        i = i + 1;
    }
    assert(rs@.take(rs@.len() as int) =~= rs@);
}

fn last_of_trace_exec(rs: &Vec<StoreRecord>, t: &str) -> (r: Option<usize>)
    ensures
        r == last_of_trace(rs@, t@),
        r matches Some(k) ==> k < rs@.len(),
{
    let mut found: Option<usize> = None;
    let mut i: usize = 0;
    while i < rs.len()
        invariant
            i <= rs@.len(),
            found == last_of_trace(rs@.take(i as int), t@),
            found matches Some(k) ==> k < i,
        decreases rs.len() - i,
    {
        assert(rs@.take(i + 1).drop_last() =~= rs@.take(i as int));
        assert(rs@.take(i + 1).last() == rs@[i as int]);
        if trace_matches(&rs[i], t) {
            found = Some(i);
        }
        i = i + 1;
    }
    assert(rs@.take(rs@.len() as int) =~= rs@);
    found
}

fn positions_of_trace_exec(rs: &Vec<StoreRecord>, t: &str) -> (r: Vec<usize>)
    ensures
        r@ == positions_of_trace(rs@, t@),
{
    let mut out: Vec<usize> = Vec::new();
    let mut i: usize = 0;
    while i < rs.len()
        invariant
            i <= rs@.len(),
            out@ == positions_of_trace(rs@.take(i as int), t@),
        decreases rs.len() - i,
    {
        assert(rs@.take(i + 1).drop_last() =~= rs@.take(i as int));
        assert(rs@.take(i + 1).last() == rs@[i as int]);
        if trace_matches(&rs[i], t) {
            out.push(i);
        }
        i = i + 1;
    }
    assert(rs@.take(rs@.len() as int) =~= rs@);
    out
}

fn patch_rolled_back_exec(r: &StoreRecord) -> (b: bool)
    ensures
        b == patch_rolled_back(*r),
{
    match json_member(&r.value, "rollback_performed") {
        Some(JsonValue::Bool(x)) => *x,
        _ => false,
    }
}

fn git_rolled_back_exec(r: &StoreRecord) -> (b: bool)
    ensures
        b == git_rolled_back(*r),
{
    match json_member(&r.value, "steps") {
        Some(JsonValue::Array(items)) => {
            assert(member_spec(r.value, "steps"@) == Some(JsonValue::Array(*items)));
            let mut i: usize = 0;
            while i < items.len()
                invariant
                    i <= items@.len(),
                    forall|j: int| 0 <= j < i ==> member_text_spec(#[trigger] items@[j], "action"@) != Some("rollback"@),
                    member_spec(r.value, "steps"@) == Some(JsonValue::Array(*items)),
                decreases items.len() - i,
            {
                match text_member(&items[i], "action") {
                    Some(a) => {
                        let c = chars_of(a.as_str());
                        if chars_eq_str(&c, "rollback") {
                            assert(member_text_spec(items@[i as int], "action"@) == Some("rollback"@));
                            assert(git_rolled_back(*r)) by {
                                assert(member_spec(r.value, "steps"@) == Some(JsonValue::Array(*items)));
                            }
                            return true;
                        }
                    },
                    None => {},
                }
                i = i + 1;
            }
            false
        },
        _ => false,
    }
}

fn time_of_exec(rs: &Vec<StoreRecord>, k: Option<usize>) -> (t: u64)
    requires
        k matches Some(i) ==> i < rs@.len(),
    ensures
        t == time_of(rs@, k),
{
    match k {
        Some(i) => match extract_ts(&rs[i]) {
            Some(t) => t,
            None => 0,
        },
        None => 0,
    }
}

fn max_exec(a: u64, b: u64) -> (r: u64)
    ensures
        r == max_u64(a, b),
{
    if a >= b {
        a
    } else {
        b
    }
}

fn round_of(
    p: &Vec<StoreRecord>,
    s: &Vec<StoreRecord>,
    te: &Vec<StoreRecord>,
    g: &Vec<StoreRecord>,
    ev: &Vec<StoreRecord>,
    t: &String,
) -> (r: HarnessRound)
    ensures
        r@ == round_model(p@, s@, te@, g@, ev@, t@),
{
    let pk = last_of_trace_exec(p, t.as_str());
    let sk = last_of_trace_exec(s, t.as_str());
    let tk = last_of_trace_exec(te, t.as_str());
    let gk = last_of_trace_exec(g, t.as_str());
    let generated = max_exec(
        max_exec(max_exec(time_of_exec(p, pk), time_of_exec(s, sk)), time_of_exec(te, tk)),
        time_of_exec(g, gk),
    );
    let patch_rollback = match pk {
        Some(i) => patch_rolled_back_exec(&p[i]),
        None => false,
    };
    let git_rollback = match gk {
        Some(i) => git_rolled_back_exec(&g[i]),
        None => false,
    };
    HarnessRound {
        trace_id: t.clone(),
        generated_at_ms: generated,
        patch: pk,
        commands: sk,
        tests: tk,
        git_checkpoint: gk,
        evidence: positions_of_trace_exec(ev, t.as_str()),
        patch_rollback,
        git_rollback,
    }
}

/// The white-box view of the harness over the stored reports (see
/// `ordered_records` and `rounds_spec`): reports under `:latest` keys and
/// evidence of other stages are left out, as is everything of other traces
/// when a trace is asked for.
pub fn collect_harness_execution_whitebox(
    patch_reports: Vec<StoreRecord>,
    shell_reports: Vec<StoreRecord>,
    test_reports: Vec<StoreRecord>,
    git_reports: Vec<StoreRecord>,
    stage_evidence: Vec<StoreRecord>,
    trace_id: Option<&str>,
) -> (r: HarnessWhitebox)
    ensures
        r.patch_reports@ == ordered_records(patch_reports@, false, opt_str(trace_id)),
        r.command_reports@ == ordered_records(shell_reports@, false, opt_str(trace_id)),
        r.test_reports@ == ordered_records(test_reports@, false, opt_str(trace_id)),
        r.git_checkpoint_reports@ == ordered_records(git_reports@, false, opt_str(trace_id)),
        r.stage_evidence@ == ordered_records(stage_evidence@, true, opt_str(trace_id)),
        r.rounds@.map_values(|x: HarnessRound| x@) == rounds_spec(
            r.patch_reports@,
            r.command_reports@,
            r.test_reports@,
            r.git_checkpoint_reports@,
            r.stage_evidence@,
        ),
{
    let p = order_records(patch_reports, false, trace_id);
    let s = order_records(shell_reports, false, trace_id);
    let te = order_records(test_reports, false, trace_id);
    let g = order_records(git_reports, false, trace_id);
    let ev = order_records(stage_evidence, true, trace_id);
    let mut all: Vec<String> = Vec::new();
    push_traces(&mut all, &p);
    push_traces(&mut all, &s);
    push_traces(&mut all, &te);
    push_traces(&mut all, &g);
    push_traces(&mut all, &ev);
    let ghost all_traces = traces_of(p@) + traces_of(s@) + traces_of(te@) + traces_of(g@) + traces_of(ev@);
    assert(string_views(all@) =~= all_traces);
    let traces = sorted_distinct(&all);
    proof {
        lemma_sorted_same_elements(string_views(traces@), sorted_texts(all_traces));
    }
    let mut rounds: Vec<HarnessRound> = Vec::new();
    let mut stamps: Vec<u64> = Vec::new();
    let mut i: usize = 0;
    let ghost ts = sorted_texts(all_traces);
    while i < traces.len()
        invariant
            i <= traces@.len(),
            string_views(traces@) == ts,
            rounds@.map_values(|x: HarnessRound| x@) =~= ts.map_values(|t: Seq<char>| round_model(p@, s@, te@, g@, ev@, t)).take(
                i as int,
            ),
            stamps@ =~= rounds@.map_values(|x: HarnessRound| x@).map_values(|m: RoundView| m.generated_at_ms),
        decreases traces.len() - i,
    {
        let rd = round_of(&p, &s, &te, &g, &ev, &traces[i]);
        assert(traces@[i as int]@ == ts[i as int]);
        stamps.push(rd.generated_at_ms);
        rounds.push(rd);
        i = i + 1;
    }
    let ghost ms = ts.map_values(|t: Seq<char>| round_model(p@, s@, te@, g@, ev@, t));
    assert(ms.take(ts.len() as int) =~= ms);
    let ghost rs = rounds@;
    let ordered = sort_by_stamps(rounds, stamps);
    proof {
        lemma_sorted_by_stamps_map(rs, ms.map_values(|m: RoundView| m.generated_at_ms), |x: HarnessRound| x@);
    }
    HarnessWhitebox {
        patch_reports: p,
        command_reports: s,
        test_reports: te,
        git_checkpoint_reports: g,
        stage_evidence: ev,
        rounds: ordered,
    }
}

// ---------------------------------------------------------------------------
// The context compiler's white box.
// ---------------------------------------------------------------------------

/// What one plugin trace says about the context compiler's run: the trace,
/// its hard-gate pass token and constraints, and what the annotation proof's
/// annotation records (prompt pack, dropped and source mappings, risk
/// metadata, decision summary, replay fingerprint). Members that are missing
/// are `None`: the view shows `[]` for the id and mapping lists, `null` for
/// the others. Risk metadata, where the annotation has none, is shown as the
/// annotation's `risk_labels` (`[]` when missing) under that name.
#[derive(Debug)]
pub struct ContextCompilerWhitebox<'a> {
    pub trace_id: Option<String>,
    pub hardgate_pass_token: Option<String>,
    pub constraint_version: Option<String>,
    pub constraint_ids: Option<&'a JsonValue>,
    pub prompt_pack: Option<&'a JsonValue>,
    pub dropped_mapping: Option<&'a JsonValue>,
    pub source_mapping: Option<&'a JsonValue>,
    pub risk_metadata: Option<&'a JsonValue>,
    pub risk_labels: Option<&'a JsonValue>,
    pub decision_summary: Option<&'a JsonValue>,
    pub replay_fingerprint: Option<&'a JsonValue>,
    pub generated_at_ms: Option<u64>,
}

pub open spec fn deref_opt(o: Option<&JsonValue>) -> Option<JsonValue> {
    match o {
        Some(x) => Some(*x),
        None => None,
    }
}

/// The annotation of a trace value's annotation proof.
pub open spec fn annotation_of(v: JsonValue) -> Option<JsonValue> {
    match member_spec(v, "annotation_proof"@) {
        Some(p) => member_spec(p, "annotation"@),
        None => None,
    }
}

pub open spec fn annotation_member(v: JsonValue, key: Seq<char>) -> Option<JsonValue> {
    match annotation_of(v) {
        Some(a) => member_spec(a, key),
        None => None,
    }
}

/// What the white box of a plugin trace record holds.
pub open spec fn compiler_whitebox_matches(w: ContextCompilerWhitebox, r: StoreRecord) -> bool {
    let v = r.value;
    &&& crate::observability::signal::opt_view(w.trace_id) == member_text_spec(v, "trace_id"@)
    &&& crate::observability::signal::opt_view(w.hardgate_pass_token) == member_text_spec(v, "hardgate_pass_token"@)
    &&& crate::observability::signal::opt_view(w.constraint_version) == member_text_spec(v, "constraint_version"@)
    &&& deref_opt(w.constraint_ids) == member_spec(v, "constraint_ids"@)
    &&& deref_opt(w.prompt_pack) == annotation_member(v, "prompt_pack"@)
    &&& deref_opt(w.dropped_mapping) == annotation_member(v, "dropped_mapping"@)
    &&& deref_opt(w.source_mapping) == annotation_member(v, "source_mapping"@)
    &&& deref_opt(w.risk_metadata) == annotation_member(v, "risk_metadata"@)
    &&& deref_opt(w.risk_labels) == annotation_member(v, "risk_labels"@)
    &&& deref_opt(w.decision_summary) == annotation_member(v, "decision_summary"@)
    &&& deref_opt(w.replay_fingerprint) == annotation_member(v, "replay_fingerprint"@)
    &&& w.generated_at_ms == record_ts(r)
}

fn member_ref<'a>(v: Option<&'a JsonValue>, key: &str) -> (r: Option<&'a JsonValue>)
    ensures
        deref_opt(r) == match deref_opt(v) {
            Some(x) => member_spec(x, key@),
            None => None,
        },
{
    match v {
        Some(x) => match json_member(x, key) {
            Some(m) => Some(m),
            None => None,
        },
        None => None,
    }
}

/// Reads the context compiler's white box from a plugin trace record (see
/// `compiler_whitebox_matches`).
pub fn extract_context_compiler_whitebox<'a>(trace: &'a StoreRecord) -> (w: ContextCompilerWhitebox<'a>)
    ensures
        compiler_whitebox_matches(w, *trace),
{
    let v = &trace.value;
    let proof_part = member_ref(Some(v), "annotation_proof");
    let annotation = member_ref(proof_part, "annotation");
    ContextCompilerWhitebox {
        trace_id: json_member_text(v, "trace_id"),
        hardgate_pass_token: json_member_text(v, "hardgate_pass_token"),
        constraint_version: json_member_text(v, "constraint_version"),
        constraint_ids: member_ref(Some(v), "constraint_ids"),
        prompt_pack: member_ref(annotation, "prompt_pack"),
        dropped_mapping: member_ref(annotation, "dropped_mapping"),
        source_mapping: member_ref(annotation, "source_mapping"),
        risk_metadata: member_ref(annotation, "risk_metadata"),
        risk_labels: member_ref(annotation, "risk_labels"),
        decision_summary: member_ref(annotation, "decision_summary"),
        replay_fingerprint: member_ref(annotation, "replay_fingerprint"),
        generated_at_ms: extract_ts(trace),
    }
}

} // verus!
