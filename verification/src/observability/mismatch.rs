//! Why a replay did not match its snapshot: the mismatch category and
//! summary its analysis notes give, its deviations in words, and the plugins
//! that caused it, named by the notes, inferred from the deviating fields, or
//! read from the plugin traces of the same trace.
use vstd::prelude::*;

use crate::lexical::{sorted_distinct, strictly_sorted};
use crate::memory::json::{json_member, json_member_text, member_spec, member_text_spec, JsonValue};
use crate::observability::business::string_views;
use crate::observability::event_stream::{ReplayAnalysisReport, ReplayDeviation};
use crate::observability::whitebox::StoreRecord;
use crate::text::{
    chars_eq_str, chars_of, contains, contains_str, join, join_exec, lower, push_str, sep_pred, slice, split_chars,
    split_chars_exec, starts_with, starts_with_str, string_of, to_lower, trimmed_nonblank, trimmed_nonblank_exec,
    views, Separator,
};
use crate::timeline::{lemma_sorted_by_stamps_map, sort_by_stamps, sorted_by_stamps};

verus! {

/// The explanation of one mismatching replay.
#[derive(Debug)]
pub struct ReplayMismatchExplainRecord {
    pub snapshot_id: String,
    pub trace_id: String,
    pub category: String,
    pub summary: String,
    pub deterministic_boundary_respected: bool,
    pub deviations: Vec<String>,
    pub causing_plugins: Vec<String>,
    pub created_at_ms: u64,
}

/// The rest of the first note that starts with `prefix`.
pub open spec fn first_with_prefix(notes: Seq<String>, prefix: Seq<char>) -> Option<Seq<char>>
    decreases notes.len(),
{
    if notes.len() == 0 {
        None
    } else if starts_with(notes[0]@, prefix) {
        Some(notes[0]@.skip(prefix.len() as int))
    } else {
        first_with_prefix(notes.drop_first(), prefix)
    }
}

/// The plugins the notes name: each `plugin_cause=` note split at commas,
/// pieces trimmed, blank ones dropped.
pub open spec fn noted_plugins(notes: Seq<String>) -> Seq<Seq<char>>
    decreases notes.len(),
{
    if notes.len() == 0 {
        Seq::empty()
    } else {
        let r = noted_plugins(notes.drop_last());
        let n = notes.last()@;
        if starts_with(n, "plugin_cause="@) {
            r + trimmed_nonblank(split_chars(n.skip("plugin_cause="@.len() as int), sep_pred(Separator::Char(','))))
        } else {
            r
        }
    }
}

/// The plugin a deviating field points at, if any.
pub open spec fn field_plugin(field: Seq<char>) -> Option<Seq<char>> {
    let f = lower(field);
    if contains(f, "boundary"@) || contains(f, "compaction"@) {
        Some("plugin:optimizer"@)
    } else if contains(f, "token"@) || contains(f, "budget"@) {
        Some("plugin:context-constraint"@)
    } else if contains(f, "output"@) || contains(f, "fingerprint"@) {
        Some("plugin:proof"@)
    } else {
        None
    }
}

pub open spec fn deviation_plugins(ds: Seq<ReplayDeviation>) -> Seq<Seq<char>>
    decreases ds.len(),
{
    if ds.len() == 0 {
        Seq::empty()
    } else {
        let r = deviation_plugins(ds.drop_last());
        match field_plugin(ds.last().field@) {
            Some(p) => r.push(p),
            None => r,
        }
    }
}

/// The `plugin_id`s of a plugin-trace value's executions, as text.
pub open spec fn execution_plugins(items: Seq<JsonValue>) -> Seq<Seq<char>>
    decreases items.len(),
{
    if items.len() == 0 {
        Seq::empty()
    } else {
        let r = execution_plugins(items.drop_last());
        match member_text_spec(items.last(), "plugin_id"@) {
            Some(p) => r.push(p),
            None => r,
        }
    }
}

pub open spec fn trace_plugins(v: JsonValue) -> Seq<Seq<char>> {
    match member_spec(v, "plugin_execution_traces"@) {
        Some(JsonValue::Array(items)) => execution_plugins(items@),
        _ => Seq::empty(),
    }
}

/// The plugins the traces of trace `t` executed, in order.
pub open spec fn traced_plugins(traces: Seq<StoreRecord>, t: Seq<char>) -> Seq<Seq<char>>
    decreases traces.len(),
{
    if traces.len() == 0 {
        Seq::empty()
    } else {
        let r = traced_plugins(traces.drop_last(), t);
        let v = traces.last().value;
        if member_text_spec(v, "trace_id"@) == Some(t) {
            r + trace_plugins(v)
        } else {
            r
        }
    }
}

/// The plugins that caused a mismatch: those the notes name, else those the
/// deviating fields point at, else those the plugin traces of its trace ran.
pub open spec fn causing_plugins_spec(report: ReplayAnalysisReport, traces: Seq<StoreRecord>) -> Seq<Seq<char>> {
    let n = noted_plugins(report.notes@);
    if n.len() > 0 {
        n
    } else {
        let d = deviation_plugins(report.deviations@);
        if d.len() > 0 {
            d
        } else {
            traced_plugins(traces, report.trace_id@)
        }
    }
}

/// The first note that mentions a mismatch, else the first deviation's
/// explanation, else a stock phrase.
pub open spec fn summary_base(report: ReplayAnalysisReport) -> Seq<char> {
    match first_containing(report.notes@, "mismatch"@) {
        Some(n) => n,
        None => if report.deviations@.len() > 0 {
            report.deviations@[0].explanation@
        } else {
            "replay mismatch detected"@
        },
    }
}

pub open spec fn first_containing(notes: Seq<String>, p: Seq<char>) -> Option<Seq<char>>
    decreases notes.len(),
{
    if notes.len() == 0 {
        None
    } else if contains(notes[0]@, p) {
        Some(notes[0]@)
    } else {
        first_containing(notes.drop_first(), p)
    }
}

pub open spec fn deviation_text(d: ReplayDeviation) -> Seq<char> {
    d.field@ + " expected="@ + d.expected@ + " actual="@ + d.actual@ + " severity="@ + d.severity@
}

/// What the explanation of a mismatching replay holds.
pub open spec fn explain_matches(r: ReplayMismatchExplainRecord, report: ReplayAnalysisReport, traces: Seq<StoreRecord>) -> bool {
    let plugins = string_views(r.causing_plugins@);
    &&& r.snapshot_id@ == report.snapshot_id@
    &&& r.trace_id@ == report.trace_id@
    &&& r.category@ == match first_with_prefix(report.notes@, "mismatch_category="@) {
        Some(c) => c,
        None => "unknown"@,
    }
    &&& strictly_sorted(plugins)
    &&& forall|p: Seq<char>| plugins.contains(p) <==> causing_plugins_spec(report, traces).contains(p)
    &&& r.summary@ == if plugins.len() == 0 {
        summary_base(report)
    } else {
        summary_base(report) + " | plugin_cause="@ + join(plugins, ","@)
    }
    &&& r.deterministic_boundary_respected == report.deterministic_boundary_respected
    &&& string_views(r.deviations@) == report.deviations@.map_values(|d: ReplayDeviation| deviation_text(d))
    &&& r.created_at_ms == report.created_at_ms
}

fn first_with_prefix_exec(notes: &Vec<String>, prefix: &str) -> (r: Option<String>)
    ensures
        crate::observability::signal::opt_view(r) == first_with_prefix(notes@, prefix@),
{
    let mut i: usize = 0;
    assert(notes@.skip(0) =~= notes@);
    while i < notes.len()
        invariant
            i <= notes@.len(),
            first_with_prefix(notes@, prefix@) == first_with_prefix(notes@.skip(i as int), prefix@),
        decreases notes.len() - i,
    {
        let ghost rest = notes@.skip(i as int);
        assert(rest[0] == notes@[i as int]);
        assert(rest.drop_first() =~= notes@.skip(i + 1));
        let n = chars_of(notes[i].as_str());
        if starts_with_str(&n, prefix) {
            let p = chars_of(prefix);
            let tail = slice(&n, p.len(), n.len());
            assert(tail@ =~= n@.skip(prefix@.len() as int));
            return Some(string_of(&tail));
        }
        i = i + 1;
    }
    None
}

fn first_containing_exec(notes: &Vec<String>, p: &str) -> (r: Option<String>)
    ensures
        crate::observability::signal::opt_view(r) == first_containing(notes@, p@),
{
    let mut i: usize = 0;
    assert(notes@.skip(0) =~= notes@);
    while i < notes.len()
        invariant
            i <= notes@.len(),
            first_containing(notes@, p@) == first_containing(notes@.skip(i as int), p@),
        decreases notes.len() - i,
    {
        let ghost rest = notes@.skip(i as int);
        assert(rest[0] == notes@[i as int]);
        assert(rest.drop_first() =~= notes@.skip(i + 1));
        if contains_str(&chars_of(notes[i].as_str()), p) {
            return Some(notes[i].clone());
        }
        i = i + 1;
    }
    None
}

fn push_texts(out: &mut Vec<String>, v: &Vec<Vec<char>>)
    ensures
        string_views(final(out)@) == string_views(old(out)@) + views(v@),
{
    let ghost base = string_views(out@);
    let mut i: usize = 0;
    while i < v.len()
        invariant
            i <= v@.len(),
            string_views(out@) =~= base + views(v@).take(i as int),
        decreases v.len() - i,
    {
        let ghost o0 = string_views(out@);
        out.push(string_of(&v[i]));
        assert(string_views(out@) =~= o0.push(v@[i as int]@));
        assert(views(v@).take(i + 1) =~= views(v@).take(i as int).push(v@[i as int]@));
        i = i + 1;
    }
    assert(views(v@).take(v@.len() as int) =~= views(v@));
}

fn noted_plugins_exec(notes: &Vec<String>) -> (r: Vec<String>)
    ensures
        string_views(r@) == noted_plugins(notes@),
{
    let mut out: Vec<String> = Vec::new();
    let mut i: usize = 0;
    while i < notes.len()
        invariant
            i <= notes@.len(),
            string_views(out@) == noted_plugins(notes@.take(i as int)),
        decreases notes.len() - i,
    {
        let ghost t1 = notes@.take(i + 1);
        assert(t1.drop_last() =~= notes@.take(i as int));
        assert(t1.last() == notes@[i as int]);
        let n = chars_of(notes[i].as_str());
        if starts_with_str(&n, "plugin_cause=") {
            let pc = chars_of("plugin_cause=");
            let tail = slice(&n, pc.len(), n.len());
            assert(tail@ =~= n@.skip("plugin_cause="@.len() as int));
            let parts = split_chars_exec(&tail, Separator::Char(','));
            let kept = trimmed_nonblank_exec(&parts);
            push_texts(&mut out, &kept);
        }
        i = i + 1;
    }
    assert(notes@.take(notes@.len() as int) =~= notes@);
    out
}

fn field_plugin_exec(field: &str) -> (r: Option<String>)
    ensures
        crate::observability::signal::opt_view(r) == field_plugin(field@),
{
    let f = to_lower(&chars_of(field));
    if contains_str(&f, "boundary") || contains_str(&f, "compaction") {
        Some(string_of(&chars_of("plugin:optimizer")))
    } else if contains_str(&f, "token") || contains_str(&f, "budget") {
        Some(string_of(&chars_of("plugin:context-constraint")))
    } else if contains_str(&f, "output") || contains_str(&f, "fingerprint") {
        Some(string_of(&chars_of("plugin:proof")))
    } else {
        None
    }
}

fn deviation_plugins_exec(ds: &Vec<ReplayDeviation>) -> (r: Vec<String>)
    ensures
        string_views(r@) == deviation_plugins(ds@),
{
    let mut out: Vec<String> = Vec::new();
    let mut i: usize = 0;
    while i < ds.len()
        invariant
            i <= ds@.len(),
            string_views(out@) == deviation_plugins(ds@.take(i as int)),
        decreases ds.len() - i,
    {
        let ghost t1 = ds@.take(i + 1);
        assert(t1.drop_last() =~= ds@.take(i as int));
        assert(t1.last() == ds@[i as int]);
        match field_plugin_exec(ds[i].field.as_str()) {
            Some(p) => {
                let ghost o0 = string_views(out@);
                let ghost pv = p@;
                out.push(p);
                assert(string_views(out@) =~= o0.push(pv));
            },
            None => {},
        }
        i = i + 1;
    }
    assert(ds@.take(ds@.len() as int) =~= ds@);
    out
}

fn trace_plugins_exec(v: &JsonValue, out: &mut Vec<String>)
    ensures
        string_views(final(out)@) == string_views(old(out)@) + trace_plugins(*v),
{
    match json_member(v, "plugin_execution_traces") {
        Some(JsonValue::Array(items)) => {
            let ghost base = string_views(out@);
            let mut i: usize = 0;
            while i < items.len()
                invariant
                    i <= items@.len(),
                    string_views(out@) == base + execution_plugins(items@.take(i as int)),
                decreases items.len() - i,
            {
                let ghost t1 = items@.take(i + 1);
                assert(t1.drop_last() =~= items@.take(i as int));
                assert(t1.last() == items@[i as int]);
                match json_member_text(&items[i], "plugin_id") {
                    Some(p) => {
                        let ghost o0 = string_views(out@);
                        let ghost pv = p@;
                        out.push(p);
                        assert(string_views(out@) =~= o0.push(pv));
                    },
                    None => {},
                }
                i = i + 1;
            }
            assert(items@.take(items@.len() as int) =~= items@);
        },
        _ => {
            assert(string_views(out@) =~= string_views(out@) + Seq::<Seq<char>>::empty());
        },
    }
}

fn traced_plugins_exec(traces: &Vec<StoreRecord>, t: &str) -> (r: Vec<String>)
    ensures
        string_views(r@) == traced_plugins(traces@, t@),
{
    let mut out: Vec<String> = Vec::new();
    let mut i: usize = 0;
    while i < traces.len()
        invariant
            i <= traces@.len(),
            string_views(out@) == traced_plugins(traces@.take(i as int), t@),
        decreases traces.len() - i,
    {
        let ghost t1 = traces@.take(i + 1);
        assert(t1.drop_last() =~= traces@.take(i as int));
        assert(t1.last() == traces@[i as int]);
        let same = match json_member_text(&traces[i].value, "trace_id") {
            Some(x) => chars_eq_str(&chars_of(x.as_str()), t),
            None => false,
        };
        if same {
            trace_plugins_exec(&traces[i].value, &mut out);
        }
        i = i + 1;
    }
    assert(traces@.take(traces@.len() as int) =~= traces@);
    out
}

/// The plugins that caused a mismatch (see `causing_plugins_spec`), in the
/// order found.
pub fn infer_causing_plugins(report: &ReplayAnalysisReport, plugin_traces: &Vec<StoreRecord>) -> (r: Vec<String>)
    ensures
        string_views(r@) == causing_plugins_spec(*report, plugin_traces@),
{
    let noted = noted_plugins_exec(&report.notes);
    if noted.len() > 0 {
        return noted;
    }
    let from_fields = deviation_plugins_exec(&report.deviations);
    if from_fields.len() > 0 {
        return from_fields;
    }
    traced_plugins_exec(plugin_traces, report.trace_id.as_str())
}

fn strings_to_chars(v: &Vec<String>) -> (r: Vec<Vec<char>>)
    ensures
        views(r@) == string_views(v@),
{
    let mut out: Vec<Vec<char>> = Vec::new();
    let mut i: usize = 0;
    while i < v.len()
        invariant
            i <= v@.len(),
            views(out@) =~= string_views(v@).take(i as int),
        decreases v.len() - i,
    {
        let ghost o0 = views(out@);
        out.push(chars_of(v[i].as_str()));
        assert(views(out@) =~= o0.push(v@[i as int]@));
        assert(string_views(v@).take(i + 1) =~= string_views(v@).take(i as int).push(v@[i as int]@));
        i = i + 1;
    }
    assert(string_views(v@).take(v@.len() as int) =~= string_views(v@));
    out
}

/// Explains why a replay did not match (see `explain_matches`).
pub fn build_mismatch_explain(report: &ReplayAnalysisReport, plugin_traces: &Vec<StoreRecord>) -> (r: ReplayMismatchExplainRecord)
    ensures
        explain_matches(r, *report, plugin_traces@),
{
    let category = match first_with_prefix_exec(&report.notes, "mismatch_category=") {
        Some(c) => c,
        None => string_of(&chars_of("unknown")),
    };
    let found = infer_causing_plugins(report, plugin_traces);
    let plugins = sorted_distinct(&found);
    let base = match first_containing_exec(&report.notes, "mismatch") {
        Some(n) => n,
        None => if report.deviations.len() > 0 {
            report.deviations[0].explanation.clone()
        } else {
            string_of(&chars_of("replay mismatch detected"))
        },
    };
    let summary = if plugins.len() == 0 {
        base
    } else {
        let mut s = chars_of(base.as_str());
        push_str(&mut s, " | plugin_cause=");
        let joined = join_exec(&strings_to_chars(&plugins), ",");
        crate::text::push_all(&mut s, &joined);
        string_of(&s)
    };
    let mut deviations: Vec<String> = Vec::new();
    let mut i: usize = 0;
    while i < report.deviations.len()
        invariant
            i <= report.deviations@.len(),
            string_views(deviations@) =~= report.deviations@.map_values(|d: ReplayDeviation| deviation_text(d)).take(
                i as int,
            ),
        decreases report.deviations.len() - i,
    {
        let d = &report.deviations[i];
        let mut t = chars_of(d.field.as_str());
        push_str(&mut t, " expected=");
        push_str(&mut t, d.expected.as_str());
        push_str(&mut t, " actual=");
        push_str(&mut t, d.actual.as_str());
        push_str(&mut t, " severity=");
        push_str(&mut t, d.severity.as_str());
        let ghost o0 = string_views(deviations@);
        deviations.push(string_of(&t));
        assert(string_views(deviations@) =~= o0.push(deviation_text(*d)));
        i = i + 1;
    }
    assert(report.deviations@.map_values(|d: ReplayDeviation| deviation_text(d)).take(report.deviations@.len() as int)
        =~= report.deviations@.map_values(|d: ReplayDeviation| deviation_text(d)));
    ReplayMismatchExplainRecord {
        snapshot_id: report.snapshot_id.clone(),
        trace_id: report.trace_id.clone(),
        category,
        summary,
        deterministic_boundary_respected: report.deterministic_boundary_respected,
        deviations,
        causing_plugins: plugins,
        created_at_ms: report.created_at_ms,
    }
}

/// The analyses of a session (on trace `t` when one is asked for), in the order given.
pub open spec fn session_analyses(
    rs: Seq<ReplayAnalysisReport>,
    session: Seq<char>,
    trace: Option<Seq<char>>,
) -> Seq<ReplayAnalysisReport>
    decreases rs.len(),
{
    if rs.len() == 0 {
        Seq::empty()
    } else {
        let r = session_analyses(rs.drop_last(), session, trace);
        let a = rs.last();
        if a.session_id@ == session && (trace is None || Some(a.trace_id@) == trace) {
            r.push(a)
        } else {
            r
        }
    }
}

/// The analyses that found a mismatch: not matched, or past the deterministic boundary.
pub open spec fn mismatching(rs: Seq<ReplayAnalysisReport>) -> Seq<ReplayAnalysisReport>
    decreases rs.len(),
{
    if rs.len() == 0 {
        Seq::empty()
    } else {
        let r = mismatching(rs.drop_last());
        if !rs.last().matched || !rs.last().deterministic_boundary_respected {
            r.push(rs.last())
        } else {
            r
        }
    }
}

/// The mismatching analyses of a session, by creation time.
pub open spec fn explained_analyses(
    rs: Seq<ReplayAnalysisReport>,
    session: Seq<char>,
    trace: Option<Seq<char>>,
) -> Seq<ReplayAnalysisReport> {
    let k = session_analyses(rs, session, trace);
    mismatching(sorted_by_stamps(k, k.map_values(|a: ReplayAnalysisReport| a.created_at_ms)))
}

pub open spec fn opt_str(o: Option<&str>) -> Option<Seq<char>> {
    match o {
        Some(t) => Some(t@),
        None => None,
    }
}

/// The explanations of a session's mismatching replays (see
/// `explained_analyses`), one per analysis.
pub fn replay_mismatch_explains(
    session_id: &str,
    trace_id: Option<&str>,
    analyses: &Vec<ReplayAnalysisReport>,
    plugin_traces: &Vec<StoreRecord>,
) -> (r: Vec<ReplayMismatchExplainRecord>)
    ensures
        r@.len() == explained_analyses(analyses@, session_id@, opt_str(trace_id)).len(),
        forall|k: int|
            0 <= k < r@.len() ==> explain_matches(
                #[trigger] r@[k],
                explained_analyses(analyses@, session_id@, opt_str(trace_id))[k],
                plugin_traces@,
            ),
{
    let ghost tr = opt_str(trace_id);
    let ghost f = |j: usize| analyses@[j as int];
    let mut pos: Vec<usize> = Vec::new();
    let mut stamps: Vec<u64> = Vec::new();
    let mut i: usize = 0;
    while i < analyses.len()
        invariant
            i <= analyses@.len(),
            tr == opt_str(trace_id),
            f == (|j: usize| analyses@[j as int]),
            pos@.map_values(f) == session_analyses(analyses@.take(i as int), session_id@, tr),
            stamps@ == pos@.map_values(f).map_values(|a: ReplayAnalysisReport| a.created_at_ms),
            forall|k: int| 0 <= k < pos@.len() ==> #[trigger] pos@[k] < i,
        decreases analyses.len() - i,
    {
        let ghost t1 = analyses@.take(i + 1);
        assert(t1.drop_last() =~= analyses@.take(i as int));
        assert(t1.last() == analyses@[i as int]);
        let a = &analyses[i];
        let same_session = chars_eq_str(&chars_of(a.session_id.as_str()), session_id);
        let on_trace = match trace_id {
            None => true,
            Some(t) => chars_eq_str(&chars_of(a.trace_id.as_str()), t),
        };
        if same_session && on_trace {
            let ghost p0 = pos@;
            pos.push(i);
            stamps.push(a.created_at_ms);
            assert(pos@.map_values(f) =~= p0.map_values(f).push(analyses@[i as int]));
            assert(stamps@ =~= pos@.map_values(f).map_values(|a: ReplayAnalysisReport| a.created_at_ms));
        }
        i = i + 1;
    }
    assert(analyses@.take(analyses@.len() as int) =~= analyses@);
    let ghost pv = pos@;
    let sorted = sort_by_stamps(pos, stamps);
    proof {
        lemma_sorted_by_stamps_map(pv, stamps@, f);
        crate::timeline::lemma_sorted_by_stamps_elements(pv, stamps@);
    }
    let ghost ordered = sorted@.map_values(f);
    let ghost k0 = session_analyses(analyses@, session_id@, tr);
    assert(ordered == sorted_by_stamps(k0, k0.map_values(|a: ReplayAnalysisReport| a.created_at_ms)));
    assert forall|q: int| 0 <= q < sorted@.len() implies #[trigger] sorted@[q] < analyses@.len() by {
        assert(pv.contains(sorted@[q]));
    }
    let mut out: Vec<ReplayMismatchExplainRecord> = Vec::new();
    let mut m: usize = 0;
    while m < sorted.len()
        invariant
            m <= sorted@.len(),
            f == (|j: usize| analyses@[j as int]),
            ordered == sorted@.map_values(f),
            forall|q: int| 0 <= q < sorted@.len() ==> #[trigger] sorted@[q] < analyses@.len(),
            out@.len() == mismatching(ordered.take(m as int)).len(),
            forall|k: int|
                0 <= k < out@.len() ==> explain_matches(#[trigger] out@[k], mismatching(ordered.take(m as int))[k], plugin_traces@),
        decreases sorted.len() - m,
    {
        let ghost t1 = ordered.take(m + 1);
        assert(t1.drop_last() =~= ordered.take(m as int));
        assert(t1.last() == analyses@[sorted@[m as int] as int]);
        let a = &analyses[sorted[m]];
        if !a.matched || !a.deterministic_boundary_respected {
            let ghost prev = mismatching(ordered.take(m as int));
            out.push(build_mismatch_explain(a, plugin_traces));
            assert(mismatching(t1) == prev.push(*a));
            assert forall|k: int| 0 <= k < out@.len() implies explain_matches(
                #[trigger] out@[k],
                mismatching(t1)[k],
                plugin_traces@,
            ) by {
                if k < prev.len() {
                    assert(mismatching(t1)[k] == prev[k]);
                }
            }
        }
        m = m + 1;
    }
    assert(ordered.take(sorted@.len() as int) =~= ordered);
    out
}

} // verus!
