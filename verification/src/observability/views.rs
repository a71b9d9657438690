//! Operator views of a session's signal explanations and relation graph: the
//! records behind each view, filtered by trace, in time order, with the
//! reasons they give counted.
use vstd::prelude::*;

use crate::keyed::{lemma_tally_bound, tally, KeyedMap};
use crate::memory::extract::eq_ignore_case;
use crate::memory::json::{json_document, json_member, json_member_text, member_spec, member_text_spec, parse_json_document, JsonValue};
use crate::observability::business::{eq_ignore_case_str, string_views};
use crate::observability::whitebox::{json_u64, json_u64_exec, KnowledgeEntry, StoreRecord};
use crate::lexical::{sorted_distinct, strictly_sorted};
use crate::text::{chars_eq_str, chars_of, ends_with, ends_with_exec, string_of};
use crate::timeline::{lemma_sorted_by_stamps_map, sort_by_stamps, sorted_by_stamps};

verus! {

// ---------------------------------------------------------------------------
// Signal explanations.
// ---------------------------------------------------------------------------

/// A stored record read as JSON.
#[derive(Debug)]
pub struct KeyedValue {
    pub key: String,
    pub value: JsonValue,
}

pub open spec fn keyed_view(k: KeyedValue) -> (Seq<char>, JsonValue) {
    (k.key@, k.value)
}

/// A record key that is not the `:latest` pointer.
pub open spec fn not_latest(key: Seq<char>) -> bool {
    !ends_with(key, ":latest"@)
}

/// The records, other than `:latest` pointers, whose value is JSON, as key and value.
pub open spec fn explain_docs(es: Seq<KnowledgeEntry>) -> Seq<(Seq<char>, JsonValue)>
    decreases es.len(),
{
    if es.len() == 0 {
        Seq::empty()
    } else {
        let r = explain_docs(es.drop_last());
        let e = es.last();
        if not_latest(e.key@) && json_document(e.value@) is Some {
            r.push((e.key@, json_document(e.value@).unwrap()))
        } else {
            r
        }
    }
}

/// The value's member `trace_id` is the text `t`, where a trace is asked for.
pub open spec fn on_trace(v: JsonValue, trace: Option<Seq<char>>) -> bool {
    match trace {
        None => true,
        Some(t) => member_text_spec(v, "trace_id"@) == Some(t),
    }
}

pub open spec fn on_trace_docs(ds: Seq<(Seq<char>, JsonValue)>, trace: Option<Seq<char>>) -> Seq<(Seq<char>, JsonValue)>
    decreases ds.len(),
{
    if ds.len() == 0 {
        Seq::empty()
    } else {
        let r = on_trace_docs(ds.drop_last(), trace);
        if on_trace(ds.last().1, trace) {
            r.push(ds.last())
        } else {
            r
        }
    }
}

/// The member `key` of a value as an unsigned integer, 0 where there is none.
pub open spec fn stamp_of(v: JsonValue, key: Seq<char>) -> u64 {
    match member_spec(v, key) {
        Some(x) => match json_u64(x) {
            Some(n) => n,
            None => 0,
        },
        None => 0,
    }
}

/// The explanations of a session on the trace asked for, by creation time.
pub open spec fn explain_items(es: Seq<KnowledgeEntry>, trace: Option<Seq<char>>) -> Seq<(Seq<char>, JsonValue)> {
    let k = on_trace_docs(explain_docs(es), trace);
    sorted_by_stamps(k, k.map_values(|d: (Seq<char>, JsonValue)| stamp_of(d.1, "created_at_ms"@)))
}

/// The reason codes the values give as text, in order.
pub open spec fn reason_codes(ds: Seq<(Seq<char>, JsonValue)>) -> Seq<Seq<char>>
    decreases ds.len(),
{
    if ds.len() == 0 {
        Seq::empty()
    } else {
        let r = reason_codes(ds.drop_last());
        match member_text_spec(ds.last().1, "reason_code"@) {
            Some(c) => r.push(c),
            None => r,
        }
    }
}

/// The signal explanations of a session: the items, their number, and how
/// many give each reason code.
#[derive(Debug)]
pub struct SignalExplainView {
    pub count: usize,
    pub reason_counts: KeyedMap<usize>,
    pub items: Vec<KeyedValue>,
}

pub open spec fn opt_str_view(o: Option<&str>) -> Option<Seq<char>> {
    match o {
        Some(t) => Some(t@),
        None => None,
    }
}

fn on_trace_exec(v: &JsonValue, trace: Option<&str>) -> (r: bool)
    ensures
        r == on_trace(*v, opt_str_view(trace)),
{
    match trace {
        None => true,
        Some(t) => match json_member_text(v, "trace_id") {
            Some(x) => chars_eq_str(&chars_of(x.as_str()), t),
            None => false,
        },
    }
}

fn stamp_exec(v: &JsonValue, key: &str) -> (r: u64)
    ensures
        r == stamp_of(*v, key@),
{
    match json_member(v, key) {
        Some(x) => match json_u64_exec(x) {
            Some(n) => n,
            None => 0,
        },
        None => 0,
    }
}

/// The signal explanations stored for a session (`entries`, as listed under
/// its explain prefix), on `trace_id` when one is given, by creation time
/// (see `explain_items`), with their reason codes counted.
pub fn signal_explain_view(entries: &Vec<KnowledgeEntry>, trace_id: Option<&str>) -> (r: SignalExplainView)
    ensures
        r.items@.map_values(|k: KeyedValue| keyed_view(k)) == explain_items(entries@, opt_str_view(trace_id)),
        r.count == r.items@.len(),
        r.reason_counts@ == tally(reason_codes(explain_items(entries@, opt_str_view(trace_id)))),
{
    let ghost tr = opt_str_view(trace_id);
    let mut kept: Vec<KeyedValue> = Vec::new();
    let mut stamps: Vec<u64> = Vec::new();
    let latest = chars_of(":latest");
    let mut i: usize = 0;
    while i < entries.len()
        invariant
            i <= entries@.len(),
            latest@ == ":latest"@,
            tr == opt_str_view(trace_id),
            kept@.map_values(|k: KeyedValue| keyed_view(k)) == on_trace_docs(explain_docs(entries@.take(i as int)), tr),
            stamps@ == kept@.map_values(|k: KeyedValue| keyed_view(k)).map_values(
                |d: (Seq<char>, JsonValue)| stamp_of(d.1, "created_at_ms"@),
            ),
        decreases entries.len() - i,
    {
        let ghost t1 = entries@.take(i + 1);
        assert(t1.drop_last() =~= entries@.take(i as int));
        assert(t1.last() == entries@[i as int]);
        let e = &entries[i];
        let k = chars_of(e.key.as_str());
        if !ends_with_exec(&k, &latest) {
            match parse_json_document(e.value.as_str()) {
                Some(doc) => {
                    let ghost d0 = explain_docs(entries@.take(i as int));
                    assert(explain_docs(t1) == d0.push((e.key@, doc)));
                    assert(d0.push((e.key@, doc)).drop_last() =~= d0);
                    assert(d0.push((e.key@, doc)).last() == (e.key@, doc));
                    if on_trace_exec(&doc, trace_id) {
                        let ghost kv0 = kept@.map_values(|k: KeyedValue| keyed_view(k));
                        let st = stamp_exec(&doc, "created_at_ms");
                        kept.push(KeyedValue { key: e.key.clone(), value: doc });
                        stamps.push(st);
                        assert(kept@.map_values(|k: KeyedValue| keyed_view(k)) =~= kv0.push((e.key@, doc)));
                        assert(stamps@ =~= kept@.map_values(|k: KeyedValue| keyed_view(k)).map_values(
                            |d: (Seq<char>, JsonValue)| stamp_of(d.1, "created_at_ms"@),
                        ));
                    }
                },
                None => {},
            }
        }
        i = i + 1;
    }
    assert(entries@.take(entries@.len() as int) =~= entries@);
    let ghost kv = kept@;
    let sorted = sort_by_stamps(kept, stamps);
    proof {
        lemma_sorted_by_stamps_map(kv, stamps@, |k: KeyedValue| keyed_view(k));
    }
    let ghost items = explain_items(entries@, tr);
    assert(sorted@.map_values(|k: KeyedValue| keyed_view(k)) == items);
    let mut counts: KeyedMap<usize> = KeyedMap::new();
    let mut j: usize = 0;
    while j < sorted.len()
        invariant
            j <= sorted@.len(),
            sorted@.map_values(|k: KeyedValue| keyed_view(k)) == items,
            counts@ == tally(reason_codes(items.take(j as int))),
        decreases sorted.len() - j,
    {
        let ghost t1 = items.take(j + 1);
        assert(t1.drop_last() =~= items.take(j as int));
        assert(t1.last() == keyed_view(sorted@[j as int]));
        proof {
            lemma_reason_codes_len(items.take(j as int));
            lemma_tally_bound(reason_codes(items.take(j as int)));
        }
        match json_member_text(&sorted[j].value, "reason_code") {
            Some(c) => {
                assert(reason_codes(t1).drop_last() =~= reason_codes(items.take(j as int)));
                counts.increment(c);
            },
            None => {},
        }
        j = j + 1;
    }
    assert(items.take(items.len() as int) =~= items);
    SignalExplainView { count: sorted.len(), reason_counts: counts, items: sorted }
}

proof fn lemma_reason_codes_len(ds: Seq<(Seq<char>, JsonValue)>)
    ensures
        reason_codes(ds).len() <= ds.len(),
    decreases ds.len(),
{
    if ds.len() > 0 {
        lemma_reason_codes_len(ds.drop_last());
    }
}

// ---------------------------------------------------------------------------
// Relation events explained.
// ---------------------------------------------------------------------------

/// An event of the relation graph as stored, with its payload.
#[derive(Debug)]
pub struct RelationLogEvent {
    pub event_id: String,
    pub trace_id: String,
    pub event_type: String,
    pub evidence_ref: String,
    pub payload: JsonValue,
    pub created_at_ms: u64,
}

/// A relation event with the decision it records and the reason it gives.
#[derive(Debug)]
pub struct ExplainedRelationEvent {
    pub event_id: String,
    pub trace_id: String,
    pub event_type: String,
    pub decision: String,
    pub reason_code: String,
    pub deny_reason: Option<String>,
    pub evidence_ref: String,
    pub payload: JsonValue,
    pub created_at_ms: u64,
}

/// An explained relation event as plain values.
pub struct ExplainedView {
    pub event_id: Seq<char>,
    pub trace_id: Seq<char>,
    pub event_type: Seq<char>,
    pub decision: Seq<char>,
    pub reason_code: Seq<char>,
    pub deny_reason: Option<Seq<char>>,
    pub evidence_ref: Seq<char>,
    pub payload: JsonValue,
    pub created_at_ms: u64,
}

impl View for ExplainedRelationEvent {
    type V = ExplainedView;

    open spec fn view(&self) -> ExplainedView {
        ExplainedView {
            event_id: self.event_id@,
            trace_id: self.trace_id@,
            event_type: self.event_type@,
            decision: self.decision@,
            reason_code: self.reason_code@,
            deny_reason: crate::observability::signal::opt_view(self.deny_reason),
            evidence_ref: self.evidence_ref@,
            payload: self.payload,
            created_at_ms: self.created_at_ms,
        }
    }
}

/// The event records a rejected edge (its type, in any ASCII case).
pub open spec fn is_rejection(e: RelationLogEvent) -> bool {
    eq_ignore_case(e.event_type@, "edge_rejected"@)
}

/// The member `key` of the payload's `reason`, when it is text.
pub open spec fn reason_member(p: JsonValue, key: Seq<char>) -> Option<Seq<char>> {
    match member_spec(p, "reason"@) {
        Some(r) => member_text_spec(r, key),
        None => None,
    }
}

/// An event explained: blocked when it rejected an edge, else allowed; its
/// reason code (else the decision), deny reason, and evidence reference
/// (else the event's own).
pub open spec fn explain_spec(e: RelationLogEvent) -> ExplainedView {
    let decision = if is_rejection(e) {
        "blocked"@
    } else {
        "allowed"@
    };
    ExplainedView {
        event_id: e.event_id@,
        trace_id: e.trace_id@,
        event_type: e.event_type@,
        decision,
        reason_code: match reason_member(e.payload, "code"@) {
            Some(c) => c,
            None => decision,
        },
        deny_reason: reason_member(e.payload, "deny_reason"@),
        evidence_ref: match reason_member(e.payload, "evidence_ref"@) {
            Some(x) => x,
            None => e.evidence_ref@,
        },
        payload: e.payload,
        created_at_ms: e.created_at_ms,
    }
}

pub open spec fn events_on_trace(es: Seq<RelationLogEvent>, trace: Option<Seq<char>>) -> Seq<RelationLogEvent>
    decreases es.len(),
{
    if es.len() == 0 {
        Seq::empty()
    } else {
        let r = events_on_trace(es.drop_last(), trace);
        if trace is None || Some(es.last().trace_id@) == trace {
            r.push(es.last())
        } else {
            r
        }
    }
}

/// The events on the trace asked for, explained, by creation time.
pub open spec fn relation_explain_spec(es: Seq<RelationLogEvent>, trace: Option<Seq<char>>) -> Seq<ExplainedView> {
    let k = events_on_trace(es, trace);
    sorted_by_stamps(k.map_values(|e: RelationLogEvent| explain_spec(e)), k.map_values(|e: RelationLogEvent| e.created_at_ms))
}

/// The explained relation events of a session, their number, and how many
/// give each reason code.
#[derive(Debug)]
pub struct RelationExplainView {
    pub count: usize,
    pub reason_counts: KeyedMap<usize>,
    pub items: Vec<ExplainedRelationEvent>,
}

fn reason_member_exec(p: &JsonValue, key: &str) -> (r: Option<String>)
    ensures
        crate::observability::signal::opt_view(r) == reason_member(*p, key@),
{
    match json_member(p, "reason") {
        Some(x) => json_member_text(x, key),
        None => None,
    }
}

fn explain_event(e: RelationLogEvent) -> (r: ExplainedRelationEvent)
    ensures
        r@ == explain_spec(e),
{
    let rejected = eq_ignore_case_str(&e.event_type, "edge_rejected");
    let decision = if rejected {
        string_of(&chars_of("blocked"))
    } else {
        string_of(&chars_of("allowed"))
    };
    let code = match reason_member_exec(&e.payload, "code") {
        Some(c) => c,
        None => decision.clone(),
    };
    let deny = reason_member_exec(&e.payload, "deny_reason");
    let evidence = match reason_member_exec(&e.payload, "evidence_ref") {
        Some(x) => x,
        None => e.evidence_ref.clone(),
    };
    ExplainedRelationEvent {
        event_id: e.event_id,
        trace_id: e.trace_id,
        event_type: e.event_type,
        decision,
        reason_code: code,
        deny_reason: deny,
        evidence_ref: evidence,
        payload: e.payload,
        created_at_ms: e.created_at_ms,
    }
}

/// The relation events of a session (`events`, as listed), on `trace_id`
/// when one is given, explained and ordered by creation time (see
/// `relation_explain_spec`), with their reason codes counted.
pub fn relation_explain_view(events: Vec<RelationLogEvent>, trace_id: Option<&str>) -> (r: RelationExplainView)
    ensures
        r.items@.map_values(|x: ExplainedRelationEvent| x@) == relation_explain_spec(events@, opt_str_view(trace_id)),
        r.count == r.items@.len(),
        r.reason_counts@ == tally(
            relation_explain_spec(events@, opt_str_view(trace_id)).map_values(|x: ExplainedView| x.reason_code),
        ),
{
    let ghost all = events@;
    let ghost tr = opt_str_view(trace_id);
    let mut rest = events;
    let mut explained: Vec<ExplainedRelationEvent> = Vec::new();
    let mut stamps: Vec<u64> = Vec::new();
    let mut i: usize = 0;
    let n = rest.len();
    while rest.len() > 0
        invariant
            n == all.len(),
            i + rest@.len() == n,
            rest@ =~= all.skip(i as int),
            tr == opt_str_view(trace_id),
            explained@.map_values(|x: ExplainedRelationEvent| x@) == events_on_trace(all.take(i as int), tr).map_values(
                |e: RelationLogEvent| explain_spec(e),
            ),
            stamps@ == events_on_trace(all.take(i as int), tr).map_values(|e: RelationLogEvent| e.created_at_ms),
        decreases rest@.len(),
    {
        let e = rest.remove(0);
        assert(e == all[i as int]) by {
            assert(all.skip(i as int)[0] == all[i as int]);
        }
        assert(all.take(i + 1).drop_last() =~= all.take(i as int));
        let keep = match trace_id {
            None => true,
            Some(t) => chars_eq_str(&chars_of(e.trace_id.as_str()), t),
        };
        if keep {
            let ghost x0 = explained@.map_values(|x: ExplainedRelationEvent| x@);
            let ghost s0 = stamps@;
            let ghost ev = e;
            let st = e.created_at_ms;
            explained.push(explain_event(e));
            stamps.push(st);
            assert(explained@.map_values(|x: ExplainedRelationEvent| x@) =~= x0.push(explain_spec(ev)));
            assert(stamps@ =~= s0.push(ev.created_at_ms));
        }
        i = i + 1;
        assert(rest@ =~= all.skip(i as int)) by {
            assert forall|m: int| 0 <= m < rest@.len() implies rest@[m] == all.skip(i as int)[m] by {
                assert(all.skip(i - 1)[m + 1] == all[i + m]);
            }
        }
    }
    assert(all.take(n as int) =~= all);
    let ghost xs = explained@;
    let sorted = sort_by_stamps(explained, stamps);
    proof {
        lemma_sorted_by_stamps_map(xs, stamps@, |x: ExplainedRelationEvent| x@);
    }
    let ghost items = relation_explain_spec(all, tr);
    let ghost codes = items.map_values(|x: ExplainedView| x.reason_code);
    assert(sorted@.map_values(|x: ExplainedRelationEvent| x@) == items);
    let mut counts: KeyedMap<usize> = KeyedMap::new();
    let mut j: usize = 0;
    while j < sorted.len()
        invariant
            j <= sorted@.len(),
            sorted@.map_values(|x: ExplainedRelationEvent| x@) == items,
            codes == items.map_values(|x: ExplainedView| x.reason_code),
            counts@ == tally(codes.take(j as int)),
        decreases sorted.len() - j,
    {
        assert(codes.take(j + 1).drop_last() =~= codes.take(j as int));
        assert(codes.take(j + 1).last() == sorted@[j as int].reason_code@);
        proof {
            lemma_tally_bound(codes.take(j as int));
        }
        counts.increment(sorted[j].reason_code.clone());
        j = j + 1;
    }
    assert(codes.take(codes.len() as int) =~= codes);
    RelationExplainView { count: sorted.len(), reason_counts: counts, items: sorted }
}

// ---------------------------------------------------------------------------
// The relation graph and its status.
// ---------------------------------------------------------------------------

/// A current edge of the relation graph as stored, with its payload.
#[derive(Debug)]
pub struct RelationGraphEdge {
    pub edge_id: String,
    pub trace_id: String,
    pub from_node: String,
    pub to_node: String,
    pub edge_type: String,
    pub evidence_ref: String,
    pub payload: JsonValue,
    pub updated_at_ms: u64,
}

/// An edge as the graph view shows it: the payload's `reason`, if any, in
/// place of the payload.
#[derive(Debug)]
pub struct GraphEdgeItem {
    pub edge_id: String,
    pub from_node: String,
    pub to_node: String,
    pub edge_type: String,
    pub trace_id: String,
    pub evidence_ref: String,
    pub reason: Option<JsonValue>,
    pub updated_at_ms: u64,
}

/// The relation graph of a session: its nodes (sorted, each once) and edges.
#[derive(Debug)]
pub struct RelationGraphView {
    pub node_count: usize,
    pub edge_count: usize,
    pub nodes: Vec<String>,
    pub edges: Vec<GraphEdgeItem>,
}

pub open spec fn edges_on_trace(es: Seq<RelationGraphEdge>, trace: Option<Seq<char>>) -> Seq<RelationGraphEdge>
    decreases es.len(),
{
    if es.len() == 0 {
        Seq::empty()
    } else {
        let r = edges_on_trace(es.drop_last(), trace);
        if trace is None || Some(es.last().trace_id@) == trace {
            r.push(es.last())
        } else {
            r
        }
    }
}

/// The graph item of an edge.
pub open spec fn item_matches(x: GraphEdgeItem, e: RelationGraphEdge) -> bool {
    &&& x.edge_id@ == e.edge_id@
    &&& x.from_node@ == e.from_node@
    &&& x.to_node@ == e.to_node@
    &&& x.edge_type@ == e.edge_type@
    &&& x.trace_id@ == e.trace_id@
    &&& x.evidence_ref@ == e.evidence_ref@
    &&& x.reason == member_spec(e.payload, "reason"@)
    &&& x.updated_at_ms == e.updated_at_ms
}

/// The node is an endpoint of one of the edges.
pub open spec fn is_endpoint(es: Seq<RelationGraphEdge>, n: Seq<char>) -> bool {
    exists|i: int| 0 <= i < es.len() && ((#[trigger] es[i]).from_node@ == n || es[i].to_node@ == n)
}

/// Takes the member `key` out of a value (`get(key).cloned()`).
fn take_member(v: JsonValue, key: &str) -> (r: Option<JsonValue>)
    ensures
        r == member_spec(v, key@),
{
    match v {
        JsonValue::Object(members) => {
            let ghost ms = members@;
            let mut members = members;
            let mut i: usize = 0;
            while i < members.len()
                invariant
                    i <= members@.len(),
                    members@ == ms,
                    member_spec(v, key@) == crate::memory::json::member_from(ms, key@, 0),
                    crate::memory::json::member_from(ms, key@, 0) == crate::memory::json::member_from(ms, key@, i as int),
                decreases members.len() - i,
            {
                if chars_eq_str(&chars_of(members[i].0.as_str()), key) {
                    let m = members.remove(i);
                    return Some(m.1);
                }
                i = i + 1;
            }
            None
        },
        _ => None,
    }
}

/// The relation graph of a session (`edges`, as listed), on `trace_id` when
/// one is given: every endpoint once, in text order, and each edge with the
/// reason its payload gives, in the order listed.
pub fn relation_graph_view(edges: Vec<RelationGraphEdge>, trace_id: Option<&str>) -> (r: RelationGraphView)
    ensures
        r.edge_count == edges_on_trace(edges@, opt_str_view(trace_id)).len(),
        r.edges@.len() == r.edge_count,
        forall|k: int|
            0 <= k < r.edges@.len() ==> item_matches(#[trigger] r.edges@[k], edges_on_trace(edges@, opt_str_view(trace_id))[k]),
        strictly_sorted(string_views(r.nodes@)),
        forall|n: Seq<char>|
            string_views(r.nodes@).contains(n) <==> is_endpoint(edges_on_trace(edges@, opt_str_view(trace_id)), n),
        r.node_count == r.nodes@.len(),
{
    let ghost all = edges@;
    let ghost tr = opt_str_view(trace_id);
    let mut rest = edges;
    let mut items: Vec<GraphEdgeItem> = Vec::new();
    let mut ends: Vec<String> = Vec::new();
    let mut i: usize = 0;
    let n = rest.len();
    while rest.len() > 0
        invariant
            n == all.len(),
            i + rest@.len() == n,
            rest@ =~= all.skip(i as int),
            tr == opt_str_view(trace_id),
            items@.len() == edges_on_trace(all.take(i as int), tr).len(),
            forall|k: int| 0 <= k < items@.len() ==> item_matches(#[trigger] items@[k], edges_on_trace(all.take(i as int), tr)[k]),
            forall|x: Seq<char>| string_views(ends@).contains(x) <==> is_endpoint(edges_on_trace(all.take(i as int), tr), x),
        decreases rest@.len(),
    {
        let e = rest.remove(0);
        assert(e == all[i as int]) by {
            assert(all.skip(i as int)[0] == all[i as int]);
        }
        let ghost k0 = edges_on_trace(all.take(i as int), tr);
        assert(all.take(i + 1).drop_last() =~= all.take(i as int));
        let keep = match trace_id {
            None => true,
            Some(t) => chars_eq_str(&chars_of(e.trace_id.as_str()), t),
        };
        if keep {
            let ghost ev = e;
            let ghost k1 = k0.push(ev);
            assert(edges_on_trace(all.take(i + 1), tr) == k1);
            let ghost e0 = string_views(ends@);
            assert(forall|x: Seq<char>| e0.contains(x) <==> is_endpoint(k0, x));
            ends.push(e.from_node.clone());
            ends.push(e.to_node.clone());
            assert(string_views(ends@) =~= e0.push(ev.from_node@).push(ev.to_node@));
            assert forall|x: Seq<char>| string_views(ends@).contains(x) <==> is_endpoint(k1, x) by {
                if string_views(ends@).contains(x) {
                    let w = choose|w: int| 0 <= w < string_views(ends@).len() && string_views(ends@)[w] == x;
                    if w < e0.len() {
                        assert(e0[w] == x);
                        assert(e0.contains(x));
                        assert(is_endpoint(k0, x));
                        let q = choose|q: int| 0 <= q < k0.len() && ((#[trigger] k0[q]).from_node@ == x || k0[q].to_node@ == x);
                        assert(k1[q] == k0[q]);
                    } else {
                        assert(k1[k0.len() as int] == ev);
                    }
                }
                if is_endpoint(k1, x) {
                    let q = choose|q: int| 0 <= q < k1.len() && ((#[trigger] k1[q]).from_node@ == x || k1[q].to_node@ == x);
                    if q < k0.len() {
                        assert(k0[q] == k1[q]);
                        assert(is_endpoint(k0, x));
                        assert(e0.contains(x));
                        let w = choose|w: int| 0 <= w < e0.len() && e0[w] == x;
                        assert(string_views(ends@)[w] == x);
                    } else {
                        if ev.from_node@ == x {
                            assert(string_views(ends@)[e0.len() as int] == x);
                        } else {
                            assert(string_views(ends@)[e0.len() as int + 1] == x);
                        }
                    }
                }
            }
            let reason = take_member(e.payload, "reason");
            items.push(
                GraphEdgeItem {
                    edge_id: e.edge_id,
                    from_node: e.from_node,
                    to_node: e.to_node,
                    edge_type: e.edge_type,
                    trace_id: e.trace_id,
                    evidence_ref: e.evidence_ref,
                    reason,
                    updated_at_ms: e.updated_at_ms,
                },
            );
            assert(item_matches(items@[items@.len() - 1], ev));
        } else {
            assert(edges_on_trace(all.take(i + 1), tr) == k0);
        }
        i = i + 1;
        assert(rest@ =~= all.skip(i as int)) by {
            assert forall|m: int| 0 <= m < rest@.len() implies rest@[m] == all.skip(i as int)[m] by {
                assert(all.skip(i - 1)[m + 1] == all[i + m]);
            }
        }
    }
    assert(all.take(n as int) =~= all);
    let nodes = sorted_distinct(&ends);
    RelationGraphView { node_count: nodes.len(), edge_count: items.len(), nodes, edges: items }
}

/// How many relation events rejected an edge, and how many upserted an edge
/// or a node (types in any ASCII case).
pub open spec fn count_events(es: Seq<RelationLogEvent>, blocked: bool) -> nat
    decreases es.len(),
{
    if es.len() == 0 {
        0
    } else {
        let e = es.last();
        let hit = if blocked {
            eq_ignore_case(e.event_type@, "edge_rejected"@)
        } else {
            eq_ignore_case(e.event_type@, "edge_upserted"@) || eq_ignore_case(e.event_type@, "node_upserted"@)
        };
        count_events(es.drop_last(), blocked) + if hit {
            1nat
        } else {
            0nat
        }
    }
}

/// The position of the latest event, the last of those equally late.
pub open spec fn latest_last(es: Seq<RelationLogEvent>) -> Option<int>
    decreases es.len(),
{
    if es.len() == 0 {
        None
    } else {
        match latest_last(es.drop_last()) {
            None => Some(es.len() - 1),
            Some(j) => if es.last().created_at_ms >= es[j].created_at_ms {
                Some(es.len() - 1)
            } else {
                Some(j)
            },
        }
    }
}

proof fn lemma_latest_last_bound(es: Seq<RelationLogEvent>)
    ensures
        latest_last(es) matches Some(j) ==> 0 <= j < es.len(),
        es.len() > 0 ==> latest_last(es) is Some,
    decreases es.len(),
{
    if es.len() > 0 {
        lemma_latest_last_bound(es.drop_last());
    }
}

proof fn lemma_count_events_bound(es: Seq<RelationLogEvent>, b: bool)
    ensures
        count_events(es, b) <= es.len(),
    decreases es.len(),
{
    if es.len() > 0 {
        lemma_count_events_bound(es.drop_last(), b);
    }
}

/// The relation status counts of a session's events: rejected, upserted, and
/// which event is the latest.
#[derive(Debug)]
pub struct RelationStatusCounts {
    pub blocked: usize,
    pub allowed: usize,
    pub latest_event: Option<usize>,
}

/// Counts a session's relation events for its status view (see
/// `count_events` and `latest_last`).
pub fn relation_status_counts(events: &Vec<RelationLogEvent>) -> (r: RelationStatusCounts)
    ensures
        r.blocked == count_events(events@, true),
        r.allowed == count_events(events@, false),
        match r.latest_event {
            Some(j) => latest_last(events@) == Some(j as int),
            None => latest_last(events@) is None,
        },
{
    let mut blocked: usize = 0;
    let mut allowed: usize = 0;
    let mut latest: Option<usize> = None;
    let mut i: usize = 0;
    while i < events.len()
        invariant
            i <= events@.len(),
            blocked == count_events(events@.take(i as int), true),
            allowed == count_events(events@.take(i as int), false),
            match latest {
                Some(j) => latest_last(events@.take(i as int)) == Some(j as int) && j < i,
                None => latest_last(events@.take(i as int)) is None,
            },
        decreases events.len() - i,
    {
        let ghost t1 = events@.take(i + 1);
        assert(t1.drop_last() =~= events@.take(i as int));
        assert(t1.last() == events@[i as int]);
        proof {
            lemma_count_events_bound(events@.take(i as int), true);
            lemma_count_events_bound(events@.take(i as int), false);
            lemma_latest_last_bound(events@.take(i as int));
        }
        let e = &events[i];
        if eq_ignore_case_str(&e.event_type, "edge_rejected") {
            blocked = blocked + 1;
        }
        if eq_ignore_case_str(&e.event_type, "edge_upserted") || eq_ignore_case_str(&e.event_type, "node_upserted") {
            allowed = allowed + 1;
        }
        match latest {
            None => {
                latest = Some(i);
            },
            Some(j) => {
                assert(t1[j as int] == events@[j as int]);
                if e.created_at_ms >= events[j].created_at_ms {
                    latest = Some(i);
                }
            },
        }
        i = i + 1;
    }
    assert(events@.take(events@.len() as int) =~= events@);
    RelationStatusCounts { blocked, allowed, latest_event: latest }
}

// ---------------------------------------------------------------------------
// Foundry feedback and learning-signal rejections.
// ---------------------------------------------------------------------------

/// How the foundry's feedback records are spread over their kinds.
#[derive(Debug)]
pub struct FoundryFeedbackSummary {
    pub total: usize,
    pub hit: u64,
    pub miss: u64,
    pub failed_trigger: u64,
    pub missing_script: u64,
    pub bad_json: u64,
}

/// How many records have `kind` as the text of their value's `kind`.
pub open spec fn count_kind(rs: Seq<StoreRecord>, kind: Seq<char>) -> nat
    decreases rs.len(),
{
    if rs.len() == 0 {
        0
    } else {
        count_kind(rs.drop_last(), kind) + if member_text_spec(rs.last().value, "kind"@) == Some(kind) {
            1nat
        } else {
            0nat
        }
    }
}

proof fn lemma_count_kind_bound(rs: Seq<StoreRecord>, kind: Seq<char>)
    ensures
        count_kind(rs, kind) <= rs.len(),
    decreases rs.len(),
{
    if rs.len() > 0 {
        lemma_count_kind_bound(rs.drop_last(), kind);
    }
}

/// Counts the foundry's feedback records by kind.
pub fn summarize_foundry_feedback(records: &Vec<StoreRecord>) -> (r: FoundryFeedbackSummary)
    ensures
        r.total == records@.len(),
        r.hit == count_kind(records@, "hit"@),
        r.miss == count_kind(records@, "miss"@),
        r.failed_trigger == count_kind(records@, "failed_trigger"@),
        r.missing_script == count_kind(records@, "missing_script"@),
        r.bad_json == count_kind(records@, "bad_json"@),
{
    let mut hit: u64 = 0;
    let mut miss: u64 = 0;
    let mut failed: u64 = 0;
    let mut missing: u64 = 0;
    let mut bad: u64 = 0;
    let mut i: usize = 0;
    while i < records.len()
        invariant
            i <= records@.len(),
            hit == count_kind(records@.take(i as int), "hit"@),
            miss == count_kind(records@.take(i as int), "miss"@),
            failed == count_kind(records@.take(i as int), "failed_trigger"@),
            missing == count_kind(records@.take(i as int), "missing_script"@),
            bad == count_kind(records@.take(i as int), "bad_json"@),
        decreases records.len() - i,
    {
        let ghost t1 = records@.take(i + 1);
        assert(t1.drop_last() =~= records@.take(i as int));
        assert(t1.last() == records@[i as int]);
        proof {
            reveal_strlit("hit");
            reveal_strlit("miss");
            reveal_strlit("failed_trigger");
            reveal_strlit("missing_script");
            reveal_strlit("bad_json");
            let names = seq!["hit"@, "miss"@, "failed_trigger"@, "missing_script"@, "bad_json"@];
            assert(names[0][0] != names[1][0] && names[0][0] != names[2][0] && names[0][0] != names[3][0]
                && names[0][0] != names[4][0]);
            assert(names[1][1] != names[2][1] && names[1][0] != names[4][0] && names[1].len() != names[3].len());
            assert(names[2][0] != names[3][0] && names[2][0] != names[4][0]);
            assert(names[3][0] != names[4][0]);
            lemma_count_kind_bound(records@.take(i as int), "hit"@);
            lemma_count_kind_bound(records@.take(i as int), "miss"@);
            lemma_count_kind_bound(records@.take(i as int), "failed_trigger"@);
            lemma_count_kind_bound(records@.take(i as int), "missing_script"@);
            lemma_count_kind_bound(records@.take(i as int), "bad_json"@);
        }
        match json_member_text(&records[i].value, "kind") {
            Some(k) => {
                let kc = chars_of(k.as_str());
                if chars_eq_str(&kc, "hit") {
                    hit = hit + 1;
                } else if chars_eq_str(&kc, "miss") {
                    miss = miss + 1;
                } else if chars_eq_str(&kc, "failed_trigger") {
                    failed = failed + 1;
                } else if chars_eq_str(&kc, "missing_script") {
                    missing = missing + 1;
                } else if chars_eq_str(&kc, "bad_json") {
                    bad = bad + 1;
                }
            },
            None => {},
        }
        i = i + 1;
    }
    assert(records@.take(records@.len() as int) =~= records@);
    FoundryFeedbackSummary { total: records.len(), hit, miss, failed_trigger: failed, missing_script: missing, bad_json: bad }
}

/// A record of a refused learning signal: its value's `reason` is text
/// starting with `learning_signal.`.
pub open spec fn is_signal_rejection(r: StoreRecord) -> bool {
    match member_text_spec(r.value, "reason"@) {
        Some(t) => crate::text::starts_with(t, "learning_signal."@),
        None => false,
    }
}

/// The positions of the rejection records, in order.
pub open spec fn rejection_positions(rs: Seq<StoreRecord>) -> Seq<usize>
    decreases rs.len(),
{
    if rs.len() == 0 {
        Seq::empty()
    } else {
        let r = rejection_positions(rs.drop_last());
        if is_signal_rejection(rs.last()) {
            r.push((rs.len() - 1) as usize)
        } else {
            r
        }
    }
}

/// The rejection records' positions by creation time (an unreadable time as 0).
pub open spec fn rejections_by_time(rs: Seq<StoreRecord>) -> Seq<usize> {
    let p = rejection_positions(rs);
    sorted_by_stamps(p, p.map_values(|i: usize| stamp_of(rs[i as int].value, "created_at_ms"@)))
}

/// The refused learning signals on record: how many, the reason of the
/// latest, and the positions of the sixteen latest records, latest first.
#[derive(Debug)]
pub struct RejectionSummary {
    pub count: usize,
    pub latest_reason: Option<String>,
    pub latest_first: Vec<usize>,
}

/// Summarises the refused learning signals among `records` (see
/// `rejections_by_time`).
pub fn summarize_learning_signal_rejections(records: &Vec<StoreRecord>) -> (r: RejectionSummary)
    ensures
        ({
            let t = rejections_by_time(records@);
            &&& r.count == t.len()
            &&& crate::observability::signal::opt_view(r.latest_reason) == if t.len() == 0 {
                None
            } else {
                member_text_spec(records@[t.last() as int].value, "reason"@)
            }
            &&& r.latest_first@ == if t.len() <= 16 {
                t.reverse()
            } else {
                t.reverse().take(16)
            }
        }),
{
    let ghost rs = records@;
    let mut pos: Vec<usize> = Vec::new();
    let mut stamps: Vec<u64> = Vec::new();
    let mut i: usize = 0;
    while i < records.len()
        invariant
            i <= records@.len(),
            rs == records@,
            pos@ == rejection_positions(rs.take(i as int)),
            stamps@ == pos@.map_values(|j: usize| stamp_of(rs[j as int].value, "created_at_ms"@)),
            forall|k: int| 0 <= k < pos@.len() ==> #[trigger] pos@[k] < i,
        decreases records.len() - i,
    {
        let ghost t1 = rs.take(i + 1);
        assert(t1.drop_last() =~= rs.take(i as int));
        assert(t1.last() == rs[i as int]);
        let v = &records[i].value;
        let hit = match json_member_text(v, "reason") {
            Some(t) => crate::text::starts_with_str(&chars_of(t.as_str()), "learning_signal."),
            None => false,
        };
        if hit {
            let ghost p0 = pos@;
            pos.push(i);
            stamps.push(stamp_exec(v, "created_at_ms"));
            assert(stamps@ =~= pos@.map_values(|j: usize| stamp_of(rs[j as int].value, "created_at_ms"@)));
        }
        i = i + 1;
    }
    assert(rs.take(rs.len() as int) =~= rs);
    let ghost pv = pos@;
    let sorted = sort_by_stamps(pos, stamps);
    proof {
        crate::timeline::lemma_sorted_by_stamps_elements(pv, stamps@);
    }
    let ghost t = sorted@;
    assert(t == rejections_by_time(rs));
    assert forall|k: int| 0 <= k < t.len() implies #[trigger] t[k] < rs.len() by {
        assert(pv.contains(t[k]));
    }
    let latest = if sorted.len() == 0 {
        None
    } else {
        json_member_text(&records[sorted[sorted.len() - 1]].value, "reason")
    };
    let mut latest_first: Vec<usize> = Vec::new();
    let mut k: usize = 0;
    while k < sorted.len() && k < 16
        invariant
            k <= sorted@.len(),
            k <= 16,
            t == sorted@,
            latest_first@ =~= t.reverse().take(k as int),
        decreases 16 - k,
    {
        latest_first.push(sorted[sorted.len() - 1 - k]);
        assert(t.reverse().take(k + 1) =~= t.reverse().take(k as int).push(t[t.len() - 1 - k]));
        k = k + 1;
    }
    proof {
        if t.len() <= 16 {
            assert(t.reverse().take(t.len() as int) =~= t.reverse());
        }
    }
    RejectionSummary { count: sorted.len(), latest_reason: latest, latest_first }
}

// ---------------------------------------------------------------------------
// Storage shadow reads.
// ---------------------------------------------------------------------------

/// The outcome of reading one domain from both storage backends.
#[derive(Debug)]
pub struct ShadowReadDiff {
    pub domain: String,
    pub mismatch: bool,
    pub diff_classes: Vec<String>,
}

/// How the shadow reads of a session compare: whether any probe ran, how
/// many disagreed, and how many reports name each domain and each class of
/// difference.
#[derive(Debug)]
pub struct ShadowDiffSummary {
    pub enabled: bool,
    pub mismatch_count: usize,
    pub diff_class_counts: KeyedMap<usize>,
    pub domain_counts: KeyedMap<usize>,
}

pub open spec fn report_domains(rs: Seq<ShadowReadDiff>) -> Seq<Seq<char>> {
    rs.map_values(|r: ShadowReadDiff| r.domain@)
}

/// Every class of difference the reports name, report after report.
pub open spec fn report_classes(rs: Seq<ShadowReadDiff>) -> Seq<Seq<char>>
    decreases rs.len(),
{
    if rs.len() == 0 {
        Seq::empty()
    } else {
        report_classes(rs.drop_last()) + string_views(rs.last().diff_classes@)
    }
}

pub open spec fn count_mismatches(rs: Seq<ShadowReadDiff>) -> nat
    decreases rs.len(),
{
    if rs.len() == 0 {
        0
    } else {
        count_mismatches(rs.drop_last()) + if rs.last().mismatch {
            1nat
        } else {
            0nat
        }
    }
}

proof fn lemma_mismatch_bound(rs: Seq<ShadowReadDiff>)
    ensures
        count_mismatches(rs) <= rs.len(),
    decreases rs.len(),
{
    if rs.len() > 0 {
        lemma_mismatch_bound(rs.drop_last());
    }
}

/// Summarises a session's shadow-read reports (see `ShadowDiffSummary`).
pub fn shadow_diff_summary(reports: &Vec<ShadowReadDiff>) -> (r: ShadowDiffSummary)
    requires
        report_classes(reports@).len() <= usize::MAX,
    ensures
        r.enabled == (reports@.len() > 0),
        r.mismatch_count == count_mismatches(reports@),
        r.domain_counts@ == tally(report_domains(reports@)),
        r.diff_class_counts@ == tally(report_classes(reports@)),
{
    let mut classes: KeyedMap<usize> = KeyedMap::new();
    let mut domains: KeyedMap<usize> = KeyedMap::new();
    let mut mismatches: usize = 0;
    let mut i: usize = 0;
    proof {
        lemma_classes_prefix(reports@, reports@.len() as int);
        assert(reports@.take(reports@.len() as int) =~= reports@);
    }
    while i < reports.len()
        invariant
            i <= reports@.len(),
            report_classes(reports@).len() <= usize::MAX,
            forall|k: int| 0 <= k <= reports@.len() ==> #[trigger] report_classes(reports@.take(k)).len() <= report_classes(reports@).len(),
            mismatches == count_mismatches(reports@.take(i as int)),
            domains@ == tally(report_domains(reports@.take(i as int))),
            classes@ == tally(report_classes(reports@.take(i as int))),
        decreases reports.len() - i,
    {
        let ghost t0 = reports@.take(i as int);
        let ghost t1 = reports@.take(i + 1);
        assert(t1.drop_last() =~= t0);
        assert(t1.last() == reports@[i as int]);
        assert(report_domains(t1).drop_last() =~= report_domains(t0));
        proof {
            lemma_mismatch_bound(t0);
            lemma_tally_bound(report_domains(t0));
        }
        let rep = &reports[i];
        if rep.mismatch {
            mismatches = mismatches + 1;
        }
        domains.increment(rep.domain.clone());
        let ghost base = report_classes(t0);
        let mut j: usize = 0;
        while j < rep.diff_classes.len()
            invariant
                j <= rep.diff_classes@.len(),
                base == report_classes(t0),
                base.len() + rep.diff_classes@.len() == report_classes(t1).len(),
                report_classes(t1).len() <= usize::MAX,
                classes@ == tally(base + string_views(rep.diff_classes@).take(j as int)),
            decreases rep.diff_classes.len() - j,
        {
            let ghost cur = base + string_views(rep.diff_classes@).take(j as int);
            let ghost nxt = base + string_views(rep.diff_classes@).take(j + 1);
            assert(nxt.drop_last() =~= cur);
            assert(nxt.last() == rep.diff_classes@[j as int]@);
            proof {
                lemma_tally_bound(cur);
            }
            classes.increment(rep.diff_classes[j].clone());
            j = j + 1;
        }
        assert(string_views(rep.diff_classes@).take(rep.diff_classes@.len() as int) =~= string_views(rep.diff_classes@));
        i = i + 1;
    }
    assert(reports@.take(reports@.len() as int) =~= reports@);
    ShadowDiffSummary { enabled: reports.len() > 0, mismatch_count: mismatches, diff_class_counts: classes, domain_counts: domains }
}

proof fn lemma_classes_prefix(rs: Seq<ShadowReadDiff>, n: int)
    requires
        0 <= n <= rs.len(),
    ensures
        forall|k: int| 0 <= k <= n ==> #[trigger] report_classes(rs.take(k)).len() <= report_classes(rs.take(n)).len(),
    decreases n,
{
    if n > 0 {
        lemma_classes_prefix(rs, n - 1);
        assert(rs.take(n).drop_last() =~= rs.take(n - 1));
    }
    if n == rs.len() {
        assert(rs.take(n) =~= rs);
    }
}

} // verus!
