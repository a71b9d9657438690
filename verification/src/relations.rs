//! Consistency checks of a session's relation graph: edges and events
//! without evidence, events that name a missing edge, edges with an empty
//! endpoint, contradicting and duplicated relations, and cycles.
use vstd::prelude::*;

use crate::digest::{default_hash_relation, relation_hash};
use crate::groups::{contains_text, dedup_first, dedup_texts, lemma_dedup_first, text_views};
use crate::observability::business::string_views;
use crate::observability::signal::opt_view;
use crate::text::{chars_eq, chars_of, is_alnum, is_blank, lower, lower_char, is_ascii_alnum, push_decimal, push_str, string_of, to_lower_char, trim, trimmed};

verus! {

/// The current state of one edge of the relation graph.
#[derive(Debug)]
pub struct RelationEdge {
    pub edge_id: String,
    pub trace_id: String,
    pub from_node: String,
    pub to_node: String,
    pub edge_type: String,
    pub evidence_ref: String,
    pub updated_at_ms: u64,
}

/// An event of the relation graph; `edge_ref` is the `edge_id` its payload
/// names, when the payload names one as a string.
#[derive(Debug)]
pub struct RelationEvent {
    pub event_id: String,
    pub trace_id: String,
    pub event_type: String,
    pub evidence_ref: String,
    pub edge_ref: Option<String>,
    pub created_at_ms: u64,
}

/// An event that names an edge the graph does not hold.
#[derive(Debug)]
pub struct MissingEdgeRef {
    pub event_id: String,
    pub edge_id: String,
    pub trace_id: String,
}

/// An edge with an empty endpoint.
#[derive(Debug)]
pub struct OrphanEdge {
    pub edge_id: String,
    pub trace_id: String,
}

/// A pair of nodes related both as approved-by and as blocked-by; `kinds`
/// are the normalised kinds of all edges between them.
#[derive(Debug)]
pub struct RelationConflict {
    pub from_node: String,
    pub to_node: String,
    pub kinds: Vec<String>,
}

/// Several edges of one kind between the same two nodes.
#[derive(Debug)]
pub struct DuplicateRelation {
    pub from_node: String,
    pub to_node: String,
    pub edge_type: String,
    pub edge_ids: Vec<String>,
}

pub open spec fn is_blank_text(s: Seq<char>) -> bool {
    trim(s).len() == 0
}

/// An edge kind reduced to its ASCII letters and digits, lower-cased.
pub open spec fn normalize_kind_spec(raw: Seq<char>) -> Seq<char>
    decreases raw.len(),
{
    if raw.len() == 0 {
        Seq::empty()
    } else {
        let rest = normalize_kind_spec(raw.drop_last());
        if is_ascii_alnum(raw.last()) {
            rest.push(lower_char(raw.last()))
        } else {
            rest
        }
    }
}

pub fn normalize_relation_kind(raw: &str) -> (r: String)
    ensures
        r@ == normalize_kind_spec(raw@),
{
    let v = chars_of(raw);
    let mut out: Vec<char> = Vec::new();
    let mut i: usize = 0;
    while i < v.len()
        invariant
            i <= v@.len(),
            v@ == raw@,
            out@ == normalize_kind_spec(v@.take(i as int)),
        decreases v.len() - i,
    {
        assert(v@.take(i + 1).drop_last() =~= v@.take(i as int));
        if is_alnum(v[i]) {
            out.push(to_lower_char(v[i]));
        }
        i = i + 1;
    }
    assert(v@.take(v@.len() as int) =~= v@);
    string_of(&out)
}

pub open spec fn is_orphan(e: RelationEdge) -> bool {
    is_blank_text(e.from_node@) || is_blank_text(e.to_node@)
}

/// Ids of the edges whose evidence reference is blank.
pub open spec fn edges_missing_evidence(edges: Seq<RelationEdge>) -> Seq<Seq<char>>
    decreases edges.len(),
{
    if edges.len() == 0 {
        Seq::empty()
    } else {
        let rest = edges_missing_evidence(edges.drop_last());
        if is_blank_text(edges.last().evidence_ref@) {
            rest.push(edges.last().edge_id@)
        } else {
            rest
        }
    }
}

/// Ids of the events whose evidence reference is blank.
pub open spec fn events_missing_evidence(events: Seq<RelationEvent>) -> Seq<Seq<char>>
    decreases events.len(),
{
    if events.len() == 0 {
        Seq::empty()
    } else {
        let rest = events_missing_evidence(events.drop_last());
        if is_blank_text(events.last().evidence_ref@) {
            rest.push(events.last().event_id@)
        } else {
            rest
        }
    }
}

pub open spec fn has_edge_id(edges: Seq<RelationEdge>, id: Seq<char>) -> bool {
    exists|i: int| 0 <= i < edges.len() && (#[trigger] edges[i]).edge_id@ == id
}

/// The event and edge ids of events that name an edge the graph lacks.
pub open spec fn dangling_refs(edges: Seq<RelationEdge>, events: Seq<RelationEvent>) -> Seq<(Seq<char>, Seq<char>, Seq<char>)>
    decreases events.len(),
{
    if events.len() == 0 {
        Seq::empty()
    } else {
        let rest = dangling_refs(edges, events.drop_last());
        let e = events.last();
        match e.edge_ref {
            Some(id) => if !has_edge_id(edges, id@) {
                rest.push((e.event_id@, id@, e.trace_id@))
            } else {
                rest
            },
            None => rest,
        }
    }
}

/// The edges with an empty endpoint, as (edge id, trace id).
pub open spec fn orphan_edges_spec(edges: Seq<RelationEdge>) -> Seq<(Seq<char>, Seq<char>)>
    decreases edges.len(),
{
    if edges.len() == 0 {
        Seq::empty()
    } else {
        let rest = orphan_edges_spec(edges.drop_last());
        if is_orphan(edges.last()) {
            rest.push((edges.last().edge_id@, edges.last().trace_id@))
        } else {
            rest
        }
    }
}

pub open spec fn missing_ref_view(m: MissingEdgeRef) -> (Seq<char>, Seq<char>, Seq<char>) {
    (m.event_id@, m.edge_id@, m.trace_id@)
}

pub open spec fn orphan_view(o: OrphanEdge) -> (Seq<char>, Seq<char>) {
    (o.edge_id@, o.trace_id@)
}

fn text(s: &str) -> (r: String)
    ensures
        r@ == s@,
{
    string_of(&chars_of(s))
}

fn blank(s: &String) -> (r: bool)
    ensures
        r == is_blank_text(s@),
{
    is_blank(&chars_of(s.as_str()))
}

fn has_edge_id_exec(edges: &Vec<RelationEdge>, id: &String) -> (r: bool)
    ensures
        r == has_edge_id(edges@, id@),
{
    let idv = chars_of(id.as_str());
    let mut i: usize = 0;
    while i < edges.len()
        invariant
            i <= edges@.len(),
            idv@ == id@,
            forall|j: int| 0 <= j < i ==> (#[trigger] edges@[j]).edge_id@ != id@,
        decreases edges.len() - i,
    {
        if chars_eq(&chars_of(edges[i].edge_id.as_str()), &idv) {
            return true;
        }
        i = i + 1;
    }
    false
}

/// Ids of edges and of events without evidence, the events that name a
/// missing edge, and the edges with an empty endpoint.
pub fn reference_checks(edges: &Vec<RelationEdge>, events: &Vec<RelationEvent>) -> (r: (
    Vec<String>,
    Vec<String>,
    Vec<MissingEdgeRef>,
    Vec<OrphanEdge>,
))
    ensures
        string_views(r.0@) == edges_missing_evidence(edges@),
        string_views(r.1@) == events_missing_evidence(events@),
        r.2@.map_values(|m: MissingEdgeRef| missing_ref_view(m)) == dangling_refs(edges@, events@),
        r.3@.map_values(|o: OrphanEdge| orphan_view(o)) == orphan_edges_spec(edges@),
{
    let mut no_evidence_edges: Vec<String> = Vec::new();
    let mut orphans: Vec<OrphanEdge> = Vec::new();
    let mut i: usize = 0;
    while i < edges.len()
        invariant
            i <= edges@.len(),
            string_views(no_evidence_edges@) == edges_missing_evidence(edges@.take(i as int)),
            orphans@.map_values(|o: OrphanEdge| orphan_view(o)) == orphan_edges_spec(edges@.take(i as int)),
        decreases edges.len() - i,
    {
        assert(edges@.take(i + 1).drop_last() =~= edges@.take(i as int));
        let e = &edges[i];
        let ghost a0 = string_views(no_evidence_edges@);
        let ghost o0 = orphans@.map_values(|o: OrphanEdge| orphan_view(o));
        if blank(&e.evidence_ref) {
            no_evidence_edges.push(e.edge_id.clone());
            assert(string_views(no_evidence_edges@) =~= a0.push(e.edge_id@));
        }
        if blank(&e.from_node) || blank(&e.to_node) {
            orphans.push(OrphanEdge { edge_id: e.edge_id.clone(), trace_id: e.trace_id.clone() });
            assert(orphans@.map_values(|o: OrphanEdge| orphan_view(o)) =~= o0.push(
                (e.edge_id@, e.trace_id@),
            ));
        }
        i = i + 1;
    }
    assert(edges@.take(edges@.len() as int) =~= edges@);
    let mut no_evidence_events: Vec<String> = Vec::new();
    let mut dangling: Vec<MissingEdgeRef> = Vec::new();
    let mut j: usize = 0;
    while j < events.len()
        invariant
            j <= events@.len(),
            string_views(no_evidence_events@) == events_missing_evidence(events@.take(j as int)),
            dangling@.map_values(|m: MissingEdgeRef| missing_ref_view(m)) == dangling_refs(
                edges@,
                events@.take(j as int),
            ),
        decreases events.len() - j,
    {
        assert(events@.take(j + 1).drop_last() =~= events@.take(j as int));
        let ev = &events[j];
        let ghost a0 = string_views(no_evidence_events@);
        let ghost d0 = dangling@.map_values(|m: MissingEdgeRef| missing_ref_view(m));
        if blank(&ev.evidence_ref) {
            no_evidence_events.push(ev.event_id.clone());
            assert(string_views(no_evidence_events@) =~= a0.push(ev.event_id@));
        }
        if let Some(id) = &ev.edge_ref {
            if !has_edge_id_exec(edges, id) {
                dangling.push(
                    MissingEdgeRef {
                        event_id: ev.event_id.clone(),
                        edge_id: id.clone(),
                        trace_id: ev.trace_id.clone(),
                    },
                );
                assert(dangling@.map_values(|m: MissingEdgeRef| missing_ref_view(m)) =~= d0.push(
                    (ev.event_id@, id@, ev.trace_id@),
                ));
            }
        }
        j = j + 1;
    }
    assert(events@.take(events@.len() as int) =~= events@);
    (no_evidence_edges, no_evidence_events, dangling, orphans)
}

pub open spec fn edge_pair(e: RelationEdge) -> (Seq<char>, Seq<char>) {
    (trim(e.from_node@), trim(e.to_node@))
}

pub open spec fn edge_kind(e: RelationEdge) -> Seq<char> {
    normalize_kind_spec(e.edge_type@)
}

pub open spec fn edge_triple(e: RelationEdge) -> (Seq<char>, Seq<char>, Seq<char>) {
    (trim(e.from_node@), trim(e.to_node@), edge_kind(e))
}

/// The kinds of the edges between the two nodes of `p`, in edge order.
pub open spec fn kinds_between(edges: Seq<RelationEdge>, p: (Seq<char>, Seq<char>)) -> Seq<Seq<char>>
    decreases edges.len(),
{
    if edges.len() == 0 {
        Seq::empty()
    } else {
        let rest = kinds_between(edges.drop_last(), p);
        if edge_pair(edges.last()) == p {
            rest.push(edge_kind(edges.last()))
        } else {
            rest
        }
    }
}

/// The ids of the edges of kind `t.2` between the nodes `t.0` and `t.1`.
pub open spec fn ids_with_triple(edges: Seq<RelationEdge>, t: (Seq<char>, Seq<char>, Seq<char>)) -> Seq<Seq<char>>
    decreases edges.len(),
{
    if edges.len() == 0 {
        Seq::empty()
    } else {
        let rest = ids_with_triple(edges.drop_last(), t);
        if edge_triple(edges.last()) == t {
            rest.push(edges.last().edge_id@)
        } else {
            rest
        }
    }
}

pub open spec fn is_conflict(edges: Seq<RelationEdge>, p: (Seq<char>, Seq<char>)) -> bool {
    kinds_between(edges, p).contains("approvedby"@) && kinds_between(edges, p).contains("blockedby"@)
}

/// The node pairs in conflict, in the order they first appear.
pub open spec fn conflicting_pairs(edges: Seq<RelationEdge>, pairs: Seq<(Seq<char>, Seq<char>)>) -> Seq<(Seq<char>, Seq<char>)>
    decreases pairs.len(),
{
    if pairs.len() == 0 {
        Seq::empty()
    } else {
        let rest = conflicting_pairs(edges, pairs.drop_last());
        if is_conflict(edges, pairs.last()) {
            rest.push(pairs.last())
        } else {
            rest
        }
    }
}

/// The (from, to, kind) triples held by more than one edge, in the order
/// they first appear.
pub open spec fn duplicated_triples(edges: Seq<RelationEdge>, triples: Seq<(Seq<char>, Seq<char>, Seq<char>)>) -> Seq<(Seq<char>, Seq<char>, Seq<char>)>
    decreases triples.len(),
{
    if triples.len() == 0 {
        Seq::empty()
    } else {
        let rest = duplicated_triples(edges, triples.drop_last());
        if ids_with_triple(edges, triples.last()).len() > 1 {
            rest.push(triples.last())
        } else {
            rest
        }
    }
}

pub open spec fn conflicts_spec(edges: Seq<RelationEdge>) -> Seq<(Seq<char>, Seq<char>)> {
    conflicting_pairs(edges, dedup_first(edges.map_values(|e: RelationEdge| edge_pair(e))))
}

pub open spec fn duplicates_spec(edges: Seq<RelationEdge>) -> Seq<(Seq<char>, Seq<char>, Seq<char>)> {
    duplicated_triples(edges, dedup_first(edges.map_values(|e: RelationEdge| edge_triple(e))))
}

/// A reported conflict: its nodes, and the distinct kinds between them.
pub open spec fn conflict_matches(c: RelationConflict, edges: Seq<RelationEdge>, p: (Seq<char>, Seq<char>)) -> bool {
    &&& (c.from_node@, c.to_node@) == p
    &&& string_views(c.kinds@) == dedup_first(kinds_between(edges, p))
}

/// A reported duplicate: its nodes and kind, and the ids of its edges.
pub open spec fn duplicate_matches(d: DuplicateRelation, edges: Seq<RelationEdge>, t: (Seq<char>, Seq<char>, Seq<char>)) -> bool {
    &&& (d.from_node@, d.to_node@, d.edge_type@) == t
    &&& string_views(d.edge_ids@) == ids_with_triple(edges, t)
}

/// The trimmed endpoints and normalised kind of every edge.
fn edge_keys(edges: &Vec<RelationEdge>) -> (r: (Vec<Vec<char>>, Vec<Vec<char>>, Vec<Vec<char>>))
    ensures
        r.0@.len() == edges@.len(),
        r.1@.len() == edges@.len(),
        r.2@.len() == edges@.len(),
        forall|i: int| 0 <= i < edges@.len() ==> #[trigger] r.0@[i]@ == trim(edges@[i].from_node@) && r.1@[i]@
            == trim(edges@[i].to_node@) && r.2@[i]@ == edge_kind(edges@[i]),
{
    let mut froms: Vec<Vec<char>> = Vec::new();
    let mut tos: Vec<Vec<char>> = Vec::new();
    let mut kinds: Vec<Vec<char>> = Vec::new();
    let mut i: usize = 0;
    while i < edges.len()
        invariant
            i <= edges@.len(),
            froms@.len() == i,
            tos@.len() == i,
            kinds@.len() == i,
            forall|j: int| 0 <= j < i ==> #[trigger] froms@[j]@ == trim(edges@[j].from_node@) && tos@[j]@
                == trim(edges@[j].to_node@) && kinds@[j]@ == edge_kind(edges@[j]),
        decreases edges.len() - i,
    {
        froms.push(trimmed(&chars_of(edges[i].from_node.as_str())));
        tos.push(trimmed(&chars_of(edges[i].to_node.as_str())));
        let k = normalize_relation_kind(edges[i].edge_type.as_str());
        kinds.push(chars_of(k.as_str()));
        i = i + 1;
    }
    (froms, tos, kinds)
}

fn copy_text(v: &Vec<char>) -> (r: Vec<char>)
    ensures
        r@ == v@,
{
    let r = crate::text::slice(v, 0, v.len());
    assert(v@.subrange(0, v@.len() as int) =~= v@);
    r
}

/// The node pairs of the edges, each once, in the order they first appear.
fn distinct_pairs(froms: &Vec<Vec<char>>, tos: &Vec<Vec<char>>) -> (r: Vec<(Vec<char>, Vec<char>)>)
    requires
        froms@.len() == tos@.len(),
    ensures
        r@.map_values(|p: (Vec<char>, Vec<char>)| (p.0@, p.1@)) == dedup_first(
            Seq::new(froms@.len(), |i: int| (froms@[i]@, tos@[i]@)),
        ),
{
    let ghost all = Seq::new(froms@.len(), |i: int| (froms@[i]@, tos@[i]@));
    let mut out: Vec<(Vec<char>, Vec<char>)> = Vec::new();
    let mut i: usize = 0;
    while i < froms.len()
        invariant
            i <= froms@.len(),
            froms@.len() == tos@.len(),
            all == Seq::new(froms@.len(), |i: int| (froms@[i]@, tos@[i]@)),
            out@.map_values(|p: (Vec<char>, Vec<char>)| (p.0@, p.1@)) == dedup_first(all.take(i as int)),
        decreases froms.len() - i,
    {
        assert(all.take(i + 1).drop_last() =~= all.take(i as int));
        assert(all.take(i + 1).last() == (froms@[i as int]@, tos@[i as int]@));
        let ghost seen = out@.map_values(|p: (Vec<char>, Vec<char>)| (p.0@, p.1@));
        let mut found = false;
        let mut j: usize = 0;
        while j < out.len()
            invariant
                j <= out@.len(),
                seen == out@.map_values(|p: (Vec<char>, Vec<char>)| (p.0@, p.1@)),
                found ==> seen.contains((froms@[i as int]@, tos@[i as int]@)),
                !found ==> forall|m: int| 0 <= m < j ==> seen[m] != (froms@[i as int]@, tos@[i as int]@),
                i < froms@.len(),
                froms@.len() == tos@.len(),
            decreases out.len() - j,
        {
            if !found && chars_eq(&out[j].0, &froms[i]) && chars_eq(&out[j].1, &tos[i]) {
                found = true;
                assert(seen[j as int] == (froms@[i as int]@, tos@[i as int]@));
            }
            j = j + 1;
        }
        if !found {
            out.push((copy_text(&froms[i]), copy_text(&tos[i])));
            assert(out@.map_values(|p: (Vec<char>, Vec<char>)| (p.0@, p.1@)) =~= seen.push(
                (froms@[i as int]@, tos@[i as int]@),
            ));
        }
        i = i + 1;
    }
    assert(all.take(froms@.len() as int) =~= all);
    out
}

/// The kinds between `p`'s nodes, in edge order.
fn kinds_for_pair(
    edges: &Vec<RelationEdge>,
    froms: &Vec<Vec<char>>,
    tos: &Vec<Vec<char>>,
    kinds: &Vec<Vec<char>>,
    from: &Vec<char>,
    to: &Vec<char>,
) -> (r: Vec<Vec<char>>)
    requires
        froms@.len() == edges@.len(),
        tos@.len() == edges@.len(),
        kinds@.len() == edges@.len(),
        forall|i: int| 0 <= i < edges@.len() ==> #[trigger] froms@[i]@ == trim(edges@[i].from_node@) && tos@[i]@
            == trim(edges@[i].to_node@) && kinds@[i]@ == edge_kind(edges@[i]),
    ensures
        text_views(r@) == kinds_between(edges@, (from@, to@)),
{
    let mut out: Vec<Vec<char>> = Vec::new();
    let mut i: usize = 0;
    while i < edges.len()
        invariant
            i <= edges@.len(),
            froms@.len() == edges@.len(),
            tos@.len() == edges@.len(),
            kinds@.len() == edges@.len(),
            forall|i: int| 0 <= i < edges@.len() ==> #[trigger] froms@[i]@ == trim(edges@[i].from_node@)
                && tos@[i]@ == trim(edges@[i].to_node@) && kinds@[i]@ == edge_kind(edges@[i]),
            text_views(out@) == kinds_between(edges@.take(i as int), (from@, to@)),
        decreases edges.len() - i,
    {
        assert(edges@.take(i + 1).drop_last() =~= edges@.take(i as int));
        assert(froms@[i as int]@ == trim(edges@[i as int].from_node@));
        if chars_eq(&froms[i], from) && chars_eq(&tos[i], to) {
            let ghost o0 = text_views(out@);
            out.push(copy_text(&kinds[i]));
            assert(text_views(out@) =~= o0.push(kinds@[i as int]@));
        }
        i = i + 1;
    }
    assert(edges@.take(edges@.len() as int) =~= edges@);
    out
}

fn texts_to_strings(v: &Vec<Vec<char>>) -> (r: Vec<String>)
    ensures
        string_views(r@) == text_views(v@),
{
    let mut out: Vec<String> = Vec::new();
    let mut i: usize = 0;
    while i < v.len()
        invariant
            i <= v@.len(),
            string_views(out@) =~= text_views(v@).take(i as int),
        decreases v.len() - i,
    {
        let ghost o0 = string_views(out@);
        out.push(string_of(&v[i]));
        assert(string_views(out@) =~= o0.push(v@[i as int]@));
        assert(text_views(v@).take(i + 1) =~= text_views(v@).take(i as int).push(v@[i as int]@));
        i = i + 1;
    }
    assert(text_views(v@).take(v@.len() as int) =~= text_views(v@));
    out
}

/// The node pairs related both as approved-by and as blocked-by, with the
/// distinct kinds between them, in the order the pairs first appear.
pub fn conflicting_relations(edges: &Vec<RelationEdge>) -> (r: Vec<RelationConflict>)
    ensures
        r@.len() == conflicts_spec(edges@).len(),
        forall|k: int| 0 <= k < r@.len() ==> conflict_matches(#[trigger] r@[k], edges@, conflicts_spec(edges@)[k]),
{
    let (froms, tos, kinds) = edge_keys(edges);
    let pairs = distinct_pairs(&froms, &tos);
    let ghost all_pairs = edges@.map_values(|e: RelationEdge| edge_pair(e));
    assert(Seq::new(froms@.len(), |i: int| (froms@[i]@, tos@[i]@)) =~= all_pairs);
    let ghost dp = dedup_first(all_pairs);
    let approved = chars_of("approvedby");
    let blocked = chars_of("blockedby");
    let mut out: Vec<RelationConflict> = Vec::new();
    let mut k: usize = 0;
    while k < pairs.len()
        invariant
            k <= pairs@.len(),
            pairs@.map_values(|p: (Vec<char>, Vec<char>)| (p.0@, p.1@)) == dp,
            dp == dedup_first(edges@.map_values(|e: RelationEdge| edge_pair(e))),
            approved@ == "approvedby"@,
            blocked@ == "blockedby"@,
            froms@.len() == edges@.len(),
            tos@.len() == edges@.len(),
            kinds@.len() == edges@.len(),
            forall|i: int| 0 <= i < edges@.len() ==> #[trigger] froms@[i]@ == trim(edges@[i].from_node@)
                && tos@[i]@ == trim(edges@[i].to_node@) && kinds@[i]@ == edge_kind(edges@[i]),
            out@.len() == conflicting_pairs(edges@, dp.take(k as int)).len(),
            forall|m: int| 0 <= m < out@.len() ==> conflict_matches(
                #[trigger] out@[m],
                edges@,
                conflicting_pairs(edges@, dp.take(k as int))[m],
            ),
        decreases pairs.len() - k,
    {
        assert(dp.take(k + 1).drop_last() =~= dp.take(k as int));
        assert(dp.take(k + 1).last() == (pairs@[k as int].0@, pairs@[k as int].1@));
        let ks = kinds_for_pair(edges, &froms, &tos, &kinds, &pairs[k].0, &pairs[k].1);
        let ghost kb = kinds_between(edges@, (pairs@[k as int].0@, pairs@[k as int].1@));
        if contains_text(&ks, &approved) && contains_text(&ks, &blocked) {
            let distinct = dedup_texts(&ks);
            let ghost before = conflicting_pairs(edges@, dp.take(k as int));
            let ghost out0 = out@;
            out.push(
                RelationConflict {
                    from_node: string_of(&pairs[k].0),
                    to_node: string_of(&pairs[k].1),
                    kinds: texts_to_strings(&distinct),
                },
            );
            assert forall|m: int| 0 <= m < out@.len() implies conflict_matches(
                #[trigger] out@[m],
                edges@,
                conflicting_pairs(edges@, dp.take(k + 1))[m],
            ) by {
                if m < before.len() {
                    assert(out@[m] == out0[m]);
                }
            }
        }
        k = k + 1;
    }
    assert(dp.take(pairs@.len() as int) =~= dp);
    out
}

/// The (from, to, kind) triples of the edges, each once, in the order they
/// first appear.
fn distinct_triples(froms: &Vec<Vec<char>>, tos: &Vec<Vec<char>>, kinds: &Vec<Vec<char>>) -> (r: Vec<usize>)
    requires
        froms@.len() == tos@.len(),
        kinds@.len() == tos@.len(),
    ensures
        forall|k: int| 0 <= k < r@.len() ==> #[trigger] r@[k] < froms@.len(),
        r@.map_values(|i: usize| (froms@[i as int]@, tos@[i as int]@, kinds@[i as int]@)) == dedup_first(
            Seq::new(froms@.len(), |i: int| (froms@[i]@, tos@[i]@, kinds@[i]@)),
        ),
{
    let ghost all = Seq::new(froms@.len(), |i: int| (froms@[i]@, tos@[i]@, kinds@[i]@));
    let mut out: Vec<usize> = Vec::new();
    let mut i: usize = 0;
    while i < froms.len()
        invariant
            i <= froms@.len(),
            froms@.len() == tos@.len(),
            kinds@.len() == tos@.len(),
            all == Seq::new(froms@.len(), |i: int| (froms@[i]@, tos@[i]@, kinds@[i]@)),
            forall|k: int| 0 <= k < out@.len() ==> #[trigger] out@[k] < i,
            out@.map_values(|i: usize| (froms@[i as int]@, tos@[i as int]@, kinds@[i as int]@)) == dedup_first(
                all.take(i as int),
            ),
        decreases froms.len() - i,
    {
        assert(all.take(i + 1).drop_last() =~= all.take(i as int));
        assert(all.take(i + 1).last() == (froms@[i as int]@, tos@[i as int]@, kinds@[i as int]@));
        let ghost seen = out@.map_values(|i: usize| (froms@[i as int]@, tos@[i as int]@, kinds@[i as int]@));
        let ghost cur = (froms@[i as int]@, tos@[i as int]@, kinds@[i as int]@);
        let mut found = false;
        let mut j: usize = 0;
        while j < out.len()
            invariant
                j <= out@.len(),
                i < froms@.len(),
                froms@.len() == tos@.len(),
                kinds@.len() == tos@.len(),
                forall|k: int| 0 <= k < out@.len() ==> #[trigger] out@[k] < i,
                seen == out@.map_values(|i: usize| (froms@[i as int]@, tos@[i as int]@, kinds@[i as int]@)),
                cur == (froms@[i as int]@, tos@[i as int]@, kinds@[i as int]@),
                found ==> seen.contains(cur),
                !found ==> forall|m: int| 0 <= m < j ==> seen[m] != cur,
            decreases out.len() - j,
        {
            let o = out[j];
            if !found && chars_eq(&froms[o], &froms[i]) && chars_eq(&tos[o], &tos[i]) && chars_eq(
                &kinds[o],
                &kinds[i],
            ) {
                found = true;
                assert(seen[j as int] == cur);
            }
            j = j + 1;
        }
        if !found {
            out.push(i);
            assert(out@.map_values(|i: usize| (froms@[i as int]@, tos@[i as int]@, kinds@[i as int]@))
                =~= seen.push(cur));
        }
        i = i + 1;
    }
    assert(all.take(froms@.len() as int) =~= all);
    out
}

/// The ids of the edges with the given endpoints and kind.
fn ids_for_triple(
    edges: &Vec<RelationEdge>,
    froms: &Vec<Vec<char>>,
    tos: &Vec<Vec<char>>,
    kinds: &Vec<Vec<char>>,
    at: usize,
) -> (r: Vec<String>)
    requires
        at < edges@.len(),
        froms@.len() == edges@.len(),
        tos@.len() == edges@.len(),
        kinds@.len() == edges@.len(),
        forall|i: int| 0 <= i < edges@.len() ==> #[trigger] froms@[i]@ == trim(edges@[i].from_node@) && tos@[i]@
            == trim(edges@[i].to_node@) && kinds@[i]@ == edge_kind(edges@[i]),
    ensures
        string_views(r@) == ids_with_triple(
            edges@,
            (froms@[at as int]@, tos@[at as int]@, kinds@[at as int]@),
        ),
{
    let ghost t = (froms@[at as int]@, tos@[at as int]@, kinds@[at as int]@);
    let mut out: Vec<String> = Vec::new();
    let mut i: usize = 0;
    while i < edges.len()
        invariant
            i <= edges@.len(),
            at < edges@.len(),
            froms@.len() == edges@.len(),
            tos@.len() == edges@.len(),
            kinds@.len() == edges@.len(),
            forall|i: int| 0 <= i < edges@.len() ==> #[trigger] froms@[i]@ == trim(edges@[i].from_node@)
                && tos@[i]@ == trim(edges@[i].to_node@) && kinds@[i]@ == edge_kind(edges@[i]),
            t == (froms@[at as int]@, tos@[at as int]@, kinds@[at as int]@),
            string_views(out@) == ids_with_triple(edges@.take(i as int), t),
        decreases edges.len() - i,
    {
        assert(edges@.take(i + 1).drop_last() =~= edges@.take(i as int));
        assert(froms@[i as int]@ == trim(edges@[i as int].from_node@));
        if chars_eq(&froms[i], &froms[at]) && chars_eq(&tos[i], &tos[at]) && chars_eq(&kinds[i], &kinds[at]) {
            let ghost o0 = string_views(out@);
            out.push(edges[i].edge_id.clone());
            assert(string_views(out@) =~= o0.push(edges@[i as int].edge_id@));
        }
        i = i + 1;
    }
    assert(edges@.take(edges@.len() as int) =~= edges@);
    out
}

/// The edges of one kind between the same two nodes, where there are
/// several, in the order the triples first appear.
pub fn duplicate_relations(edges: &Vec<RelationEdge>) -> (r: Vec<DuplicateRelation>)
    ensures
        r@.len() == duplicates_spec(edges@).len(),
        forall|k: int| 0 <= k < r@.len() ==> duplicate_matches(#[trigger] r@[k], edges@, duplicates_spec(edges@)[k]),
{
    let (froms, tos, kinds) = edge_keys(edges);
    let triples = distinct_triples(&froms, &tos, &kinds);
    let ghost all = edges@.map_values(|e: RelationEdge| edge_triple(e));
    assert(Seq::new(froms@.len(), |i: int| (froms@[i]@, tos@[i]@, kinds@[i]@)) =~= all);
    let ghost dt = dedup_first(all);
    let mut out: Vec<DuplicateRelation> = Vec::new();
    let mut k: usize = 0;
    while k < triples.len()
        invariant
            k <= triples@.len(),
            forall|m: int| 0 <= m < triples@.len() ==> #[trigger] triples@[m] < froms@.len(),
            triples@.map_values(|i: usize| (froms@[i as int]@, tos@[i as int]@, kinds@[i as int]@)) == dt,
            dt == dedup_first(edges@.map_values(|e: RelationEdge| edge_triple(e))),
            froms@.len() == edges@.len(),
            tos@.len() == edges@.len(),
            kinds@.len() == edges@.len(),
            forall|i: int| 0 <= i < edges@.len() ==> #[trigger] froms@[i]@ == trim(edges@[i].from_node@)
                && tos@[i]@ == trim(edges@[i].to_node@) && kinds@[i]@ == edge_kind(edges@[i]),
            out@.len() == duplicated_triples(edges@, dt.take(k as int)).len(),
            forall|m: int| 0 <= m < out@.len() ==> duplicate_matches(
                #[trigger] out@[m],
                edges@,
                duplicated_triples(edges@, dt.take(k as int))[m],
            ),
        decreases triples.len() - k,
    {
        let at = triples[k];
        assert(dt.take(k + 1).drop_last() =~= dt.take(k as int));
        assert(dt.take(k + 1).last() == (froms@[at as int]@, tos@[at as int]@, kinds@[at as int]@));
        let ids = ids_for_triple(edges, &froms, &tos, &kinds, at);
        if ids.len() > 1 {
            let ghost out0 = out@;
            let ghost before = duplicated_triples(edges@, dt.take(k as int));
            out.push(
                DuplicateRelation {
                    from_node: string_of(&froms[at]),
                    to_node: string_of(&tos[at]),
                    edge_type: string_of(&kinds[at]),
                    edge_ids: ids,
                },
            );
            assert forall|m: int| 0 <= m < out@.len() implies duplicate_matches(
                #[trigger] out@[m],
                edges@,
                duplicated_triples(edges@, dt.take(k + 1))[m],
            ) by {
                if m < before.len() {
                    assert(out@[m] == out0[m]);
                }
            }
        }
        k = k + 1;
    }
    assert(dt.take(triples@.len() as int) =~= dt);
    out
}

// ---------------------------------------------------------------------------
// Cycles.
// ---------------------------------------------------------------------------

/// An edge with both endpoints leads from `a` to `b`.
pub open spec fn rel_edge(edges: Seq<RelationEdge>, a: Seq<char>, b: Seq<char>) -> bool {
    exists|i: int|
        0 <= i < edges.len() && !is_orphan(#[trigger] edges[i]) && edges[i].from_node@ == a && edges[i].to_node@
            == b
}

/// `c` is a cycle of the relation graph: each node leads to the next, and
/// the last back to the first.
pub open spec fn is_cycle(edges: Seq<RelationEdge>, c: Seq<Seq<char>>) -> bool {
    &&& c.len() >= 1
    &&& forall|k: int| 0 <= k < c.len() - 1 ==> rel_edge(edges, #[trigger] c[k], c[k + 1])
    &&& rel_edge(edges, c.last(), c[0])
}

pub open spec fn has_edge(adj: Seq<Vec<usize>>, u: usize, v: usize) -> bool {
    0 <= u < adj.len() && adj[u as int]@.contains(v)
}

pub open spec fn valid_cycle(adj: Seq<Vec<usize>>, c: Seq<usize>) -> bool {
    &&& c.len() >= 1
    &&& forall|k: int| 0 <= k < c.len() - 1 ==> has_edge(adj, #[trigger] c[k], c[k + 1])
    &&& has_edge(adj, c.last(), c[0])
}

pub open spec fn adj_ok(adj: Seq<Vec<usize>>) -> bool {
    forall|u: int, m: int| 0 <= u < adj.len() && 0 <= m < adj[u]@.len() ==> #[trigger] adj[u]@[m] < adj.len()
}

/// The stack is a path of the graph and holds exactly the nodes being visited.
pub open spec fn stack_ok(adj: Seq<Vec<usize>>, stack: Seq<usize>, visiting: Seq<bool>) -> bool {
    &&& forall|k: int| 0 <= k < stack.len() ==> #[trigger] stack[k] < adj.len()
    &&& forall|k: int| 0 <= k < stack.len() - 1 ==> has_edge(adj, #[trigger] stack[k], stack[k + 1])
    &&& forall|i: usize| i < visiting.len() ==> (#[trigger] visiting[i as int] <==> stack.contains(i))
}

/// The number of nodes neither being visited nor done.
pub open spec fn unmarked(visiting: Seq<bool>, visited: Seq<bool>) -> nat
    decreases visiting.len(),
{
    if visiting.len() == 0 || visited.len() != visiting.len() {
        0
    } else {
        unmarked(visiting.drop_last(), visited.drop_last()) + if !visiting.last() && !visited.last() {
            1nat
        } else {
            0nat
        }
    }
}

proof fn lemma_unmarked_shrinks(a1: Seq<bool>, b1: Seq<bool>, a2: Seq<bool>, b2: Seq<bool>, j: int)
    requires
        a1.len() == b1.len(),
        a2.len() == a1.len(),
        b2.len() == a1.len(),
        forall|i: int| 0 <= i < a1.len() ==> (a1[i] || b1[i]) ==> (a2[i] || b2[i]),
        0 <= j < a1.len() ==> !a1[j] && !b1[j] && (a2[j] || b2[j]),
    ensures
        unmarked(a2, b2) <= unmarked(a1, b1),
        0 <= j < a1.len() ==> unmarked(a2, b2) < unmarked(a1, b1),
    decreases a1.len(),
{
    if a1.len() > 0 {
        let n = a1.len() - 1;
        assert forall|i: int| 0 <= i < n implies (a1.drop_last()[i] || b1.drop_last()[i]) ==> (
        a2.drop_last()[i] || b2.drop_last()[i]) by {
            assert(a1.drop_last()[i] == a1[i] && b1.drop_last()[i] == b1[i]);
            assert(a2.drop_last()[i] == a2[i] && b2.drop_last()[i] == b2[i]);
        }
        if j == n {
            lemma_unmarked_shrinks(a1.drop_last(), b1.drop_last(), a2.drop_last(), b2.drop_last(), -1);
        } else {
            if 0 <= j < n {
                assert(a1.drop_last()[j] == a1[j] && b1.drop_last()[j] == b1[j]);
                assert(a2.drop_last()[j] == a2[j] && b2.drop_last()[j] == b2[j]);
            }
            lemma_unmarked_shrinks(a1.drop_last(), b1.drop_last(), a2.drop_last(), b2.drop_last(), j);
        }
    }
}

/// Every edge out of a finished node leads to a finished node.
pub open spec fn closed_under(adj: Seq<Vec<usize>>, done: Seq<bool>) -> bool {
    forall|u: usize, v: usize|
        #[trigger] has_edge(adj, u, v) && u < done.len() && done[u as int] ==> v < done.len() && done[v as int]
}

/// Every node of `c` is finished.
pub open spec fn all_done(done: Seq<bool>, c: Seq<usize>) -> bool {
    forall|k: int| 0 <= k < c.len() ==> #[trigger] c[k] < done.len() && done[c[k] as int]
}

/// No cycle of the graph lies among the finished nodes alone.
pub open spec fn acyclic_on(adj: Seq<Vec<usize>>, done: Seq<bool>) -> bool {
    forall|c: Seq<usize>| #[trigger] valid_cycle(adj, c) ==> !all_done(done, c)
}

/// What a search that has met no cycle knows of the nodes it finished.
pub open spec fn done_ok(adj: Seq<Vec<usize>>, done: Seq<bool>) -> bool {
    closed_under(adj, done) && acyclic_on(adj, done)
}

/// Along a cycle, from a finished node on, every node is finished.
proof fn lemma_finished_onward(adj: Seq<Vec<usize>>, done: Seq<bool>, c: Seq<usize>, j: int)
    requires
        closed_under(adj, done),
        valid_cycle(adj, c),
        0 <= j < c.len(),
        c[j] < done.len(),
        done[c[j] as int],
    ensures
        forall|i: int| j <= i < c.len() ==> #[trigger] c[i] < done.len() && done[c[i] as int],
    decreases c.len() - j,
{
    if j + 1 < c.len() {
        assert(has_edge(adj, c[j], c[j + 1]));
        lemma_finished_onward(adj, done, c, j + 1);
    }
}

/// Finishing a node whose successors are all finished keeps `done_ok`.
proof fn lemma_finish_node(adj: Seq<Vec<usize>>, done: Seq<bool>, node: usize)
    requires
        adj_ok(adj),
        done.len() == adj.len(),
        node < adj.len(),
        !done[node as int],
        done_ok(adj, done),
        forall|j: int| 0 <= j < adj[node as int]@.len() ==> #[trigger] done[adj[node as int]@[j] as int],
    ensures
        done_ok(adj, done.update(node as int, true)),
{
    let d2 = done.update(node as int, true);
    assert forall|u: usize, v: usize| #[trigger] has_edge(adj, u, v) && u < d2.len() && d2[u as int] implies v
        < d2.len() && d2[v as int] by {
        let row = adj[u as int]@;
        let m = choose|m: int| 0 <= m < row.len() && row[m] == v;
        assert(adj[u as int]@[m] == v);
        if u != node {
            assert(done[u as int]);
        }
    }
    assert forall|c: Seq<usize>| #[trigger] valid_cycle(adj, c) implies !all_done(d2, c) by {
        if all_done(d2, c) {
            if all_done(done, c) {
                assert(!all_done(done, c));
            } else {
                let k = choose|k: int| 0 <= k < c.len() && !(c[k] < done.len() && done[c[k] as int]);
                assert(c[k] < d2.len() && d2[c[k] as int]);
                assert(c[k] == node);
                let nx = if k < c.len() - 1 { k + 1 } else { 0 };
                assert(has_edge(adj, c[k], c[nx]));
                let row = adj[node as int]@;
                let m = choose|m: int| 0 <= m < row.len() && row[m] == c[nx];
                assert(adj[node as int]@[m] == c[nx]);
                assert(done[c[nx] as int]);
                if nx > 0 {
                    lemma_finished_onward(adj, done, c, nx);
                    assert(has_edge(adj, c.last(), c[0]));
                    assert(done[c[c.len() - 1] as int]);
                }
                lemma_finished_onward(adj, done, c, 0);
                assert(done[c[k] as int]);
            }
        }
    }
}

/// A finished search that met no cycle, and started from every node with
/// successors, shows that the graph has no cycle.
proof fn lemma_no_index_cycle(adj: Seq<Vec<usize>>, done: Seq<bool>, starts: Seq<usize>, c: Seq<usize>)
    requires
        done_ok(adj, done),
        done.len() == adj.len(),
        forall|q: int| 0 <= q < starts.len() ==> #[trigger] starts[q] < done.len() && done[starts[q] as int],
        forall|u: usize| u < adj.len() && adj[u as int]@.len() > 0 ==> #[trigger] starts.contains(u),
    ensures
        !valid_cycle(adj, c),
{
    if valid_cycle(adj, c) {
        assert forall|k: int| 0 <= k < c.len() implies #[trigger] c[k] < done.len() && done[c[k] as int] by {
            let nx = if k < c.len() - 1 { k + 1 } else { 0 };
            assert(has_edge(adj, c[k], c[nx]));
            assert(adj[c[k] as int]@.len() > 0);
            assert(starts.contains(c[k]));
            let q = choose|q: int| 0 <= q < starts.len() && starts[q] == c[k];
            assert(starts[q] < done.len() && done[starts[q] as int]);
        }
        assert(all_done(done, c));
    }
}

fn copy_stack_from(stack: &Vec<usize>, from: usize) -> (r: Vec<usize>)
    requires
        from <= stack@.len(),
    ensures
        r@ == stack@.skip(from as int),
{
    let mut out: Vec<usize> = Vec::new();
    let mut i = from;
    while i < stack.len()
        invariant
            from <= i <= stack@.len(),
            out@ =~= stack@.subrange(from as int, i as int),
        decreases stack.len() - i,
    {
        out.push(stack[i]);
        i = i + 1;
    }
    out
}

fn position_of(stack: &Vec<usize>, x: usize) -> (p: usize)
    requires
        stack@.contains(x),
    ensures
        p < stack@.len(),
        stack@[p as int] == x,
{
    let mut p: usize = 0;
    while p < stack.len()
        invariant
            p <= stack@.len(),
            stack@.contains(x),
            forall|q: int| 0 <= q < p ==> stack@[q] != x,
        decreases stack.len() - p,
    {
        if stack[p] == x {
            return p;
        }
        p = p + 1;
    }
    proof {
        let q = choose|q: int| 0 <= q < stack@.len() && stack@[q] == x;
        assert(stack@[q] != x);
    }
    0
}

proof fn lemma_push_node(adj: Seq<Vec<usize>>, s0: Seq<usize>, v0: Seq<bool>, node: usize)
    requires
        stack_ok(adj, s0, v0),
        v0.len() == adj.len(),
        node < adj.len(),
        !v0[node as int],
        s0.len() > 0 ==> has_edge(adj, s0.last(), node),
    ensures
        stack_ok(adj, s0.push(node), v0.update(node as int, true)),
{
    let st = s0.push(node);
    let vi = v0.update(node as int, true);
    assert forall|i: usize| i < vi.len() implies (#[trigger] vi[i as int] <==> st.contains(i)) by {
        if i == node {
            assert(st[s0.len() as int] == node);
        } else {
            assert(vi[i as int] == v0[i as int]);
            if s0.contains(i) {
                let k = choose|k: int| 0 <= k < s0.len() && s0[k] == i;
                assert(st[k] == i);
            }
            if st.contains(i) {
                let k = choose|k: int| 0 <= k < st.len() && st[k] == i;
                if k < s0.len() {
                    assert(s0[k] == i);
                } else {
                    assert(st[k] == node);
                }
            }
        }
    }
    assert forall|k: int| 0 <= k < st.len() - 1 implies has_edge(adj, #[trigger] st[k], st[k + 1]) by {
        if k < s0.len() - 1 {
            assert(st[k] == s0[k] && st[k + 1] == s0[k + 1]);
        } else {
            assert(st[k] == s0.last());
            assert(st[k + 1] == node);
        }
    }
    assert forall|k: int| 0 <= k < st.len() implies #[trigger] st[k] < adj.len() by {
        if k < s0.len() {
            assert(st[k] == s0[k]);
        }
    }
}

/// The cycle closed by the edge from the top of the stack back to `next`.
fn cycle_back_to(adj: &Vec<Vec<usize>>, stack: &Vec<usize>, visiting: &Vec<bool>, next: usize) -> (r: Vec<usize>)
    requires
        stack_ok(adj@, stack@, visiting@),
        visiting@.len() == adj@.len(),
        next < adj@.len(),
        visiting@[next as int],
        stack@.len() > 0,
        has_edge(adj@, stack@.last(), next),
    ensures
        valid_cycle(adj@, r@),
{
    assert(stack@.contains(next));
    let p = position_of(stack, next);
    let cycle = copy_stack_from(stack, p);
    assert forall|k: int| 0 <= k < cycle@.len() - 1 implies has_edge(adj@, #[trigger] cycle@[k], cycle@[k + 1]) by {
        assert(cycle@[k] == stack@[p + k] && cycle@[k + 1] == stack@[p + k + 1]);
    }
    assert(cycle@.last() == stack@.last());
    assert(cycle@[0] == next);
    cycle
}

/// Depth-first search from `node`, recording a cycle whenever an edge leads
/// back to a node on the current path. It ends with `node` finished; while no
/// cycle has been recorded, the finished nodes are closed under edges and hold
/// no cycle among themselves.
fn dfs(
    node: usize,
    adj: &Vec<Vec<usize>>,
    visiting: &mut Vec<bool>,
    visited: &mut Vec<bool>,
    stack: &mut Vec<usize>,
    cycles: &mut Vec<Vec<usize>>,
)
    requires
        adj_ok(adj@),
        old(visiting)@.len() == adj@.len(),
        old(visited)@.len() == adj@.len(),
        node < adj@.len(),
        !old(visiting)@[node as int],
        stack_ok(adj@, old(stack)@, old(visiting)@),
        old(stack)@.len() > 0 ==> has_edge(adj@, old(stack)@.last(), node),
        forall|k: int| 0 <= k < old(cycles)@.len() ==> valid_cycle(adj@, #[trigger] old(cycles)@[k]@),
        old(cycles)@.len() == 0 ==> done_ok(adj@, old(visited)@),
    ensures
        final(visiting)@ == old(visiting)@,
        final(stack)@ == old(stack)@,
        final(visited)@.len() == adj@.len(),
        final(visited)@[node as int],
        final(cycles)@.len() >= old(cycles)@.len(),
        final(cycles)@.len() == 0 ==> done_ok(adj@, final(visited)@),
        forall|i: int| 0 <= i < adj@.len() && #[trigger] old(visited)@[i] ==> final(visited)@[i],
        forall|i: int| 0 <= i < adj@.len() && #[trigger] final(visited)@[i] ==> old(visited)@[i] || !old(visiting)@[i],
        forall|k: int| 0 <= k < final(cycles)@.len() ==> valid_cycle(adj@, #[trigger] final(cycles)@[k]@),
    decreases unmarked(old(visiting)@, old(visited)@),
{
    if visited[node] {
        return;
    }
    let ghost v0 = visiting@;
    let ghost d0 = visited@;
    let ghost s0 = stack@;
    proof {
        lemma_push_node(adj@, s0, v0, node);
    }
    visiting.set(node, true);
    stack.push(node);
    let row = &adj[node];
    let mut m: usize = 0;
    while m < row.len()
        invariant
            adj_ok(adj@),
            node < adj@.len(),
            *row == adj@[node as int],
            m <= row@.len(),
            visiting@ == v0.update(node as int, true),
            v0 == old(visiting)@,
            d0 == old(visited)@,
            stack@ == s0.push(node),
            v0.len() == adj@.len(),
            d0.len() == adj@.len(),
            !v0[node as int],
            !d0[node as int],
            visited@.len() == adj@.len(),
            !visited@[node as int],
            stack_ok(adj@, stack@, visiting@),
            forall|i: int| 0 <= i < adj@.len() && #[trigger] d0[i] ==> visited@[i],
            forall|i: int| 0 <= i < adj@.len() && #[trigger] visited@[i] ==> d0[i] || !v0[i],
            forall|k: int| 0 <= k < cycles@.len() ==> valid_cycle(adj@, #[trigger] cycles@[k]@),
            cycles@.len() >= old(cycles)@.len(),
            cycles@.len() == 0 ==> done_ok(adj@, visited@),
            cycles@.len() == 0 ==> forall|j: int| 0 <= j < m ==> #[trigger] visited@[row@[j] as int],
        decreases row.len() - m,
    {
        let next = row[m];
        assert(next < adj@.len());
        assert(has_edge(adj@, node, next)) by {
            assert(adj@[node as int]@[m as int] == next);
        }
        if visiting[next] {
            let cycle = cycle_back_to(adj, stack, visiting, next);
            let ghost c0 = cycles@;
            cycles.push(cycle);
            assert forall|k: int| 0 <= k < cycles@.len() implies valid_cycle(adj@, #[trigger] cycles@[k]@) by {
                if k < c0.len() {
                    assert(cycles@[k] == c0[k]);
                }
            }
        } else {
            let ghost va = visiting@;
            let ghost da = visited@;
            proof {
                lemma_unmarked_shrinks(v0, d0, va, da, node as int);
            }
            assert(unmarked(visiting@, visited@) < unmarked(v0, d0));
            let ghost db = visited@;
            dfs(next, adj, visiting, visited, stack, cycles);
            assert(cycles@.len() == 0 ==> forall|j: int| 0 <= j < m ==> #[trigger] visited@[row@[j] as int]) by {
                if cycles@.len() == 0 {
                    assert forall|j: int| 0 <= j < m implies #[trigger] visited@[row@[j] as int] by {
                        assert(row@[j] < adj@.len());
                        assert(db[row@[j] as int]);
                    }
                }
            }
        }
        m = m + 1;
    }
    stack.pop();
    assert(stack@ =~= s0);
    visiting.set(node, false);
    assert(visiting@ =~= v0);
    proof {
        if cycles@.len() == 0 {
            lemma_finish_node(adj@, visited@, node);
        }
    }
    visited.set(node, true);
}

/// Every edge of the index graph is an edge of the relation graph.
pub open spec fn adj_sound(adj: Seq<Vec<usize>>, names: Seq<Vec<char>>, edges: Seq<RelationEdge>) -> bool {
    &&& adj.len() == names.len()
    &&& forall|u: int, m: int|
        0 <= u < adj.len() && 0 <= m < adj[u]@.len() ==> #[trigger] adj[u]@[m] < adj.len() && rel_edge(
            edges,
            names[u]@,
            names[adj[u]@[m] as int]@,
        )
}

/// No name stands for two nodes.
pub open spec fn names_distinct(names: Seq<Vec<char>>) -> bool {
    forall|a: int, b: int|
        0 <= a < names.len() && 0 <= b < names.len() && a != b ==> #[trigger] names[a]@ != #[trigger] names[b]@
}

/// The index graph has an edge from the node named `a` to the node named `b`.
pub open spec fn edge_present(adj: Seq<Vec<usize>>, names: Seq<Vec<char>>, a: Seq<char>, b: Seq<char>) -> bool {
    exists|u: usize, v: usize|
        #[trigger] has_edge(adj, u, v) && u < names.len() && v < names.len() && names[u as int]@ == a && names[v as int]@
            == b
}

/// Every edge of the relation graph is an edge of the index graph.
pub open spec fn graph_complete(adj: Seq<Vec<usize>>, names: Seq<Vec<char>>, edges: Seq<RelationEdge>) -> bool {
    forall|i: int|
        0 <= i < edges.len() && !is_orphan(#[trigger] edges[i]) ==> edge_present(
            adj,
            names,
            edges[i].from_node@,
            edges[i].to_node@,
        )
}

/// Every node is an endpoint of an edge with both endpoints.
pub open spec fn names_sound(names: Seq<Vec<char>>, edges: Seq<RelationEdge>) -> bool {
    forall|u: int|
        0 <= u < names.len() ==> exists|i: int|
            0 <= i < edges.len() && !is_orphan(#[trigger] edges[i]) && (edges[i].from_node@ == (#[trigger] names[u])@
                || edges[i].to_node@ == names[u]@)
}

/// `starts` holds exactly the nodes with successors.
pub open spec fn starts_exact(adj: Seq<Vec<usize>>, starts: Seq<usize>) -> bool {
    &&& forall|k: int| 0 <= k < starts.len() ==> #[trigger] starts[k] < adj.len()
    &&& forall|u: usize| u < adj.len() ==> (adj[u as int]@.len() > 0 <==> #[trigger] starts.contains(u))
}

/// Each edge of `adj1` is an edge of `adj2`.
pub open spec fn edges_kept(adj1: Seq<Vec<usize>>, adj2: Seq<Vec<usize>>) -> bool {
    forall|u: usize, v: usize| #[trigger] has_edge(adj1, u, v) ==> has_edge(adj2, u, v)
}

proof fn lemma_edge_present_kept(
    adj1: Seq<Vec<usize>>,
    names1: Seq<Vec<char>>,
    adj2: Seq<Vec<usize>>,
    names2: Seq<Vec<char>>,
    a: Seq<char>,
    b: Seq<char>,
)
    requires
        edge_present(adj1, names1, a, b),
        edges_kept(adj1, adj2),
        names1.len() <= names2.len(),
        forall|u: int| 0 <= u < names1.len() ==> #[trigger] names2[u] == names1[u],
    ensures
        edge_present(adj2, names2, a, b),
{
    let (u, v) = choose|u: usize, v: usize|
        #[trigger] has_edge(adj1, u, v) && u < names1.len() && v < names1.len() && names1[u as int]@ == a
            && names1[v as int]@ == b;
    assert(names2[u as int] == names1[u as int]);
    assert(names2[v as int] == names1[v as int]);
    assert(has_edge(adj2, u, v));
}

/// The indices of the nodes named along a cycle of names.
pub open spec fn name_indices(names: Seq<Vec<char>>, c: Seq<Seq<char>>) -> Seq<usize> {
    Seq::new(c.len(), |k: int| choose|u: usize| u < names.len() && names[u as int]@ == c[k])
}

/// A cycle of the relation graph is a cycle of a complete index graph.
proof fn lemma_index_cycle(adj: Seq<Vec<usize>>, names: Seq<Vec<char>>, edges: Seq<RelationEdge>, c: Seq<Seq<char>>)
    requires
        graph_complete(adj, names, edges),
        names_distinct(names),
        is_cycle(edges, c),
    ensures
        valid_cycle(adj, name_indices(names, c)),
{
    let ix = name_indices(names, c);
    assert forall|k: int, l: int| 0 <= k < c.len() && 0 <= l < c.len() && rel_edge(edges, c[k], c[l]) implies has_edge(
        adj,
        #[trigger] ix[k],
        #[trigger] ix[l],
    ) by {
        let i = choose|i: int|
            0 <= i < edges.len() && !is_orphan(#[trigger] edges[i]) && edges[i].from_node@ == c[k]
                && edges[i].to_node@ == c[l];
        assert(edge_present(adj, names, edges[i].from_node@, edges[i].to_node@));
        let (u, v) = choose|u: usize, v: usize|
            #[trigger] has_edge(adj, u, v) && u < names.len() && v < names.len() && names[u as int]@ == c[k]
                && names[v as int]@ == c[l];
        let a = ix[k];
        let b = ix[l];
        assert(a < names.len() && names[a as int]@ == c[k]);
        assert(b < names.len() && names[b as int]@ == c[l]);
        if a != u {
            assert(names[a as int]@ != names[u as int]@);
        }
        if b != v {
            assert(names[b as int]@ != names[v as int]@);
        }
    }
    assert forall|k: int| 0 <= k < ix.len() - 1 implies has_edge(adj, #[trigger] ix[k], ix[k + 1]) by {
        assert(rel_edge(edges, c[k], c[k + 1]));
    }
    assert(has_edge(adj, ix.last(), ix[0])) by {
        assert(rel_edge(edges, c.last(), c[0]));
        assert(c.last() == c[c.len() - 1]);
    }
}

fn index_or_add(names: &mut Vec<Vec<char>>, adj: &mut Vec<Vec<usize>>, x: &Vec<char>, Ghost(edges): Ghost<Seq<RelationEdge>>) -> (r: usize)
    requires
        adj_sound(old(adj)@, old(names)@, edges),
        names_distinct(old(names)@),
    ensures
        adj_sound(final(adj)@, final(names)@, edges),
        names_distinct(final(names)@),
        r < final(names)@.len(),
        final(names)@[r as int]@ == x@,
        final(names)@.len() >= old(names)@.len(),
        forall|u: int| 0 <= u < old(names)@.len() ==> #[trigger] final(names)@[u] == old(names)@[u],
        forall|u: int| 0 <= u < old(adj)@.len() ==> #[trigger] final(adj)@[u] == old(adj)@[u],
        forall|u: int| old(names)@.len() <= u < final(names)@.len() ==> (#[trigger] final(names)@[u])@ == x@,
        forall|u: int| old(adj)@.len() <= u < final(adj)@.len() ==> (#[trigger] final(adj)@[u])@.len() == 0,
        edges_kept(old(adj)@, final(adj)@),
{
    let mut i: usize = 0;
    while i < names.len()
        invariant
            i <= names@.len(),
            adj_sound(adj@, names@, edges),
            names_distinct(names@),
            forall|j: int| 0 <= j < i ==> names@[j]@ != x@,
        decreases names.len() - i,
    {
        if chars_eq(&names[i], x) {
            return i;
        }
        i = i + 1;
    }
    let ghost a0 = adj@;
    let ghost n0 = names@;
    names.push(copy_text(x));
    adj.push(Vec::new());
    assert forall|u: int, m: int| 0 <= u < adj@.len() && 0 <= m < adj@[u]@.len() implies #[trigger] adj@[u]@[m]
        < adj@.len() && rel_edge(edges, names@[u]@, names@[adj@[u]@[m] as int]@) by {
        assert(u < a0.len());
        assert(adj@[u] == a0[u]);
        assert(names@[u] == n0[u]);
        assert(a0[u]@[m] < a0.len());
        assert(names@[a0[u]@[m] as int] == n0[a0[u]@[m] as int]);
    }
    assert forall|a: int, b: int| 0 <= a < names@.len() && 0 <= b < names@.len() && a != b implies #[trigger] names@[a]@
        != #[trigger] names@[b]@ by {
        if a < n0.len() && b < n0.len() {
            assert(names@[a] == n0[a] && names@[b] == n0[b]);
        } else if a < n0.len() {
            assert(names@[a] == n0[a]);
        } else if b < n0.len() {
            assert(names@[b] == n0[b]);
        }
    }
    assert forall|u: usize, v: usize| #[trigger] has_edge(a0, u, v) implies has_edge(adj@, u, v) by {
        assert(adj@[u as int] == a0[u as int]);
    }
    names.len() - 1
}

fn push_successor(adj: &mut Vec<Vec<usize>>, u: usize, v: usize)
    requires
        u < old(adj)@.len(),
    ensures
        final(adj)@.len() == old(adj)@.len(),
        final(adj)@[u as int]@ == old(adj)@[u as int]@.push(v),
        forall|w: int| 0 <= w < old(adj)@.len() && w != u ==> #[trigger] final(adj)@[w] == old(adj)@[w],
        edges_kept(old(adj)@, final(adj)@),
        has_edge(final(adj)@, u, v),
{
    let mut row: Vec<usize> = Vec::new();
    let mut k: usize = 0;
    while k < adj[u].len()
        invariant
            u < adj@.len(),
            k <= adj@[u as int]@.len(),
            row@ =~= adj@[u as int]@.take(k as int),
        decreases adj@[u as int]@.len() - k,
    {
        row.push(adj[u][k]);
        k = k + 1;
    }
    assert(adj@[u as int]@.take(adj@[u as int]@.len() as int) =~= adj@[u as int]@);
    row.push(v);
    let ghost a0 = adj@;
    adj.set(u, row);
    assert(adj@[u as int]@[a0[u as int]@.len() as int] == v);
    assert forall|x: usize, y: usize| #[trigger] has_edge(a0, x, y) implies has_edge(adj@, x, y) by {
        if x == u {
            let m = choose|m: int| 0 <= m < a0[u as int]@.len() && a0[u as int]@[m] == y;
            assert(adj@[u as int]@[m] == y);
        } else {
            assert(adj@[x as int] == a0[x as int]);
        }
    }
}

/// The graph of the edges with both endpoints: its node names, each once and
/// each an endpoint of such an edge; successor lists holding exactly those
/// edges; and the nodes with successors, in the order they first appear.
fn relation_graph(edges: &Vec<RelationEdge>) -> (r: (Vec<Vec<char>>, Vec<Vec<usize>>, Vec<usize>))
    ensures
        adj_sound(r.1@, r.0@, edges@),
        graph_complete(r.1@, r.0@, edges@),
        names_distinct(r.0@),
        names_sound(r.0@, edges@),
        starts_exact(r.1@, r.2@),
{
    let mut names: Vec<Vec<char>> = Vec::new();
    let mut adj: Vec<Vec<usize>> = Vec::new();
    let mut starts: Vec<usize> = Vec::new();
    let mut i: usize = 0;
    while i < edges.len()
        invariant
            i <= edges@.len(),
            adj_sound(adj@, names@, edges@),
            names_distinct(names@),
            names_sound(names@, edges@),
            starts_exact(adj@, starts@),
            forall|j: int|
                0 <= j < i && !is_orphan(#[trigger] edges@[j]) ==> edge_present(
                    adj@,
                    names@,
                    edges@[j].from_node@,
                    edges@[j].to_node@,
                ),
        decreases edges.len() - i,
    {
        let e = &edges[i];
        if !(blank(&e.from_node) || blank(&e.to_node)) {
            assert(edges@[i as int] == *e);
            assert(!is_orphan(edges@[i as int]));
            let ghost a0 = adj@;
            let ghost n0 = names@;
            let ghost s0 = starts@;
            let from = chars_of(e.from_node.as_str());
            let to = chars_of(e.to_node.as_str());
            let u = index_or_add(&mut names, &mut adj, &from, Ghost(edges@));
            let v = index_or_add(&mut names, &mut adj, &to, Ghost(edges@));
            assert(names@[u as int]@ == e.from_node@);
            let ghost a1 = adj@;
            let ghost n1 = names@;
            push_successor(&mut adj, u, v);
            assert(rel_edge(edges@, names@[u as int]@, names@[v as int]@));
            assert forall|w: int, m: int| 0 <= w < adj@.len() && 0 <= m < adj@[w]@.len() implies #[trigger] adj@[w]@[m]
                < adj@.len() && rel_edge(edges@, names@[w]@, names@[adj@[w]@[m] as int]@) by {
                if w == u as int {
                    if m < a1[w]@.len() {
                        assert(adj@[w]@[m] == a1[w]@[m]);
                    } else {
                        assert(adj@[w]@[m] == v);
                    }
                } else {
                    assert(adj@[w] == a1[w]);
                }
            }
            assert(edges_kept(a0, adj@)) by {
                assert forall|x: usize, y: usize| #[trigger] has_edge(a0, x, y) implies has_edge(adj@, x, y) by {
                    assert(has_edge(a1, x, y));
                }
            }
            assert forall|j: int|
                0 <= j < i + 1 && !is_orphan(#[trigger] edges@[j]) implies edge_present(
                adj@,
                names@,
                edges@[j].from_node@,
                edges@[j].to_node@,
            ) by {
                if j < i {
                    lemma_edge_present_kept(a0, n0, adj@, names@, edges@[j].from_node@, edges@[j].to_node@);
                } else {
                    assert(has_edge(adj@, u, v));
                }
            }
            assert forall|w: int| 0 <= w < names@.len() implies exists|j: int|
                0 <= j < edges@.len() && !is_orphan(#[trigger] edges@[j]) && (edges@[j].from_node@ == (
                #[trigger] names@[w])@ || edges@[j].to_node@ == names@[w]@) by {
                if w < n0.len() {
                    assert(names@[w] == n0[w]);
                } else if w < n1.len() {
                    assert(names@[w] == n1[w]);
                    assert(names@[w]@ == e.from_node@ || names@[w]@ == e.to_node@);
                    assert(edges@[i as int] == *e);
                }
            }
            let mut seen = false;
            let mut k: usize = 0;
            while k < starts.len()
                invariant
                    k <= starts@.len(),
                    seen <==> exists|q: int| 0 <= q < k && #[trigger] starts@[q] == u,
                decreases starts.len() - k,
            {
                if starts[k] == u {
                    seen = true;
                }
                k = k + 1;
            }
            let ghost s1 = starts@;
            if !seen {
                starts.push(u);
            }
            assert(starts_exact(adj@, starts@)) by {
                assert forall|q: int| 0 <= q < starts@.len() implies #[trigger] starts@[q] < adj@.len() by {
                    if q < s1.len() {
                        assert(starts@[q] == s1[q]);
                    }
                }
                assert forall|x: usize| x < adj@.len() implies (adj@[x as int]@.len() > 0 <==> #[trigger] starts@.contains(
                    x,
                )) by {
                    if x == u {
                        assert(adj@[u as int]@.len() > 0);
                        if seen {
                            let q = choose|q: int| 0 <= q < k && #[trigger] starts@[q] == u;
                            assert(starts@[q] == u);
                        } else {
                            assert(starts@[s1.len() as int] == u);
                        }
                    } else {
                        assert(adj@[x as int] == a1[x as int]);
                        if x < a0.len() {
                            assert(a1[x as int] == a0[x as int]);
                        } else {
                            assert(a1[x as int]@.len() == 0);
                        }
                        if starts@.contains(x) {
                            let q = choose|q: int| 0 <= q < starts@.len() && starts@[q] == x;
                            if q < s1.len() {
                                assert(s1[q] == x);
                                assert(s1.contains(x));
                            }
                        }
                        if s0.contains(x) {
                            let q = choose|q: int| 0 <= q < s0.len() && s0[q] == x;
                            assert(starts@[q] == x);
                        }
                    }
                }
            }
        } else {
            assert(edges@[i as int] == *e);
        }
        i = i + 1;
    }
    (names, adj, starts)
}

pub open spec fn index_cycle_names(names: Seq<Vec<char>>, c: Seq<usize>) -> Seq<Seq<char>> {
    c.map_values(|u: usize| names[u as int]@)
}

fn same_indices(a: &Vec<usize>, b: &Vec<usize>) -> (r: bool)
    ensures
        r == (a@ == b@),
{
    if a.len() != b.len() {
        return false;
    }
    let mut i: usize = 0;
    while i < a.len()
        invariant
            i <= a@.len(),
            a@.len() == b@.len(),
            forall|j: int| 0 <= j < i ==> a@[j] == b@[j],
        decreases a.len() - i,
    {
        if a[i] != b[i] {
            return false;
        }
        i = i + 1;
    }
    assert(a@ =~= b@);
    true
}

/// A report of the cycles of the relation graph: each path is a cycle, the
/// paths run shortest first, no path repeats the one before it, and at least
/// one is reported exactly when the graph has a cycle.
pub open spec fn cycle_report(edges: Seq<RelationEdge>, paths: Seq<Vec<String>>) -> bool {
    &&& forall|k: int| 0 <= k < paths.len() ==> is_cycle(edges, string_views(#[trigger] paths[k]@))
    &&& forall|k: int| 0 <= k < paths.len() - 1 ==> (#[trigger] paths[k]@).len() <= paths[k + 1]@.len()
    &&& forall|k: int| 0 <= k < paths.len() - 1 ==> string_views(#[trigger] paths[k]@) != string_views(paths[k + 1]@)
    &&& (paths.len() > 0 <==> exists|c: Seq<Seq<char>>| #[trigger] is_cycle(edges, c))
}

/// The cycles of the relation graph found by depth-first search from each
/// node with successors, shortest first, without repeating a cycle twice in a
/// row. At least one is reported exactly when the graph has a cycle.
pub fn detect_relation_cycles(edges: &Vec<RelationEdge>) -> (r: Vec<Vec<String>>)
    ensures
        cycle_report(edges@, r@),
{
    let (names, adj, starts) = relation_graph(edges);
    let n = adj.len();
    let mut visiting: Vec<bool> = Vec::new();
    let mut visited: Vec<bool> = Vec::new();
    let mut i: usize = 0;
    while i < n
        invariant
            i <= n,
            n == adj@.len(),
            visiting@.len() == i,
            visited@.len() == i,
            forall|j: int| 0 <= j < i ==> !(#[trigger] visiting@[j]),
            forall|j: int| 0 <= j < i ==> !(#[trigger] visited@[j]),
        decreases n - i,
    {
        visiting.push(false);
        visited.push(false);
        i = i + 1;
    }
    let mut stack: Vec<usize> = Vec::new();
    let mut cycles: Vec<Vec<usize>> = Vec::new();
    assert(done_ok(adj@, visited@)) by {
        assert forall|c: Seq<usize>| #[trigger] valid_cycle(adj@, c) implies !all_done(visited@, c) by {
            assert(!visited@[c[0] as int] || c[0] >= visited@.len());
        }
    }
    let mut k: usize = 0;
    while k < starts.len()
        invariant
            k <= starts@.len(),
            forall|q: int| 0 <= q < starts@.len() ==> #[trigger] starts@[q] < adj@.len(),
            adj_sound(adj@, names@, edges@),
            visiting@.len() == adj@.len(),
            visited@.len() == adj@.len(),
            forall|j: int| 0 <= j < adj@.len() ==> !(#[trigger] visiting@[j]),
            stack@.len() == 0,
            forall|q: int| 0 <= q < cycles@.len() ==> valid_cycle(adj@, #[trigger] cycles@[q]@),
            cycles@.len() == 0 ==> done_ok(adj@, visited@),
            cycles@.len() == 0 ==> forall|q: int| 0 <= q < k ==> #[trigger] visited@[starts@[q] as int],
        decreases starts.len() - k,
    {
        assert(adj_ok(adj@));
        assert(stack_ok(adj@, stack@, visiting@)) by {
            assert forall|i: usize| i < visiting@.len() implies (#[trigger] visiting@[i as int] <==> stack@.contains(i)) by {
                assert(!visiting@[i as int]);
            }
        }
        let ghost vb = visited@;
        dfs(starts[k], &adj, &mut visiting, &mut visited, &mut stack, &mut cycles);
        assert(cycles@.len() == 0 ==> forall|q: int| 0 <= q < k + 1 ==> #[trigger] visited@[starts@[q] as int]) by {
            if cycles@.len() == 0 {
                assert forall|q: int| 0 <= q < k + 1 implies #[trigger] visited@[starts@[q] as int] by {
                    if q < k {
                        assert(vb[starts@[q] as int]);
                    }
                }
            }
        }
        k = k + 1;
    }
    proof {
        if cycles@.len() == 0 {
            assert forall|c: Seq<usize>| !#[trigger] valid_cycle(adj@, c) by {
                lemma_no_index_cycle(adj@, visited@, starts@, c);
            }
        }
    }
    let mut stamps: Vec<u64> = Vec::new();
    let mut q: usize = 0;
    while q < cycles.len()
        invariant
            q <= cycles@.len(),
            stamps@.len() == q,
            forall|j: int| 0 <= j < q ==> #[trigger] stamps@[j] == cycles@[j]@.len(),
        decreases cycles.len() - q,
    {
        stamps.push(cycles[q].len() as u64);
        q = q + 1;
    }
    let ghost unsorted = cycles@;
    let sorted = crate::timeline::sort_by_stamps(cycles, stamps);
    proof {
        lemma_sorted_cycles(unsorted, stamps@, adj@);
    }
    let mut out: Vec<Vec<String>> = Vec::new();
    let mut last_len: usize = 0;
    let mut m: usize = 0;
    while m < sorted.len()
        invariant
            m <= sorted@.len(),
            adj_ok(adj@),
            adj_sound(adj@, names@, edges@),
            forall|j: int| 0 <= j < sorted@.len() ==> valid_cycle(adj@, #[trigger] sorted@[j]@),
            forall|i: int, j: int| 0 <= i <= j < sorted@.len() ==> (#[trigger] sorted@[i]@).len() <= (
            #[trigger] sorted@[j]@).len(),
            forall|j: int| 0 <= j < out@.len() ==> is_cycle(edges@, string_views(#[trigger] out@[j]@)),
            forall|j: int| 0 <= j < out@.len() - 1 ==> (#[trigger] out@[j]@).len() <= out@[j + 1]@.len(),
            forall|j: int| 0 <= j < out@.len() - 1 ==> string_views(#[trigger] out@[j]@) != string_views(
                out@[j + 1]@,
            ),
            out@.len() > 0 ==> out@.last()@.len() == last_len,
            m > 0 ==> out@.len() > 0,
            out@.len() > 0 ==> forall|j: int| m <= j < sorted@.len() ==> last_len <= (#[trigger] sorted@[j]@).len(),
        decreases sorted.len() - m,
    {
        let c = &sorted[m];
        proof {
            lemma_named_cycle(adj@, names@, edges@, c@);
        }
        let named = cycle_names(&names, c);
        let repeat = out.len() > 0 && same_names(&out[out.len() - 1], &named);
        if !repeat {
            let ghost o0 = out@;
            out.push(named);
            assert forall|j: int| 0 <= j < out@.len() implies is_cycle(edges@, string_views(#[trigger] out@[j]@)) by {
                if j < o0.len() {
                    assert(out@[j] == o0[j]);
                }
            }
            assert forall|j: int| 0 <= j < out@.len() - 1 implies (#[trigger] out@[j]@).len() <= out@[j + 1]@.len() by {
                if j < o0.len() - 1 {
                    assert(out@[j] == o0[j] && out@[j + 1] == o0[j + 1]);
                } else {
                    assert(out@[j] == o0.last());
                }
            }
            assert forall|j: int| 0 <= j < out@.len() - 1 implies string_views(#[trigger] out@[j]@) != string_views(
                out@[j + 1]@,
            ) by {
                if j < o0.len() - 1 {
                    assert(out@[j] == o0[j] && out@[j + 1] == o0[j + 1]);
                } else {
                    assert(out@[j] == o0.last());
                }
            }
            last_len = c.len();
            assert forall|j: int| m + 1 <= j < sorted@.len() implies last_len <= (#[trigger] sorted@[j]@).len() by {
                assert(sorted@[m as int]@.len() <= sorted@[j]@.len());
            }
        } else {
            assert(out@.last()@.len() == named@.len());
        }
        m = m + 1;
    }
    proof {
        if out@.len() > 0 {
            assert(is_cycle(edges@, string_views(out@[0]@)));
        } else {
            assert(sorted@.len() == 0);
            assert(cycles@.len() == 0);
            assert forall|c: Seq<Seq<char>>| !#[trigger] is_cycle(edges@, c) by {
                if is_cycle(edges@, c) {
                    lemma_index_cycle(adj@, names@, edges@, c);
                    assert(!valid_cycle(adj@, name_indices(names@, c)));
                }
            }
        }
    }
    out
}

proof fn lemma_sorted_cycles(unsorted: Seq<Vec<usize>>, stamps: Seq<u64>, adj: Seq<Vec<usize>>)
    requires
        stamps.len() == unsorted.len(),
        forall|j: int| 0 <= j < unsorted.len() ==> #[trigger] stamps[j] == unsorted[j]@.len(),
        forall|j: int| 0 <= j < unsorted.len() ==> valid_cycle(adj, #[trigger] unsorted[j]@),
    ensures
        ({
            let s = crate::timeline::sorted_by_stamps(unsorted, stamps);
            &&& s.len() == unsorted.len()
            &&& forall|j: int| 0 <= j < s.len() ==> valid_cycle(adj, #[trigger] s[j]@)
            &&& forall|i: int, j: int| 0 <= i <= j < s.len() ==> (#[trigger] s[i]@).len() <= (#[trigger] s[j]@).len()
        }),
{
    let st = crate::timeline::stamped(unsorted, stamps);
    crate::timeline::lemma_sort_stamped(st);
    let ss = crate::timeline::sort_stamped(st);
    let s = crate::timeline::sorted_by_stamps(unsorted, stamps);
    assert forall|k: int| 0 <= k < ss.len() implies ss[k].0 == (#[trigger] ss[k]).1@.len() && valid_cycle(
        adj,
        ss[k].1@,
    ) by {
        let p = ss[k];
        ss.to_multiset_ensures();
        st.to_multiset_ensures();
        assert(ss.contains(p));
        assert(ss.to_multiset().count(p) > 0);
        assert(st.to_multiset().count(p) > 0);
        assert(st.contains(p));
        let i = choose|i: int| 0 <= i < st.len() && st[i] == p;
        assert(p == (stamps[i], unsorted[i]));
    }
    assert forall|j: int| 0 <= j < s.len() implies valid_cycle(adj, #[trigger] s[j]@) by {
        assert(s[j] == ss[j].1);
    }
    assert forall|i: int, j: int| 0 <= i <= j < s.len() implies (#[trigger] s[i]@).len() <= (#[trigger] s[j]@).len() by {
        assert(s[i] == ss[i].1);
        assert(s[j] == ss[j].1);
        assert(ss[i].0 <= ss[j].0);
    }
}

proof fn lemma_named_cycle(adj: Seq<Vec<usize>>, names: Seq<Vec<char>>, edges: Seq<RelationEdge>, c: Seq<usize>)
    requires
        adj_sound(adj, names, edges),
        valid_cycle(adj, c),
    ensures
        forall|k: int| 0 <= k < c.len() ==> #[trigger] c[k] < names.len(),
        is_cycle(edges, index_cycle_names(names, c)),
{
    let nc = index_cycle_names(names, c);
    assert forall|k: int| 0 <= k < c.len() implies #[trigger] c[k] < names.len() by {
        if k < c.len() - 1 {
            assert(has_edge(adj, c[k], c[k + 1]));
        } else {
            assert(has_edge(adj, c.last(), c[0]));
        }
    }
    assert forall|k: int| 0 <= k < nc.len() - 1 implies rel_edge(edges, #[trigger] nc[k], nc[k + 1]) by {
        assert(has_edge(adj, c[k], c[k + 1]));
        let row = adj[c[k] as int]@;
        let m = choose|m: int| 0 <= m < row.len() && row[m] == c[k + 1];
        assert(adj[c[k] as int]@[m] == c[k + 1]);
    }
    assert(rel_edge(edges, nc.last(), nc[0])) by {
        assert(has_edge(adj, c.last(), c[0]));
        let row = adj[c.last() as int]@;
        let m = choose|m: int| 0 <= m < row.len() && row[m] == c[0];
        assert(adj[c.last() as int]@[m] == c[0]);
        assert(nc.last() == names[c.last() as int]@);
    }
}

fn cycle_names(names: &Vec<Vec<char>>, c: &Vec<usize>) -> (r: Vec<String>)
    requires
        forall|k: int| 0 <= k < c@.len() ==> #[trigger] c@[k] < names@.len(),
    ensures
        string_views(r@) == index_cycle_names(names@, c@),
        r@.len() == c@.len(),
{
    let mut out: Vec<String> = Vec::new();
    let mut i: usize = 0;
    while i < c.len()
        invariant
            i <= c@.len(),
            forall|k: int| 0 <= k < c@.len() ==> #[trigger] c@[k] < names@.len(),
            string_views(out@) =~= index_cycle_names(names@, c@).take(i as int),
        decreases c.len() - i,
    {
        let ghost o0 = string_views(out@);
        out.push(string_of(&names[c[i]]));
        assert(string_views(out@) =~= o0.push(names@[c@[i as int] as int]@));
        assert(index_cycle_names(names@, c@).take(i + 1) =~= index_cycle_names(names@, c@).take(i as int).push(
            names@[c@[i as int] as int]@,
        ));
        i = i + 1;
    }
    assert(index_cycle_names(names@, c@).take(c@.len() as int) =~= index_cycle_names(names@, c@));
    out
}

fn same_names(a: &Vec<String>, b: &Vec<String>) -> (r: bool)
    ensures
        r == (string_views(a@) == string_views(b@)),
{
    if a.len() != b.len() {
        assert(string_views(a@).len() != string_views(b@).len());
        return false;
    }
    let mut i: usize = 0;
    while i < a.len()
        invariant
            i <= a@.len(),
            a@.len() == b@.len(),
            forall|j: int| 0 <= j < i ==> a@[j]@ == b@[j]@,
        decreases a.len() - i,
    {
        if !chars_eq(&chars_of(a[i].as_str()), &chars_of(b[i].as_str())) {
            assert(string_views(a@)[i as int] != string_views(b@)[i as int]);
            return false;
        }
        i = i + 1;
    }
    assert(string_views(a@) =~= string_views(b@));
    true
}

// ---------------------------------------------------------------------------
// The consistency report and its repair plan.
// ---------------------------------------------------------------------------

/// The outcome of the relation consistency checks of a session.
#[derive(Debug)]
pub struct RelationCheckReport {
    pub session_id: String,
    pub trace_filter: Option<String>,
    pub healthy: bool,
    pub replay_fp: String,
    pub generated_at_ms: u64,
    pub missing_evidence_edges: Vec<String>,
    pub missing_evidence_events: Vec<String>,
    pub events_with_missing_edge_ref: Vec<MissingEdgeRef>,
    pub orphan_edges: Vec<OrphanEdge>,
    pub conflicting_relations: Vec<RelationConflict>,
    pub duplicate_relations: Vec<DuplicateRelation>,
    pub cycle_paths: Vec<Vec<String>>,
    pub summary: String,
}

/// `replayfp:` and sixteen hex digits of the hash of the check's inputs.
pub open spec fn replay_fingerprint_spec(
    session_id: Seq<char>,
    trace_id: Seq<char>,
    at_ms: u64,
    edges: usize,
    events: usize,
) -> Seq<char> {
    "replayfp:"@ + crate::text::hex16(relation_hash(session_id, trace_id, at_ms, edges, events))
}

pub fn relation_replay_fingerprint(session_id: &str, trace_id: &str, at_ms: u64, edges: usize, events: usize) -> (r: String)
    ensures
        r@ == replay_fingerprint_spec(session_id@, trace_id@, at_ms, edges, events),
{
    let h = default_hash_relation(session_id, trace_id, at_ms, edges, events);
    let mut v = chars_of("replayfp:");
    let hex = crate::text::hex16_chars(h);
    crate::text::push_all(&mut v, &hex);
    string_of(&v)
}

/// The events of one trace, or all of them when no trace is named.
pub open spec fn events_of_trace(events: Seq<RelationEvent>, trace_id: Option<Seq<char>>) -> Seq<RelationEvent>
    decreases events.len(),
{
    if events.len() == 0 {
        Seq::empty()
    } else {
        let rest = events_of_trace(events.drop_last(), trace_id);
        match trace_id {
            Some(t) => if events.last().trace_id@ == t {
                rest.push(events.last())
            } else {
                rest
            },
            None => rest.push(events.last()),
        }
    }
}

/// The report of `relation_check` on these edges and (trace-filtered) events.
pub open spec fn report_matches(
    r: RelationCheckReport,
    session_id: Seq<char>,
    trace_id: Option<Seq<char>>,
    edges: Seq<RelationEdge>,
    events: Seq<RelationEvent>,
    now: u64,
) -> bool {
    let evs = events_of_trace(events, trace_id);
    &&& r.session_id@ == session_id
    &&& opt_view(r.trace_filter) == trace_id
    &&& r.generated_at_ms == now
    &&& r.replay_fp@ == replay_fingerprint_spec(
        session_id,
        match trace_id {
            Some(t) => t,
            None => "trace:any"@,
        },
        now,
        edges.len() as usize,
        evs.len() as usize,
    )
    &&& string_views(r.missing_evidence_edges@) == edges_missing_evidence(edges)
    &&& string_views(r.missing_evidence_events@) == events_missing_evidence(evs)
    &&& r.events_with_missing_edge_ref@.map_values(|m: MissingEdgeRef| missing_ref_view(m)) == dangling_refs(
        edges,
        evs,
    )
    &&& r.orphan_edges@.map_values(|o: OrphanEdge| orphan_view(o)) == orphan_edges_spec(edges)
    &&& r.conflicting_relations@.len() == conflicts_spec(edges).len()
    &&& (forall|k: int|
        0 <= k < r.conflicting_relations@.len() ==> conflict_matches(
            #[trigger] r.conflicting_relations@[k],
            edges,
            conflicts_spec(edges)[k],
        ))
    &&& r.duplicate_relations@.len() == duplicates_spec(edges).len()
    &&& (forall|k: int|
        0 <= k < r.duplicate_relations@.len() ==> duplicate_matches(
            #[trigger] r.duplicate_relations@[k],
            edges,
            duplicates_spec(edges)[k],
        ))
    &&& cycle_report(edges, r.cycle_paths@)
    &&& r.healthy == (edges_missing_evidence(edges).len() == 0 && events_missing_evidence(evs).len() == 0
        && dangling_refs(edges, evs).len() == 0 && orphan_edges_spec(edges).len() == 0 && conflicts_spec(
        edges,
    ).len() == 0 && duplicates_spec(edges).len() == 0 && r.cycle_paths@.len() == 0)
    &&& r.summary@ == (if r.healthy {
        "relation checks passed"@
    } else {
        "relation checks found consistency gaps"@
    })
}

/// A relation graph with a cycle is reported unhealthy, with a cycle listed.
pub proof fn law_cycle_makes_report_unhealthy(
    r: RelationCheckReport,
    session_id: Seq<char>,
    trace_id: Option<Seq<char>>,
    edges: Seq<RelationEdge>,
    events: Seq<RelationEvent>,
    now: u64,
    c: Seq<Seq<char>>,
)
    requires
        report_matches(r, session_id, trace_id, edges, events, now),
        is_cycle(edges, c),
    ensures
        !r.healthy,
        r.cycle_paths@.len() > 0,
        r.summary@ == "relation checks found consistency gaps"@,
{
}

/// Runs the relation consistency checks on the session's edges and on its
/// events (those of `trace_id` when one is named) at time `now`.
pub fn relation_check(
    session_id: &str,
    trace_id: Option<&str>,
    edges: &Vec<RelationEdge>,
    events: Vec<RelationEvent>,
    now: u64,
) -> (r: RelationCheckReport)
    ensures
        report_matches(
            r,
            session_id@,
            match trace_id {
                Some(t) => Some(t@),
                None => None,
            },
            edges@,
            events@,
            now,
        ),
{
    let ghost tid = match trace_id {
        Some(t) => Some(t@),
        None => None::<Seq<char>>,
    };
    let ghost all = events@;
    let mut rest = events;
    let mut kept: Vec<RelationEvent> = Vec::new();
    let mut i: usize = 0;
    let n = rest.len();
    while rest.len() > 0
        invariant
            n == all.len(),
            i + rest@.len() == n,
            rest@ =~= all.skip(i as int),
            kept@ =~= events_of_trace(all.take(i as int), tid),
            tid == match trace_id {
                Some(t) => Some(t@),
                None => None::<Seq<char>>,
            },
        decreases rest@.len(),
    {
        let ghost r0 = rest@;
        let e = rest.remove(0);
        assert(e == all[i as int]) by {
            assert(all.skip(i as int)[0] == all[i as int]);
        }
        assert(all.take(i + 1).drop_last() =~= all.take(i as int));
        let keep = match trace_id {
            Some(t) => crate::text::chars_eq_str(&chars_of(e.trace_id.as_str()), t),
            None => true,
        };
        if keep {
            kept.push(e);
        }
        i = i + 1;
        assert(rest@ =~= all.skip(i as int)) by {
            assert forall|m: int| 0 <= m < rest@.len() implies rest@[m] == all.skip(i as int)[m] by {
                assert(rest@[m] == r0[m + 1]);
            }
        }
    }
    assert(all.take(n as int) =~= all);
    let (no_ev_edges, no_ev_events, dangling, orphans) = reference_checks(edges, &kept);
    let conflicts = conflicting_relations(edges);
    let duplicates = duplicate_relations(edges);
    let cycles = detect_relation_cycles(edges);
    let healthy = no_ev_edges.len() == 0 && no_ev_events.len() == 0 && dangling.len() == 0 && orphans.len() == 0
        && conflicts.len() == 0 && duplicates.len() == 0 && cycles.len() == 0;
    proof {
        assert(string_views(no_ev_edges@).len() == no_ev_edges@.len());
        assert(string_views(no_ev_events@).len() == no_ev_events@.len());
        assert(dangling@.map_values(|m: MissingEdgeRef| missing_ref_view(m)).len() == dangling@.len());
        assert(orphans@.map_values(|o: OrphanEdge| orphan_view(o)).len() == orphans@.len());
    }
    let trace_text = match trace_id {
        Some(t) => t,
        None => "trace:any",
    };
    let fp = relation_replay_fingerprint(session_id, trace_text, now, edges.len(), kept.len());
    RelationCheckReport {
        session_id: text(session_id),
        trace_filter: match trace_id {
            Some(t) => Some(text(t)),
            None => None,
        },
        healthy,
        replay_fp: fp,
        generated_at_ms: now,
        missing_evidence_edges: no_ev_edges,
        missing_evidence_events: no_ev_events,
        events_with_missing_edge_ref: dangling,
        orphan_edges: orphans,
        conflicting_relations: conflicts,
        duplicate_relations: duplicates,
        cycle_paths: cycles,
        summary: if healthy {
            text("relation checks passed")
        } else {
            text("relation checks found consistency gaps")
        },
    }
}

/// Whether a repair changes a record or records that nothing needs fixing.
#[derive(Debug, Clone, Copy, PartialEq, Eq, Structural)]
pub enum RepairOpKind {
    Update,
    NoChange,
}

/// One step of a repair plan.
#[derive(Debug)]
pub struct RepairOp {
    pub kind: RepairOpKind,
    pub target: String,
    pub reason: String,
}

/// The repair proposed for a relation graph.
#[derive(Debug)]
pub struct RepairPlan {
    pub namespace: String,
    pub ops: Vec<RepairOp>,
}

pub open spec fn repair_note(reason: Option<Seq<char>>) -> Seq<char> {
    match reason {
        Some(r) => r,
        None => "relation consistency check"@,
    }
}

pub open spec fn op_view(o: RepairOp) -> (RepairOpKind, Seq<char>, Seq<char>) {
    (o.kind, o.target@, o.reason@)
}

/// The update steps of a repair, in order: orphan edges, then events naming
/// missing edges, then cycles.
pub open spec fn repair_updates(r: RelationCheckReport, note: Seq<char>) -> Seq<(RepairOpKind, Seq<char>, Seq<char>)> {
    r.orphan_edges@.map_values(
        |o: OrphanEdge|
            (RepairOpKind::Update, "relation:edge:"@ + o.edge_id@, "repair orphan edge endpoint ("@ + note + ")"@),
    ) + r.events_with_missing_edge_ref@.map_values(
        |m: MissingEdgeRef|
            (
                RepairOpKind::Update,
                "relation:event:"@ + m.event_id@,
                "repair missing edge reference ("@ + note + ")"@,
            ),
    ) + Seq::new(
        r.cycle_paths@.len(),
        |i: int|
            (
                RepairOpKind::Update,
                "relation:cycle:"@ + crate::text::decimal(i as nat),
                "repair cycle in relation graph ("@ + note + ")"@,
            ),
    )
}

/// The repair plan for a report: one update per finding, or a single step
/// saying nothing needs fixing.
pub fn build_relation_repair_patch(session_id: &str, report: &RelationCheckReport, reason: Option<&str>) -> (r: RepairPlan)
    requires
        report.cycle_paths@.len() <= u64::MAX,
    ensures
        r.namespace@ == "relation:"@ + session_id@,
        ({
            let ups = repair_updates(
                *report,
                repair_note(
                    match reason {
                        Some(t) => Some(t@),
                        None => None,
                    },
                ),
            );
            r.ops@.map_values(|o: RepairOp| op_view(o)) == if ups.len() > 0 {
                ups
            } else {
                seq![
                    (
                        RepairOpKind::NoChange,
                        "relation:session:"@ + session_id@,
                        "no relation consistency fix required"@,
                    ),
                ]
            }
        }),
{
    let ghost note = repair_note(
        match reason {
            Some(t) => Some(t@),
            None => None,
        },
    );
    let note_text = match reason {
        Some(t) => t,
        None => "relation consistency check",
    };
    let ghost ups = repair_updates(*report, note);
    let ghost a = report.orphan_edges@.map_values(
        |o: OrphanEdge|
            (RepairOpKind::Update, "relation:edge:"@ + o.edge_id@, "repair orphan edge endpoint ("@ + note + ")"@),
    );
    let ghost b = report.events_with_missing_edge_ref@.map_values(
        |m: MissingEdgeRef|
            (
                RepairOpKind::Update,
                "relation:event:"@ + m.event_id@,
                "repair missing edge reference ("@ + note + ")"@,
            ),
    );
    let ghost c = Seq::new(
        report.cycle_paths@.len(),
        |i: int|
            (
                RepairOpKind::Update,
                "relation:cycle:"@ + crate::text::decimal(i as nat),
                "repair cycle in relation graph ("@ + note + ")"@,
            ),
    );
    let mut ops: Vec<RepairOp> = Vec::new();
    let mut i: usize = 0;
    while i < report.orphan_edges.len()
        invariant
            i <= report.orphan_edges@.len(),
            note_text@ == note,
            a == report.orphan_edges@.map_values(
                |o: OrphanEdge|
                    (
                        RepairOpKind::Update,
                        "relation:edge:"@ + o.edge_id@,
                        "repair orphan edge endpoint ("@ + note + ")"@,
                    ),
            ),
            ops@.map_values(|o: RepairOp| op_view(o)) =~= a.take(i as int),
        decreases report.orphan_edges.len() - i,
    {
        let mut t = chars_of("relation:edge:");
        push_str(&mut t, report.orphan_edges[i].edge_id.as_str());
        let mut why = chars_of("repair orphan edge endpoint (");
        push_str(&mut why, note_text);
        push_str(&mut why, ")");
        let ghost o0 = ops@.map_values(|o: RepairOp| op_view(o));
        ops.push(RepairOp { kind: RepairOpKind::Update, target: string_of(&t), reason: string_of(&why) });
        assert(ops@.map_values(|o: RepairOp| op_view(o)) =~= o0.push(a[i as int]));
        assert(a.take(i + 1) =~= a.take(i as int).push(a[i as int]));
        i = i + 1;
    }
    let mut j: usize = 0;
    while j < report.events_with_missing_edge_ref.len()
        invariant
            j <= report.events_with_missing_edge_ref@.len(),
            note_text@ == note,
            a.len() == report.orphan_edges@.len(),
            b == report.events_with_missing_edge_ref@.map_values(
                |m: MissingEdgeRef|
                    (
                        RepairOpKind::Update,
                        "relation:event:"@ + m.event_id@,
                        "repair missing edge reference ("@ + note + ")"@,
                    ),
            ),
            ops@.map_values(|o: RepairOp| op_view(o)) =~= a + b.take(j as int),
        decreases report.events_with_missing_edge_ref.len() - j,
    {
        let mut t = chars_of("relation:event:");
        push_str(&mut t, report.events_with_missing_edge_ref[j].event_id.as_str());
        let mut why = chars_of("repair missing edge reference (");
        push_str(&mut why, note_text);
        push_str(&mut why, ")");
        let ghost o0 = ops@.map_values(|o: RepairOp| op_view(o));
        ops.push(RepairOp { kind: RepairOpKind::Update, target: string_of(&t), reason: string_of(&why) });
        assert(ops@.map_values(|o: RepairOp| op_view(o)) =~= o0.push(b[j as int]));
        assert(a + b.take(j + 1) =~= (a + b.take(j as int)).push(b[j as int]));
        j = j + 1;
    }
    let mut k: usize = 0;
    while k < report.cycle_paths.len()
        invariant
            k <= report.cycle_paths@.len(),
            report.cycle_paths@.len() <= u64::MAX,
            note_text@ == note,
            c == Seq::new(
                report.cycle_paths@.len(),
                |i: int|
                    (
                        RepairOpKind::Update,
                        "relation:cycle:"@ + crate::text::decimal(i as nat),
                        "repair cycle in relation graph ("@ + note + ")"@,
                    ),
            ),
            ops@.map_values(|o: RepairOp| op_view(o)) =~= a + b + c.take(k as int),
        decreases report.cycle_paths.len() - k,
    {
        let mut t = chars_of("relation:cycle:");
        push_decimal(&mut t, k as u64);
        let mut why = chars_of("repair cycle in relation graph (");
        push_str(&mut why, note_text);
        push_str(&mut why, ")");
        let ghost o0 = ops@.map_values(|o: RepairOp| op_view(o));
        ops.push(RepairOp { kind: RepairOpKind::Update, target: string_of(&t), reason: string_of(&why) });
        assert(ops@.map_values(|o: RepairOp| op_view(o)) =~= o0.push(c[k as int]));
        assert(a + b + c.take(k + 1) =~= (a + b + c.take(k as int)).push(c[k as int]));
        k = k + 1;
    }
    assert(ops@.map_values(|o: RepairOp| op_view(o)) =~= ups);
    if ops.len() == 0 {
        let mut t = chars_of("relation:session:");
        push_str(&mut t, session_id);
        ops.push(
            RepairOp {
                kind: RepairOpKind::NoChange,
                target: string_of(&t),
                reason: text("no relation consistency fix required"),
            },
        );
    }
    let mut ns = chars_of("relation:");
    push_str(&mut ns, session_id);
    RepairPlan { namespace: string_of(&ns), ops }
}

} // verus!
