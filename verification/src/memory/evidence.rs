//! What a session's learning records say about a proposal and about its
//! failures: the witness logs and episodes related to a proposal's anchor,
//! and the failures clustered by pattern. Scores are `f32` values held as
//! their IEEE-754 bits.
use vstd::prelude::*;

use crate::groups::{dedup_first, dedup_texts, lemma_dedup_first, positions_exec, positions_of, text_views};
use crate::memory::context::{normalize, normalize_spec};
use crate::memory::learning::{is_nan_bits, ReflexionEpisodeEntry};
use crate::observability::business::string_views;
use crate::text::{chars_eq_str, chars_of, contains, contains_exec, contains_str, lower, push_all, push_str, string_of, to_lower};

verus! {

/// A stored witness log: an observation and its score.
#[derive(Debug)]
pub struct WitnessEntry {
    pub id: String,
    pub session_id: String,
    pub source: String,
    pub detail: String,
    pub score_bits: u32,
    pub metadata_json: String,
    pub created_at_ms: u64,
}

/// The score is below zero (`score < 0.0`: not NaN, not a zero).
pub open spec fn is_negative(b: u32) -> bool {
    !is_nan_bits(b) && b > 0x8000_0000
}

/// The score is zero or above (`score >= 0.0`: not NaN).
pub open spec fn is_non_negative(b: u32) -> bool {
    !is_nan_bits(b) && b <= 0x8000_0000
}

fn is_negative_exec(b: u32) -> (r: bool)
    ensures
        r == is_negative(b),
{
    !((b / 0x80_0000) % 0x100 == 0xff && b % 0x80_0000 != 0) && b > 0x8000_0000
}

fn is_non_negative_exec(b: u32) -> (r: bool)
    ensures
        r == is_non_negative(b),
{
    !((b / 0x80_0000) % 0x100 == 0xff && b % 0x80_0000 != 0) && b <= 0x8000_0000
}

// ---------------------------------------------------------------------------
// Evidence for a proposal.
// ---------------------------------------------------------------------------

/// A witness log speaks of the anchor: its detail and metadata, lower-cased
/// and joined by a space, contain the lower-cased anchor.
pub open spec fn witness_related(w: WitnessEntry, anchor: Seq<char>) -> bool {
    contains(lower(w.detail@) + " "@ + lower(w.metadata_json@), lower(anchor))
}

/// An episode speaks of the anchor: its objective, hypothesis and lesson,
/// lower-cased and joined by spaces, contain the lower-cased anchor.
pub open spec fn episode_related(e: ReflexionEpisodeEntry, anchor: Seq<char>) -> bool {
    contains(
        lower(e.objective@) + " "@ + lower(e.hypothesis@) + " "@ + lower(e.lesson@),
        lower(anchor),
    )
}

/// A detail that sounds biased: it says always, never, only or bias.
pub open spec fn sounds_biased(detail: Seq<char>) -> bool {
    let d = lower(detail);
    contains(d, "always"@) || contains(d, "never"@) || contains(d, "only"@) || contains(d, "bias"@)
}

pub open spec fn related_witness(ws: Seq<WitnessEntry>, anchor: Seq<char>) -> Seq<WitnessEntry>
    decreases ws.len(),
{
    if ws.len() == 0 {
        Seq::empty()
    } else {
        let r = related_witness(ws.drop_last(), anchor);
        if witness_related(ws.last(), anchor) {
            r.push(ws.last())
        } else {
            r
        }
    }
}

pub open spec fn related_episodes(es: Seq<ReflexionEpisodeEntry>, anchor: Seq<char>) -> Seq<ReflexionEpisodeEntry>
    decreases es.len(),
{
    if es.len() == 0 {
        Seq::empty()
    } else {
        let r = related_episodes(es.drop_last(), anchor);
        if episode_related(es.last(), anchor) {
            r.push(es.last())
        } else {
            r
        }
    }
}

pub open spec fn count_where(ws: Seq<WitnessEntry>, negative: bool) -> nat
    decreases ws.len(),
{
    if ws.len() == 0 {
        0
    } else {
        count_where(ws.drop_last(), negative) + if (negative && is_negative(ws.last().score_bits)) || (!negative
            && is_non_negative(ws.last().score_bits)) {
            1nat
        } else {
            0nat
        }
    }
}

pub open spec fn biased_details(ws: Seq<WitnessEntry>) -> Seq<Seq<char>>
    decreases ws.len(),
{
    if ws.len() == 0 {
        Seq::empty()
    } else {
        let r = biased_details(ws.drop_last());
        if sounds_biased(ws.last().detail@) {
            r.push(ws.last().detail@)
        } else {
            r
        }
    }
}

/// The evidence a session's records hold for a proposal's anchor: the ids of
/// the related witness logs and episodes, how many related logs score at
/// least zero and below zero, and the related details that sound biased.
#[derive(Debug)]
pub struct EvidenceSelection {
    pub witness_ids: Vec<String>,
    pub episode_ids: Vec<String>,
    pub positive: usize,
    pub negative: usize,
    pub bias_flags: Vec<String>,
}

/// What the evidence for `anchor` holds.
pub open spec fn evidence_matches(
    r: EvidenceSelection,
    ws: Seq<WitnessEntry>,
    es: Seq<ReflexionEpisodeEntry>,
    anchor: Seq<char>,
) -> bool {
    let rw = related_witness(ws, anchor);
    let re = related_episodes(es, anchor);
    &&& string_views(r.witness_ids@) == rw.map_values(|w: WitnessEntry| w.id@)
    &&& string_views(r.episode_ids@) == re.map_values(|e: ReflexionEpisodeEntry| e.id@)
    &&& r.positive == count_where(rw, false)
    &&& r.negative == count_where(rw, true)
    &&& string_views(r.bias_flags@) == biased_details(rw)
}

proof fn lemma_count_bound(ws: Seq<WitnessEntry>, negative: bool)
    ensures
        count_where(ws, negative) <= ws.len(),
    decreases ws.len(),
{
    if ws.len() > 0 {
        lemma_count_bound(ws.drop_last(), negative);
    }
}

proof fn lemma_related_bound(ws: Seq<WitnessEntry>, anchor: Seq<char>)
    ensures
        related_witness(ws, anchor).len() <= ws.len(),
    decreases ws.len(),
{
    if ws.len() > 0 {
        lemma_related_bound(ws.drop_last(), anchor);
    }
}

fn witness_related_exec(w: &WitnessEntry, anchor: &Vec<char>) -> (r: bool)
    requires
        anchor@ == lower(anchor@),
    ensures
        r == contains(lower(w.detail@) + " "@ + lower(w.metadata_json@), anchor@),
{
    let mut t = to_lower(&chars_of(w.detail.as_str()));
    push_str(&mut t, " ");
    let m = to_lower(&chars_of(w.metadata_json.as_str()));
    push_all(&mut t, &m);
    contains_exec(&t, anchor)
}

fn episode_related_exec(e: &ReflexionEpisodeEntry, anchor: &Vec<char>) -> (r: bool)
    ensures
        r == contains(lower(e.objective@) + " "@ + lower(e.hypothesis@) + " "@ + lower(e.lesson@), anchor@),
{
    let mut t = to_lower(&chars_of(e.objective.as_str()));
    push_str(&mut t, " ");
    let h = to_lower(&chars_of(e.hypothesis.as_str()));
    push_all(&mut t, &h);
    push_str(&mut t, " ");
    let l = to_lower(&chars_of(e.lesson.as_str()));
    push_all(&mut t, &l);
    contains_exec(&t, anchor)
}

fn sounds_biased_exec(detail: &str) -> (r: bool)
    ensures
        r == sounds_biased(detail@),
{
    let d = to_lower(&chars_of(detail));
    contains_str(&d, "always") || contains_str(&d, "never") || contains_str(&d, "only") || contains_str(&d, "bias")
}

proof fn lemma_lower_idempotent(s: Seq<char>)
    ensures
        lower(lower(s)) == lower(s),
{
    assert(lower(lower(s)) =~= lower(s)) by {
        assert forall|i: int| 0 <= i < s.len() implies #[trigger] lower(lower(s))[i] == lower(s)[i] by {
            let c = s[i];
            if 'A' <= c && c <= 'Z' {
                assert(((c as u32) + 32) as char as u32 == (c as u32) + 32);
            }
        }
    }
}

/// Selects the evidence for the anchor of a proposal (see `evidence_matches`).
pub fn select_evidence(witness: &Vec<WitnessEntry>, episodes: &Vec<ReflexionEpisodeEntry>, anchor: &str) -> (r: EvidenceSelection)
    ensures
        evidence_matches(r, witness@, episodes@, anchor@),
{
    let a = to_lower(&chars_of(anchor));
    proof {
        lemma_lower_idempotent(anchor@);
    }
    let mut witness_ids: Vec<String> = Vec::new();
    let mut positive: usize = 0;
    let mut negative: usize = 0;
    let mut bias_flags: Vec<String> = Vec::new();
    let ghost wv = witness@;
    let mut i: usize = 0;
    while i < witness.len()
        invariant
            i <= witness@.len(),
            wv == witness@,
            a@ == lower(anchor@),
            a@ == lower(a@),
            string_views(witness_ids@) == related_witness(wv.take(i as int), anchor@).map_values(
                |w: WitnessEntry| w.id@,
            ),
            positive == count_where(related_witness(wv.take(i as int), anchor@), false),
            negative == count_where(related_witness(wv.take(i as int), anchor@), true),
            string_views(bias_flags@) == biased_details(related_witness(wv.take(i as int), anchor@)),
        decreases witness.len() - i,
    {
        let ghost t1 = wv.take(i + 1);
        assert(t1.drop_last() =~= wv.take(i as int));
        assert(t1.last() == wv[i as int]);
        let ghost r0 = related_witness(wv.take(i as int), anchor@);
        proof {
            lemma_related_bound(wv.take(i as int), anchor@);
            lemma_count_bound(r0, false);
            lemma_count_bound(r0, true);
        }
        let w = &witness[i];
        if witness_related_exec(w, &a) {
            let ghost i0 = string_views(witness_ids@);
            let ghost b0 = string_views(bias_flags@);
            witness_ids.push(w.id.clone());
            assert(string_views(witness_ids@) =~= i0.push(w.id@));
            assert(r0.push(*w).drop_last() =~= r0);
            if is_non_negative_exec(w.score_bits) {
                positive = positive + 1;
            }
            if is_negative_exec(w.score_bits) {
                negative = negative + 1;
            }
            if sounds_biased_exec(w.detail.as_str()) {
                bias_flags.push(w.detail.clone());
                assert(string_views(bias_flags@) =~= b0.push(w.detail@));
            }
        }
        i = i + 1;
    }
    assert(wv.take(wv.len() as int) =~= wv);
    let mut episode_ids: Vec<String> = Vec::new();
    let ghost ev = episodes@;
    let mut j: usize = 0;
    while j < episodes.len()
        invariant
            j <= episodes@.len(),
            ev == episodes@,
            a@ == lower(anchor@),
            string_views(episode_ids@) == related_episodes(ev.take(j as int), anchor@).map_values(
                |e: ReflexionEpisodeEntry| e.id@,
            ),
        decreases episodes.len() - j,
    {
        let ghost t1 = ev.take(j + 1);
        assert(t1.drop_last() =~= ev.take(j as int));
        assert(t1.last() == ev[j as int]);
        if episode_related_exec(&episodes[j], &a) {
            let ghost e0 = string_views(episode_ids@);
            episode_ids.push(episodes[j].id.clone());
            assert(string_views(episode_ids@) =~= e0.push(episodes@[j as int].id@));
        }
        j = j + 1;
    }
    assert(ev.take(ev.len() as int) =~= ev);
    EvidenceSelection { witness_ids, episode_ids, positive, negative, bias_flags }
}

// ---------------------------------------------------------------------------
// Failure clusters.
// ---------------------------------------------------------------------------

/// Failures that share a pattern, with up to three examples.
#[derive(Debug)]
pub struct FailurePatternCluster {
    pub cluster_id: String,
    pub pattern: String,
    pub frequency: usize,
    pub representative_examples: Vec<String>,
}

/// The pattern of a failed episode, by what its outcome mentions.
pub open spec fn failure_pattern(outcome: Seq<char>) -> Seq<char> {
    let o = lower(outcome);
    if contains(o, "approval"@) {
        "approval-gated-failure"@
    } else if contains(o, "coverage"@) {
        "acceptance-coverage-gap"@
    } else {
        "execution-regression"@
    }
}

/// The episodes that did not succeed, each as its pattern and lesson.
pub open spec fn episode_failures(es: Seq<ReflexionEpisodeEntry>) -> Seq<(Seq<char>, Seq<char>)>
    decreases es.len(),
{
    if es.len() == 0 {
        Seq::empty()
    } else {
        let r = episode_failures(es.drop_last());
        let e = es.last();
        if e.status@ != "success"@ {
            r.push((failure_pattern(e.outcome@), e.lesson@))
        } else {
            r
        }
    }
}

/// The witness logs that score below zero, each as a negative witness and its detail.
pub open spec fn witness_failures(ws: Seq<WitnessEntry>) -> Seq<(Seq<char>, Seq<char>)>
    decreases ws.len(),
{
    if ws.len() == 0 {
        Seq::empty()
    } else {
        let r = witness_failures(ws.drop_last());
        if is_negative(ws.last().score_bits) {
            r.push(("negative-witness"@, ws.last().detail@))
        } else {
            r
        }
    }
}

/// Every failure as its pattern and example: failed episodes, then negative witness logs.
pub open spec fn failures(es: Seq<ReflexionEpisodeEntry>, ws: Seq<WitnessEntry>) -> Seq<(Seq<char>, Seq<char>)> {
    episode_failures(es) + witness_failures(ws)
}

/// The examples of pattern `p`, in order.
pub open spec fn examples_of(fs: Seq<(Seq<char>, Seq<char>)>, p: Seq<char>) -> Seq<Seq<char>> {
    positions_of(fs.map_values(|f: (Seq<char>, Seq<char>)| f.0), p).map_values(|i: usize| fs[i as int].1)
}

/// The cluster of pattern `p` in session `session`.
pub open spec fn cluster_matches(c: FailurePatternCluster, session: Seq<char>, fs: Seq<(Seq<char>, Seq<char>)>, p: Seq<char>) -> bool {
    let ex = examples_of(fs, p);
    &&& c.cluster_id@ == session + ":"@ + normalize_spec(p)
    &&& c.pattern@ == p
    &&& c.frequency == ex.len()
    &&& string_views(c.representative_examples@) == if ex.len() <= 3 {
        ex
    } else {
        ex.take(3)
    }
}

/// The patterns of the failures, each once, in the order they first appear.
pub open spec fn failure_patterns(es: Seq<ReflexionEpisodeEntry>, ws: Seq<WitnessEntry>) -> Seq<Seq<char>> {
    dedup_first(failures(es, ws).map_values(|f: (Seq<char>, Seq<char>)| f.0))
}

fn failure_pattern_exec(outcome: &str) -> (r: Vec<char>)
    ensures
        r@ == failure_pattern(outcome@),
{
    let o = to_lower(&chars_of(outcome));
    if contains_str(&o, "approval") {
        chars_of("approval-gated-failure")
    } else if contains_str(&o, "coverage") {
        chars_of("acceptance-coverage-gap")
    } else {
        chars_of("execution-regression")
    }
}

/// Clusters a session's failures by pattern: failed episodes by what their
/// outcome mentions, negative witness logs together; clusters in the order
/// their pattern first appears, each with its count and first three examples.
pub fn cluster_failures(
    episodes: &Vec<ReflexionEpisodeEntry>,
    witness: &Vec<WitnessEntry>,
    session_id: &str,
) -> (r: Vec<FailurePatternCluster>)
    ensures
        r@.len() == failure_patterns(episodes@, witness@).len(),
        forall|k: int|
            0 <= k < r@.len() ==> cluster_matches(
                #[trigger] r@[k],
                session_id@,
                failures(episodes@, witness@),
                failure_patterns(episodes@, witness@)[k],
            ),
{
    let ghost fs = failures(episodes@, witness@);
    let mut pats: Vec<Vec<char>> = Vec::new();
    let mut exs: Vec<Vec<char>> = Vec::new();
    let mut i: usize = 0;
    while i < episodes.len()
        invariant
            i <= episodes@.len(),
            pats@.len() == exs@.len(),
            text_views(pats@) == episode_failures(episodes@.take(i as int)).map_values(
                |f: (Seq<char>, Seq<char>)| f.0,
            ),
            text_views(exs@) == episode_failures(episodes@.take(i as int)).map_values(
                |f: (Seq<char>, Seq<char>)| f.1,
            ),
        decreases episodes.len() - i,
    {
        let ghost t1 = episodes@.take(i + 1);
        assert(t1.drop_last() =~= episodes@.take(i as int));
        assert(t1.last() == episodes@[i as int]);
        let e = &episodes[i];
        if !chars_eq_str(&chars_of(e.status.as_str()), "success") {
            let ghost p0 = text_views(pats@);
            let ghost x0 = text_views(exs@);
            pats.push(failure_pattern_exec(e.outcome.as_str()));
            exs.push(chars_of(e.lesson.as_str()));
            assert(text_views(pats@) =~= p0.push(failure_pattern(e.outcome@)));
            assert(text_views(exs@) =~= x0.push(e.lesson@));
        }
        i = i + 1;
    }
    assert(episodes@.take(episodes@.len() as int) =~= episodes@);
    let ghost ef = episode_failures(episodes@);
    let mut j: usize = 0;
    while j < witness.len()
        invariant
            j <= witness@.len(),
            pats@.len() == exs@.len(),
            ef == episode_failures(episodes@),
            text_views(pats@) == (ef + witness_failures(witness@.take(j as int))).map_values(
                |f: (Seq<char>, Seq<char>)| f.0,
            ),
            text_views(exs@) == (ef + witness_failures(witness@.take(j as int))).map_values(
                |f: (Seq<char>, Seq<char>)| f.1,
            ),
        decreases witness.len() - j,
    {
        let ghost t1 = witness@.take(j + 1);
        assert(t1.drop_last() =~= witness@.take(j as int));
        assert(t1.last() == witness@[j as int]);
        let w = &witness[j];
        if is_negative_exec(w.score_bits) {
            let ghost p0 = text_views(pats@);
            let ghost x0 = text_views(exs@);
            let ghost wf = witness_failures(witness@.take(j as int));
            pats.push(chars_of("negative-witness"));
            exs.push(chars_of(w.detail.as_str()));
            assert((ef + wf.push(("negative-witness"@, w.detail@))) =~= (ef + wf).push(("negative-witness"@, w.detail@)));
            assert(text_views(pats@) =~= p0.push("negative-witness"@));
            assert(text_views(exs@) =~= x0.push(w.detail@));
        }
        j = j + 1;
    }
    assert(witness@.take(witness@.len() as int) =~= witness@);
    let ghost pv = text_views(pats@);
    let ghost xv = text_views(exs@);
    assert(pv == fs.map_values(|f: (Seq<char>, Seq<char>)| f.0));
    let distinct = dedup_texts(&pats);
    let mut out: Vec<FailurePatternCluster> = Vec::new();
    let mut k: usize = 0;
    while k < distinct.len()
        invariant
            k <= distinct@.len(),
            pats@.len() == exs@.len(),
            pv == text_views(pats@),
            xv == text_views(exs@),
            pv == fs.map_values(|f: (Seq<char>, Seq<char>)| f.0),
            xv == fs.map_values(|f: (Seq<char>, Seq<char>)| f.1),
            text_views(distinct@) == dedup_first(pv),
            out@.len() == k,
            forall|m: int|
                0 <= m < k ==> cluster_matches(#[trigger] out@[m], session_id@, fs, text_views(distinct@)[m]),
        decreases distinct.len() - k,
    {
        let p = &distinct[k];
        let pos = positions_exec(&pats, p);
        let ghost ex = examples_of(fs, p@);
        let mut examples: Vec<String> = Vec::new();
        let mut m: usize = 0;
        while m < pos.len() && m < 3
            invariant
                m <= pos@.len(),
                m <= 3,
                pos@ == positions_of(pv, p@),
                forall|q: int| 0 <= q < pos@.len() ==> #[trigger] pos@[q] < exs@.len(),
                pats@.len() == exs@.len(),
                xv == text_views(exs@),
                xv == fs.map_values(|f: (Seq<char>, Seq<char>)| f.1),
                pv == fs.map_values(|f: (Seq<char>, Seq<char>)| f.0),
                ex == examples_of(fs, p@),
                string_views(examples@) =~= ex.take(m as int),
            decreases 3 - m,
        {
            let ghost e0 = string_views(examples@);
            assert(pos@[m as int] < exs@.len());
            assert(xv.len() == exs@.len());
            assert(fs.len() == xv.len());
            assert(ex == pos@.map_values(|i: usize| fs[i as int].1));
            assert(ex[m as int] == fs[pos@[m as int] as int].1);
            assert(xv[pos@[m as int] as int] == fs[pos@[m as int] as int].1);
            examples.push(string_of(&exs[pos[m]]));
            assert(string_views(examples@) =~= e0.push(ex[m as int]));
            assert(ex.take(m + 1) =~= ex.take(m as int).push(ex[m as int]));
            m = m + 1;
        }
        proof {
            if ex.len() <= 3 {
                assert(ex.take(ex.len() as int) =~= ex);
            }
        }
        let mut id = chars_of(session_id);
        push_str(&mut id, ":");
        let pn = normalize(string_of(p).as_str());
        push_str(&mut id, pn.as_str());
        out.push(
            FailurePatternCluster {
                cluster_id: string_of(&id),
                pattern: string_of(p),
                frequency: pos.len(),
                representative_examples: examples,
            },
        );
        k = k + 1;
    }
    out
}

} // verus!
