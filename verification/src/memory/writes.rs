//! Deciding what happens to new atomic statements: each candidate is added,
//! upgrades the stored statement it best matches, deletes a stored statement
//! it contradicts, or changes nothing; the decisions are recorded in order.
use vstd::prelude::*;

use crate::clock::current_time_ms;
use crate::groups::{contains_text, no_repeats, text_views};
use crate::lexical::{lemma_sorted_by_text_keys_map, sort_by_text_keys, sorted_by_text_keys};
use crate::memory::context::{normalize, normalize_spec, overlap_exec};
use crate::memory::facts::{
    contradicts, is_contradictory_statement, jaccard_at_least, merge_tags, merged_tags, shared_tokens,
    should_update_memory, statement_tokens, token_chars, upgrades, MemoryWriteAction,
};
use crate::memory::scope::MemoryScopeContract;
use crate::memory::supermemory::{IngestionJob, SupermemoryKernel};
use crate::observability::business::string_views;
use crate::text::{chars_eq, chars_of, decimal, push_decimal, push_str, string_of};
use crate::timeline::{lemma_sorted_by_stamps_map, sort_by_stamps, sorted_by_stamps};

verus! {

/// One atomic statement remembered from a document. `confidence_bits` holds
/// the bits of the statement's `f32` confidence (`f32::to_bits`); for the
/// non-negative confidences kept here, a larger confidence has larger bits.
#[derive(Debug)]
pub struct AtomicMemory {
    pub memory_id: String,
    pub session_id: String,
    pub job_id: String,
    pub document_id: String,
    pub chunk_id: String,
    pub statement: String,
    pub confidence_bits: u32,
    pub is_static: bool,
    pub source_ref: String,
    pub tags: Vec<String>,
    pub created_at_ms: u64,
}

/// An atomic memory as plain values.
pub struct MemoryFact {
    pub memory_id: Seq<char>,
    pub session_id: Seq<char>,
    pub job_id: Seq<char>,
    pub document_id: Seq<char>,
    pub chunk_id: Seq<char>,
    pub statement: Seq<char>,
    pub confidence_bits: u32,
    pub is_static: bool,
    pub source_ref: Seq<char>,
    pub tags: Seq<Seq<char>>,
    pub created_at_ms: u64,
}

impl View for AtomicMemory {
    type V = MemoryFact;

    open spec fn view(&self) -> MemoryFact {
        MemoryFact {
            memory_id: self.memory_id@,
            session_id: self.session_id@,
            job_id: self.job_id@,
            document_id: self.document_id@,
            chunk_id: self.chunk_id@,
            statement: self.statement@,
            confidence_bits: self.confidence_bits,
            is_static: self.is_static,
            source_ref: self.source_ref@,
            tags: string_views(self.tags@),
            created_at_ms: self.created_at_ms,
        }
    }
}

/// What was decided for one candidate statement.
#[derive(Debug)]
pub struct MemoryWriteDecision {
    pub decision_id: String,
    pub session_id: String,
    pub job_id: String,
    pub candidate_text: String,
    pub action: MemoryWriteAction,
    pub target_memory_id: Option<String>,
    pub resulting_memory_id: Option<String>,
    pub reason: String,
    pub old_memory: Option<String>,
    pub new_memory: Option<String>,
    pub created_at_ms: u64,
}

/// A write decision as plain values.
pub struct WriteDecisionView {
    pub decision_id: Seq<char>,
    pub session_id: Seq<char>,
    pub job_id: Seq<char>,
    pub candidate_text: Seq<char>,
    pub action: MemoryWriteAction,
    pub target_memory_id: Option<Seq<char>>,
    pub resulting_memory_id: Option<Seq<char>>,
    pub reason: Seq<char>,
    pub old_memory: Option<Seq<char>>,
    pub new_memory: Option<Seq<char>>,
    pub created_at_ms: u64,
}

pub open spec fn opt_text(o: Option<String>) -> Option<Seq<char>> {
    match o {
        Some(s) => Some(s@),
        None => None,
    }
}

impl View for MemoryWriteDecision {
    type V = WriteDecisionView;

    open spec fn view(&self) -> WriteDecisionView {
        WriteDecisionView {
            decision_id: self.decision_id@,
            session_id: self.session_id@,
            job_id: self.job_id@,
            candidate_text: self.candidate_text@,
            action: self.action,
            target_memory_id: opt_text(self.target_memory_id),
            resulting_memory_id: opt_text(self.resulting_memory_id),
            reason: self.reason@,
            old_memory: opt_text(self.old_memory),
            new_memory: opt_text(self.new_memory),
            created_at_ms: self.created_at_ms,
        }
    }
}

pub open spec fn facts(v: Seq<AtomicMemory>) -> Seq<MemoryFact> {
    v.map_values(|m: AtomicMemory| m@)
}

pub open spec fn decision_views(v: Seq<MemoryWriteDecision>) -> Seq<WriteDecisionView> {
    v.map_values(|d: MemoryWriteDecision| d@)
}

// ---------------------------------------------------------------------------
// The decision rules.
// ---------------------------------------------------------------------------

/// The size of the union of the token sets of two statements.
pub open spec fn union_tokens(a: Seq<char>, b: Seq<char>) -> int {
    statement_tokens(a).len() + statement_tokens(b).len() - shared_tokens(a, b)
}

/// A stored statement is a candidate's possible match when they share two or
/// more tokens or their Jaccard similarity is at least 0.58.
pub open spec fn close_match(candidate: Seq<char>, stored: Seq<char>) -> bool {
    shared_tokens(candidate, stored) >= 2 || jaccard_at_least(candidate, stored, 58)
}

/// Whether stored statement `x` scores at least as high as `b` for the
/// candidate, the score being the shared tokens plus the Jaccard similarity.
/// The similarity is at most one, so more shared tokens score higher; with
/// as many shared tokens (at least one), the smaller union scores higher.
pub open spec fn scores_at_least(candidate: Seq<char>, x: Seq<char>, b: Seq<char>) -> bool {
    let ox = shared_tokens(candidate, x);
    let ob = shared_tokens(candidate, b);
    ox > ob || (ox == ob && (ox == 0 || union_tokens(candidate, x) <= union_tokens(candidate, b)))
}

/// The position of the stored statement that best matches the candidate, -1
/// when none is a close match; of equal scores the later one wins.
pub open spec fn best_match(active: Seq<MemoryFact>, candidate: Seq<char>) -> int
    decreases active.len(),
{
    if active.len() == 0 {
        -1
    } else {
        let b = best_match(active.drop_last(), candidate);
        let x = active.len() - 1;
        if !close_match(candidate, active[x].statement) {
            b
        } else if b < 0 || scores_at_least(candidate, active[x].statement, active[b].statement) {
            x
        } else {
            b
        }
    }
}

/// The first position holding a memory with this id, -1 when there is none.
pub open spec fn find_id(active: Seq<MemoryFact>, id: Seq<char>) -> int
    decreases active.len(),
{
    if active.len() == 0 {
        -1
    } else {
        let p = find_id(active.drop_last(), id);
        if p >= 0 {
            p
        } else if active.last().memory_id == id {
            active.len() - 1
        } else {
            -1
        }
    }
}

/// Keeps a memory under its id: replaces the one with that id, else appends.
pub open spec fn insert_by_id(active: Seq<MemoryFact>, m: MemoryFact) -> Seq<MemoryFact> {
    let p = find_id(active, m.memory_id);
    if p >= 0 {
        active.update(p, m)
    } else {
        active.push(m)
    }
}

/// The stored memories, each id once (a later one replacing an earlier).
pub open spec fn initial_active(existing: Seq<MemoryFact>) -> Seq<MemoryFact>
    decreases existing.len(),
{
    if existing.len() == 0 {
        Seq::empty()
    } else {
        insert_by_id(initial_active(existing.drop_last()), existing.last())
    }
}

/// A stored memory upgraded by a candidate: the candidate's statement, chunk
/// and source, the job's document, the higher confidence, the merged tags,
/// stamped `now`.
pub open spec fn upgraded(job: IngestionJob, existing: MemoryFact, candidate: MemoryFact, now: u64) -> MemoryFact {
    MemoryFact {
        memory_id: existing.memory_id,
        session_id: existing.session_id,
        job_id: job.job_id@,
        document_id: job.document_id@,
        chunk_id: candidate.chunk_id,
        statement: candidate.statement,
        confidence_bits: if existing.confidence_bits >= candidate.confidence_bits {
            existing.confidence_bits
        } else {
            candidate.confidence_bits
        },
        is_static: existing.is_static,
        source_ref: candidate.source_ref,
        tags: merged_tags(existing.tags, candidate.tags),
        created_at_ms: now,
    }
}

pub open spec fn opt_id(o: Option<MemoryFact>) -> Option<Seq<char>> {
    match o {
        Some(m) => Some(m.memory_id),
        None => None,
    }
}

pub open spec fn opt_statement(o: Option<MemoryFact>) -> Option<Seq<char>> {
    match o {
        Some(m) => Some(m.statement),
        None => None,
    }
}

/// The record of one decision, stamped `now` and identified as
/// `decision:{job}:{index}:{now}`.
pub open spec fn decision_spec(
    job: IngestionJob,
    index: nat,
    candidate: MemoryFact,
    action: MemoryWriteAction,
    old: Option<MemoryFact>,
    new: Option<MemoryFact>,
    reason: Seq<char>,
    now: u64,
) -> WriteDecisionView {
    WriteDecisionView {
        decision_id: "decision:"@ + job.job_id@ + ":"@ + decimal(index) + ":"@ + decimal(now as nat),
        session_id: job.session_id@,
        job_id: job.job_id@,
        candidate_text: candidate.statement,
        action,
        target_memory_id: opt_id(old),
        resulting_memory_id: opt_id(new),
        reason,
        old_memory: opt_statement(old),
        new_memory: opt_statement(new),
        created_at_ms: now,
    }
}

/// Where the decisions stand after some candidates: the live memories, those
/// to persist, the decisions, and the normalised statements already seen.
pub struct WriteState {
    pub active: Seq<MemoryFact>,
    pub persisted: Seq<MemoryFact>,
    pub decisions: Seq<WriteDecisionView>,
    pub seen: Seq<Seq<char>>,
}

/// The decision for candidate number `index`:
/// - an empty statement, or one seen before (after normalising), changes nothing;
/// - else, with a best-matching stored memory: the same normalised statement
///   changes nothing, a contradicting one is deleted, an upgradable one is
///   upgraded;
/// - otherwise the candidate is added under its id.
pub open spec fn write_step(job: IngestionJob, st: WriteState, index: nat, cand: MemoryFact, now: u64) -> WriteState {
    let norm = normalize_spec(cand.statement);
    if norm.len() == 0 {
        WriteState {
            active: st.active,
            persisted: st.persisted,
            decisions: st.decisions.push(
                decision_spec(job, index, cand, MemoryWriteAction::NoChange, None, None, "empty candidate statement"@, now),
            ),
            seen: st.seen,
        }
    } else if st.seen.contains(norm) {
        WriteState {
            active: st.active,
            persisted: st.persisted,
            decisions: st.decisions.push(
                decision_spec(job, index, cand, MemoryWriteAction::NoChange, None, None, "duplicate candidate statement"@, now),
            ),
            seen: st.seen,
        }
    } else {
        let seen = st.seen.push(norm);
        let k = best_match(st.active, cand.statement);
        let added = WriteState {
            active: insert_by_id(st.active, cand),
            persisted: st.persisted.push(cand),
            decisions: st.decisions.push(
                decision_spec(job, index, cand, MemoryWriteAction::Add, None, Some(cand), "new statement"@, now),
            ),
            seen,
        };
        if k < 0 {
            added
        } else {
            let existing = st.active[k];
            if normalize_spec(existing.statement) == norm {
                WriteState {
                    active: st.active,
                    persisted: st.persisted,
                    decisions: st.decisions.push(
                        decision_spec(
                            job,
                            index,
                            cand,
                            MemoryWriteAction::NoChange,
                            Some(existing),
                            Some(existing),
                            "same statement already stored"@,
                            now,
                        ),
                    ),
                    seen,
                }
            } else if contradicts(existing.statement, cand.statement) {
                WriteState {
                    active: st.active.remove(k),
                    persisted: st.persisted,
                    decisions: st.decisions.push(
                        decision_spec(
                            job,
                            index,
                            cand,
                            MemoryWriteAction::Delete,
                            Some(existing),
                            None,
                            "contradictory statement detected"@,
                            now,
                        ),
                    ),
                    seen,
                }
            } else if upgrades(existing.statement, cand.statement) {
                let u = upgraded(job, existing, cand, now);
                WriteState {
                    active: st.active.update(k, u),
                    persisted: st.persisted.push(u),
                    decisions: st.decisions.push(
                        decision_spec(
                            job,
                            index,
                            cand,
                            MemoryWriteAction::Update,
                            Some(existing),
                            Some(u),
                            "overlapping statement upgraded"@,
                            now,
                        ),
                    ),
                    seen,
                }
            } else {
                added
            }
        }
    }
}

/// The state after deciding on the candidates in order.
pub open spec fn write_fold(job: IngestionJob, existing: Seq<MemoryFact>, cands: Seq<MemoryFact>, now: u64) -> WriteState
    decreases cands.len(),
{
    if cands.len() == 0 {
        WriteState { active: initial_active(existing), persisted: Seq::empty(), decisions: Seq::empty(), seen: Seq::empty() }
    } else {
        write_step(job, write_fold(job, existing, cands.drop_last(), now), (cands.len() - 1) as nat, cands.last(), now)
    }
}

/// Live memories ordered by creation time, then by id.
pub open spec fn active_order(s: Seq<MemoryFact>) -> Seq<MemoryFact> {
    let by_id = sorted_by_text_keys(s, s.map_values(|m: MemoryFact| m.memory_id));
    sorted_by_stamps(by_id, by_id.map_values(|m: MemoryFact| m.created_at_ms))
}

// ---------------------------------------------------------------------------
// Laws.
// ---------------------------------------------------------------------------

pub open spec fn memory_ids_of(s: Seq<MemoryFact>) -> Seq<Seq<char>> {
    s.map_values(|m: MemoryFact| m.memory_id)
}

proof fn lemma_find_id(s: Seq<MemoryFact>, id: Seq<char>)
    ensures
        find_id(s, id) < s.len(),
        find_id(s, id) >= 0 ==> s[find_id(s, id)].memory_id == id,
        find_id(s, id) < 0 ==> forall|k: int| 0 <= k < s.len() ==> #[trigger] s[k].memory_id != id,
    decreases s.len(),
{
    if s.len() > 0 {
        let p = s.drop_last();
        lemma_find_id(p, id);
        if find_id(s, id) < 0 {
            assert forall|k: int| 0 <= k < s.len() implies #[trigger] s[k].memory_id != id by {
                if k < s.len() - 1 {
                    assert(s[k] == p[k]);
                }
            }
        }
    }
}

proof fn lemma_insert_by_id_distinct(s: Seq<MemoryFact>, m: MemoryFact)
    requires
        no_repeats(memory_ids_of(s)),
    ensures
        no_repeats(memory_ids_of(insert_by_id(s, m))),
        memory_ids_of(insert_by_id(s, m)).contains(m.memory_id),
{
    lemma_find_id(s, m.memory_id);
    let p = find_id(s, m.memory_id);
    let t = insert_by_id(s, m);
    if p >= 0 {
        assert(memory_ids_of(t) =~= memory_ids_of(s));
        assert(memory_ids_of(t)[p] == m.memory_id);
    } else {
        assert(memory_ids_of(t) =~= memory_ids_of(s).push(m.memory_id));
        assert(memory_ids_of(t)[s.len() as int] == m.memory_id);
        assert forall|i: int, j: int|
            0 <= i < memory_ids_of(t).len() && 0 <= j < memory_ids_of(t).len() && i != j implies memory_ids_of(
            t,
        )[i] != memory_ids_of(t)[j] by {
            if i < s.len() && j < s.len() {
                assert(memory_ids_of(s)[i] != memory_ids_of(s)[j]);
            } else if i < s.len() {
                assert(s[i].memory_id != m.memory_id);
            } else {
                assert(s[j].memory_id != m.memory_id);
            }
        }
    }
}

proof fn lemma_initial_active_distinct(existing: Seq<MemoryFact>)
    ensures
        no_repeats(memory_ids_of(initial_active(existing))),
    decreases existing.len(),
{
    if existing.len() > 0 {
        lemma_initial_active_distinct(existing.drop_last());
        lemma_insert_by_id_distinct(initial_active(existing.drop_last()), existing.last());
    } else {
        assert(memory_ids_of(initial_active(existing)) =~= Seq::<Seq<char>>::empty());
    }
}

proof fn lemma_best_match_bound(active: Seq<MemoryFact>, candidate: Seq<char>)
    ensures
        best_match(active, candidate) < active.len(),
    decreases active.len(),
{
    if active.len() > 0 {
        lemma_best_match_bound(active.drop_last(), candidate);
    }
}

proof fn lemma_step_distinct(job: IngestionJob, st: WriteState, index: nat, cand: MemoryFact, now: u64)
    requires
        no_repeats(memory_ids_of(st.active)),
    ensures
        no_repeats(memory_ids_of(write_step(job, st, index, cand, now).active)),
{
    let k = best_match(st.active, cand.statement);
    lemma_best_match_bound(st.active, cand.statement);
    lemma_insert_by_id_distinct(st.active, cand);
    let ids = memory_ids_of(st.active);
    if k >= 0 {
        let r = st.active.remove(k);
        assert forall|i: int, j: int|
            0 <= i < memory_ids_of(r).len() && 0 <= j < memory_ids_of(r).len() && i != j implies memory_ids_of(
            r,
        )[i] != memory_ids_of(r)[j] by {
            let ii = if i < k { i } else { i + 1 };
            let jj = if j < k { j } else { j + 1 };
            assert(memory_ids_of(r)[i] == ids[ii] && memory_ids_of(r)[j] == ids[jj]);
        }
        let u = upgraded(job, st.active[k], cand, now);
        assert(memory_ids_of(st.active.update(k, u)) =~= ids);
    }
}

/// Live memories never share an id: each id stands for one memory whatever
/// the stored list and the candidates.
pub proof fn law_live_memory_ids_are_distinct(
    job: IngestionJob,
    existing: Seq<MemoryFact>,
    cands: Seq<MemoryFact>,
    now: u64,
)
    ensures
        no_repeats(memory_ids_of(write_fold(job, existing, cands, now).active)),
    decreases cands.len(),
{
    if cands.len() == 0 {
        lemma_initial_active_distinct(existing);
    } else {
        law_live_memory_ids_are_distinct(job, existing, cands.drop_last(), now);
        lemma_step_distinct(job, write_fold(job, existing, cands.drop_last(), now), (cands.len() - 1) as nat, cands.last(), now);
    }
}

/// Each candidate gets exactly one decision, in candidate order, naming its
/// statement and identified by the job, its position and the time.
pub proof fn law_one_decision_per_candidate(
    job: IngestionJob,
    existing: Seq<MemoryFact>,
    cands: Seq<MemoryFact>,
    now: u64,
)
    ensures
        write_fold(job, existing, cands, now).decisions.len() == cands.len(),
        forall|k: int|
            0 <= k < cands.len() ==> {
                let d = #[trigger] write_fold(job, existing, cands, now).decisions[k];
                &&& d.candidate_text == cands[k].statement
                &&& d.decision_id == "decision:"@ + job.job_id@ + ":"@ + decimal(k as nat) + ":"@ + decimal(now as nat)
                &&& d.created_at_ms == now
            },
    decreases cands.len(),
{
    if cands.len() > 0 {
        let prev = cands.drop_last();
        law_one_decision_per_candidate(job, existing, prev, now);
        let st = write_fold(job, existing, prev, now);
        let d = write_fold(job, existing, cands, now).decisions;
        assert(d.drop_last() =~= st.decisions);
        assert forall|k: int| 0 <= k < cands.len() - 1 implies d[k] == st.decisions[k] && cands[k] == prev[k] by {}
    }
}

/// A stored memory deleted for contradicting a candidate is no longer live.
pub proof fn law_contradicted_memory_is_dropped(
    job: IngestionJob,
    st: WriteState,
    index: nat,
    cand: MemoryFact,
    now: u64,
)
    requires
        no_repeats(memory_ids_of(st.active)),
        write_step(job, st, index, cand, now).decisions.last().action == MemoryWriteAction::Delete,
    ensures
        write_step(job, st, index, cand, now).decisions.last().target_memory_id matches Some(t) && !memory_ids_of(
            write_step(job, st, index, cand, now).active,
        ).contains(t),
{
    let k = best_match(st.active, cand.statement);
    lemma_best_match_bound(st.active, cand.statement);
    let ids = memory_ids_of(st.active);
    let r = st.active.remove(k);
    let t = st.active[k].memory_id;
    if memory_ids_of(r).contains(t) {
        let i = choose|i: int| 0 <= i < memory_ids_of(r).len() && memory_ids_of(r)[i] == t;
        let ii = if i < k { i } else { i + 1 };
        assert(ids[ii] == t && ids[k] == t);
    }
}

// ---------------------------------------------------------------------------
// Executable parts.
// ---------------------------------------------------------------------------

fn copy_text(s: &String) -> (r: String)
    ensures
        r@ == s@,
{
    s.clone()
}

fn copy_texts(v: &Vec<String>) -> (r: Vec<String>)
    ensures
        string_views(r@) == string_views(v@),
{
    let mut out: Vec<String> = Vec::new();
    let mut i: usize = 0;
    while i < v.len()
        invariant
            i <= v@.len(),
            string_views(out@) =~= string_views(v@).take(i as int),
        decreases v.len() - i,
    {
        let ghost o0 = string_views(out@);
        out.push(copy_text(&v[i]));
        assert(string_views(out@) =~= o0.push(v@[i as int]@));
        assert(string_views(v@).take(i + 1) =~= string_views(v@).take(i as int).push(v@[i as int]@));
        i = i + 1;
    }
    assert(string_views(v@).take(v@.len() as int) =~= string_views(v@));
    out
}

/// A field-for-field copy.
pub fn copy_memory(m: &AtomicMemory) -> (r: AtomicMemory)
    ensures
        r@ == m@,
{
    AtomicMemory {
        memory_id: copy_text(&m.memory_id),
        session_id: copy_text(&m.session_id),
        job_id: copy_text(&m.job_id),
        document_id: copy_text(&m.document_id),
        chunk_id: copy_text(&m.chunk_id),
        statement: copy_text(&m.statement),
        confidence_bits: m.confidence_bits,
        is_static: m.is_static,
        source_ref: copy_text(&m.source_ref),
        tags: copy_texts(&m.tags),
        created_at_ms: m.created_at_ms,
    }
}

fn find_id_exec(active: &Vec<AtomicMemory>, id: &String) -> (r: Option<usize>)
    ensures
        r matches Some(k) ==> k < active@.len() && k == find_id(facts(active@), id@),
        r is None ==> find_id(facts(active@), id@) < 0,
{
    let key = chars_of(id.as_str());
    let mut found: Option<usize> = None;
    let mut i: usize = 0;
    while i < active.len()
        invariant
            i <= active@.len(),
            key@ == id@,
            found matches Some(k) ==> k < i && k == find_id(facts(active@).take(i as int), id@),
            found is None ==> find_id(facts(active@).take(i as int), id@) < 0,
        decreases active.len() - i,
    {
        assert(facts(active@).take(i + 1).drop_last() =~= facts(active@).take(i as int));
        assert(facts(active@).take(i + 1).last() == active@[i as int]@);
        if found.is_none() {
            let this = chars_of(active[i].memory_id.as_str());
            if chars_eq(&this, &key) {
                found = Some(i);
            }
        }
        i = i + 1;
    }
    assert(facts(active@).take(active@.len() as int) =~= facts(active@));
    found
}

fn insert_memory(active: &mut Vec<AtomicMemory>, m: AtomicMemory)
    ensures
        facts(final(active)@) == insert_by_id(facts(old(active)@), m@),
{
    match find_id_exec(active, &m.memory_id) {
        Some(k) => {
            let ghost m0 = m@;
            active.set(k, m);
            assert(facts(active@) =~= facts(old(active)@).update(k as int, m0));
        },
        None => {
            let ghost m0 = m@;
            active.push(m);
            assert(facts(active@) =~= facts(old(active)@).push(m0));
        },
    }
}

fn best_match_exec(active: &Vec<AtomicMemory>, candidate: &String) -> (r: Option<usize>)
    ensures
        r matches Some(k) ==> k < active@.len() && k == best_match(facts(active@), candidate@),
        r is None ==> best_match(facts(active@), candidate@) < 0,
{
    let ct = token_chars(&chars_of(candidate.as_str()));
    let mut best: Option<usize> = None;
    let mut best_shared: usize = 0;
    let mut best_union: u128 = 0;
    let mut i: usize = 0;
    while i < active.len()
        invariant
            i <= active@.len(),
            text_views(ct@) == statement_tokens(candidate@),
            best matches Some(b) ==> b < i && b == best_match(facts(active@).take(i as int), candidate@)
                && best_shared == shared_tokens(candidate@, active@[b as int].statement@)
                && best_union == union_tokens(candidate@, active@[b as int].statement@),
            best is None ==> best_match(facts(active@).take(i as int), candidate@) < 0,
        decreases active.len() - i,
    {
        let ghost pre = facts(active@).take(i as int);
        assert(facts(active@).take(i + 1).drop_last() =~= pre);
        assert(facts(active@).take(i + 1).last() == active@[i as int]@);
        assert(forall|b: int| 0 <= b < i ==> #[trigger] pre[b] == facts(active@).take(i + 1)[b]);
        let et = token_chars(&chars_of(active[i].statement.as_str()));
        let shared = overlap_exec(&ct, &et);
        assert(text_views(ct@).len() == ct@.len() && text_views(et@).len() == et@.len());
        let union: u128 = ct.len() as u128 + et.len() as u128 - shared as u128;
        let close = shared >= 2 || (ct.len() > 0 && et.len() > 0 && 100 * (shared as u128) >= 58 * union);
        if close {
            let better = match best {
                None => true,
                Some(_) => shared > best_shared || (shared == best_shared && (shared == 0 || union <= best_union)),
            };
            if better {
                best = Some(i);
                best_shared = shared;
                best_union = union;
            }
        }
        i = i + 1;
    }
    assert(facts(active@).take(active@.len() as int) =~= facts(active@));
    best
}

pub open spec fn opt_fact(o: Option<&AtomicMemory>) -> Option<MemoryFact> {
    match o {
        Some(m) => Some(m@),
        None => None,
    }
}

fn opt_field(o: Option<&AtomicMemory>, statement: bool) -> (r: Option<String>)
    ensures
        r matches Some(t) ==> o is Some && t@ == if statement {
            o->0.statement@
        } else {
            o->0.memory_id@
        },
        r is None ==> o is None,
{
    match o {
        Some(m) => if statement {
            Some(copy_text(&m.statement))
        } else {
            Some(copy_text(&m.memory_id))
        },
        None => None,
    }
}

/// The record of one decision (see `decision_spec`).
pub fn build_write_decision(
    job: &IngestionJob,
    index: usize,
    candidate: &AtomicMemory,
    action: MemoryWriteAction,
    old_memory: Option<&AtomicMemory>,
    new_memory: Option<&AtomicMemory>,
    reason: &str,
    now: u64,
) -> (r: MemoryWriteDecision)
    ensures
        r@ == decision_spec(*job, index as nat, candidate@, action, opt_fact(old_memory), opt_fact(new_memory), reason@, now),
{
    let mut id = chars_of("decision:");
    push_str(&mut id, job.job_id.as_str());
    push_str(&mut id, ":");
    push_decimal(&mut id, index as u64);
    push_str(&mut id, ":");
    push_decimal(&mut id, now);
    let r = MemoryWriteDecision {
        decision_id: string_of(&id),
        session_id: copy_text(&job.session_id),
        job_id: copy_text(&job.job_id),
        candidate_text: copy_text(&candidate.statement),
        action,
        target_memory_id: opt_field(old_memory, false),
        resulting_memory_id: opt_field(new_memory, false),
        reason: string_of(&chars_of(reason)),
        old_memory: opt_field(old_memory, true),
        new_memory: opt_field(new_memory, true),
        created_at_ms: now,
    };
    assert(r@.target_memory_id == opt_id(opt_fact(old_memory)));
    assert(r@.resulting_memory_id == opt_id(opt_fact(new_memory)));
    assert(r@.old_memory == opt_statement(opt_fact(old_memory)));
    assert(r@.new_memory == opt_statement(opt_fact(new_memory)));
    r
}

/// A stored memory upgraded by a candidate (see `upgraded`).
fn upgrade_memory(job: &IngestionJob, existing: &AtomicMemory, candidate: &AtomicMemory, now: u64) -> (r: AtomicMemory)
    ensures
        r@ == upgraded(*job, existing@, candidate@, now),
{
    AtomicMemory {
        memory_id: copy_text(&existing.memory_id),
        session_id: copy_text(&existing.session_id),
        job_id: copy_text(&job.job_id),
        document_id: copy_text(&job.document_id),
        chunk_id: copy_text(&candidate.chunk_id),
        statement: copy_text(&candidate.statement),
        confidence_bits: if existing.confidence_bits >= candidate.confidence_bits {
            existing.confidence_bits
        } else {
            candidate.confidence_bits
        },
        is_static: existing.is_static,
        source_ref: copy_text(&candidate.source_ref),
        tags: merge_tags(&existing.tags, &candidate.tags),
        created_at_ms: now,
    }
}

fn memory_ids(active: &Vec<AtomicMemory>) -> (r: Vec<Vec<char>>)
    ensures
        text_views(r@) == facts(active@).map_values(|m: MemoryFact| m.memory_id),
{
    let mut out: Vec<Vec<char>> = Vec::new();
    let mut i: usize = 0;
    while i < active.len()
        invariant
            i <= active@.len(),
            text_views(out@) =~= facts(active@).map_values(|m: MemoryFact| m.memory_id).take(i as int),
        decreases active.len() - i,
    {
        let ghost o0 = text_views(out@);
        out.push(chars_of(active[i].memory_id.as_str()));
        assert(text_views(out@) =~= o0.push(active@[i as int].memory_id@));
        i = i + 1;
    }
    out
}

fn created_stamps(active: &Vec<AtomicMemory>) -> (r: Vec<u64>)
    ensures
        r@ == facts(active@).map_values(|m: MemoryFact| m.created_at_ms),
{
    let mut out: Vec<u64> = Vec::new();
    let mut i: usize = 0;
    while i < active.len()
        invariant
            i <= active@.len(),
            out@ =~= facts(active@).map_values(|m: MemoryFact| m.created_at_ms).take(i as int),
        decreases active.len() - i,
    {
        out.push(active[i].created_at_ms);
        i = i + 1;
    }
    out
}

/// The live memories ordered by creation time, then by id (see `active_order`).
fn order_active(active: Vec<AtomicMemory>) -> (r: Vec<AtomicMemory>)
    ensures
        facts(r@) == active_order(facts(active@)),
{
    let keys = memory_ids(&active);
    let ghost a0 = active@;
    assert(text_views(keys@).len() == keys@.len());
    let by_id = sort_by_text_keys(active, keys);
    proof {
        lemma_sorted_by_text_keys_map(a0, text_views(keys@), |m: AtomicMemory| m@);
    }
    let stamps = created_stamps(&by_id);
    let ghost b0 = by_id@;
    let ordered = sort_by_stamps(by_id, stamps);
    proof {
        lemma_sorted_by_stamps_map(b0, stamps@, |m: AtomicMemory| m@);
    }
    ordered
}

impl SupermemoryKernel {
    /// Decides, candidate by candidate, what to do with new statements against
    /// the stored ones (see `write_step`), stamping upgrades and decisions
    /// with `now`. Returns the memories to persist, the live memories by
    /// creation time then id, and the decisions in candidate order. The scope
    /// contract is not consulted.
    pub fn reconcile_memory_writes_at(
        &self,
        job: &IngestionJob,
        _scope_contract: &MemoryScopeContract,
        existing: &Vec<AtomicMemory>,
        candidates: &Vec<AtomicMemory>,
        now: u64,
    ) -> (r: (Vec<AtomicMemory>, Vec<AtomicMemory>, Vec<MemoryWriteDecision>))
        ensures
            facts(r.0@) == write_fold(*job, facts(existing@), facts(candidates@), now).persisted,
            facts(r.1@) == active_order(write_fold(*job, facts(existing@), facts(candidates@), now).active),
            decision_views(r.2@) == write_fold(*job, facts(existing@), facts(candidates@), now).decisions,
    {
        let ghost ex = facts(existing@);
        let ghost cs = facts(candidates@);
        let mut active: Vec<AtomicMemory> = Vec::new();
        let mut j: usize = 0;
        while j < existing.len()
            invariant
                j <= existing@.len(),
                ex == facts(existing@),
                facts(active@) == initial_active(ex.take(j as int)),
            decreases existing.len() - j,
        {
            assert(ex.take(j + 1).drop_last() =~= ex.take(j as int));
            assert(ex.take(j + 1).last() == existing@[j as int]@);
            insert_memory(&mut active, copy_memory(&existing[j]));
            j = j + 1;
        }
        assert(ex.take(existing@.len() as int) =~= ex);
        assert(cs.take(0) =~= Seq::<MemoryFact>::empty());
        let mut persisted: Vec<AtomicMemory> = Vec::new();
        let mut decisions: Vec<MemoryWriteDecision> = Vec::new();
        let mut seen: Vec<Vec<char>> = Vec::new();
        assert(facts(persisted@) =~= Seq::<MemoryFact>::empty());
        assert(decision_views(decisions@) =~= Seq::<WriteDecisionView>::empty());
        assert(text_views(seen@) =~= Seq::<Seq<char>>::empty());
        let mut i: usize = 0;
        while i < candidates.len()
            invariant
                i <= candidates@.len(),
                ex == facts(existing@),
                cs == facts(candidates@),
                facts(active@) == write_fold(*job, ex, cs.take(i as int), now).active,
                facts(persisted@) == write_fold(*job, ex, cs.take(i as int), now).persisted,
                decision_views(decisions@) == write_fold(*job, ex, cs.take(i as int), now).decisions,
                text_views(seen@) == write_fold(*job, ex, cs.take(i as int), now).seen,
            decreases candidates.len() - i,
        {
            let ghost st = write_fold(*job, ex, cs.take(i as int), now);
            assert(cs.take(i + 1).drop_last() =~= cs.take(i as int));
            assert(cs.take(i + 1).last() == candidates@[i as int]@);
            let ghost next = write_step(*job, st, i as nat, candidates@[i as int]@, now);
            assert(write_fold(*job, ex, cs.take(i + 1), now) == next);
            let ghost a0 = facts(active@);
            let ghost p0 = facts(persisted@);
            let ghost d0 = decision_views(decisions@);
            let ghost s0 = text_views(seen@);
            let cand = &candidates[i];
            let norm = chars_of(normalize(cand.statement.as_str()).as_str());
            if norm.len() == 0 {
                let d = build_write_decision(
                    job,
                    i,
                    cand,
                    MemoryWriteAction::NoChange,
                    None,
                    None,
                    "empty candidate statement",
                    now,
                );
                decisions.push(d);
                assert(decision_views(decisions@) =~= d0.push(d@));
            } else if contains_text(&seen, &norm) {
                let d = build_write_decision(
                    job,
                    i,
                    cand,
                    MemoryWriteAction::NoChange,
                    None,
                    None,
                    "duplicate candidate statement",
                    now,
                );
                decisions.push(d);
                assert(decision_views(decisions@) =~= d0.push(d@));
            } else {
                let norm_copy = crate::text::slice(&norm, 0, norm.len());
                assert(norm_copy@ =~= norm@);
                seen.push(norm_copy);
                assert(text_views(seen@) =~= s0.push(norm@));
                let best = best_match_exec(&active, &cand.statement);
                let mut handled = false;
                match best {
                    Some(k) => {
                        let existing_m = copy_memory(&active[k]);
                        assert(existing_m@ == a0[k as int]);
                        let ne = chars_of(normalize(existing_m.statement.as_str()).as_str());
                        if chars_eq(&ne, &norm) {
                            let d = build_write_decision(
                                job,
                                i,
                                cand,
                                MemoryWriteAction::NoChange,
                                Some(&existing_m),
                                Some(&existing_m),
                                "same statement already stored",
                                now,
                            );
                            decisions.push(d);
                            assert(decision_views(decisions@) =~= d0.push(d@));
                            handled = true;
                        } else if is_contradictory_statement(existing_m.statement.as_str(), cand.statement.as_str()) {
                            let _gone = active.remove(k);
                            assert(facts(active@) =~= a0.remove(k as int));
                            let d = build_write_decision(
                                job,
                                i,
                                cand,
                                MemoryWriteAction::Delete,
                                Some(&existing_m),
                                None,
                                "contradictory statement detected",
                                now,
                            );
                            decisions.push(d);
                            assert(decision_views(decisions@) =~= d0.push(d@));
                            handled = true;
                        } else if should_update_memory(existing_m.statement.as_str(), cand.statement.as_str()) {
                            let u = upgrade_memory(job, &existing_m, cand, now);
                            active.set(k, copy_memory(&u));
                            assert(facts(active@) =~= a0.update(k as int, u@));
                            persisted.push(copy_memory(&u));
                            assert(facts(persisted@) =~= p0.push(u@));
                            let d = build_write_decision(
                                job,
                                i,
                                cand,
                                MemoryWriteAction::Update,
                                Some(&existing_m),
                                Some(&u),
                                "overlapping statement upgraded",
                                now,
                            );
                            decisions.push(d);
                            assert(decision_views(decisions@) =~= d0.push(d@));
                            handled = true;
                        }
                    },
                    None => {},
                }
                if !handled {
                    insert_memory(&mut active, copy_memory(cand));
                    persisted.push(copy_memory(cand));
                    assert(facts(persisted@) =~= p0.push(cand@));
                    let d = build_write_decision(
                        job,
                        i,
                        cand,
                        MemoryWriteAction::Add,
                        None,
                        Some(cand),
                        "new statement",
                        now,
                    );
                    decisions.push(d);
                    assert(decision_views(decisions@) =~= d0.push(d@));
                }
            }
            i = i + 1;
        }
        assert(cs.take(candidates@.len() as int) =~= cs);
        let ordered = order_active(active);
        (persisted, ordered, decisions)
    }

    /// `reconcile_memory_writes_at` stamped with the current time.
    pub fn reconcile_memory_writes(
        &self,
        job: &IngestionJob,
        scope_contract: &MemoryScopeContract,
        existing: &Vec<AtomicMemory>,
        candidates: &Vec<AtomicMemory>,
    ) -> (r: (Vec<AtomicMemory>, Vec<AtomicMemory>, Vec<MemoryWriteDecision>))
        ensures
            exists|now: u64|
                {
                    &&& facts(r.0@) == write_fold(*job, facts(existing@), facts(candidates@), now).persisted
                    &&& facts(r.1@) == active_order(write_fold(*job, facts(existing@), facts(candidates@), now).active)
                    &&& decision_views(r.2@) == write_fold(*job, facts(existing@), facts(candidates@), now).decisions
                },
    {
        let now = current_time_ms();
        self.reconcile_memory_writes_at(job, scope_contract, existing, candidates, now)
    }
}

} // verus!
