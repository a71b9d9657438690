//! From chunks to atomic memories and back out: the statement and tags of each
//! chunk, the relations between the memories of one ingestion, the user
//! profile they add up to, and how fresh a document's facts are.
use vstd::prelude::*;

use crate::clock::current_time_ms;
use crate::groups::{dedup_first, dedup_texts, text_views};
use crate::keyed::TextMap;
use crate::memory::facts::{
    chunk_statement_spec, lexical_overlap, shared_tokens, statement_tokens, summarize_chunk_statement, token_chars,
};
use crate::memory::supermemory::{IngestionJob, SemanticChunk, SupermemoryKernel};
use crate::memory::writes::{copy_memory, facts, AtomicMemory, MemoryFact};
use crate::observability::business::string_views;
use crate::text::{
    chars_of, contains, contains_str, lower, push_decimal, push_str, sep_pred, split_chars, split_chars_exec,
    string_of, to_lower, trimmed_nonblank, trimmed_nonblank_exec, views, decimal, Separator,
};

verus! {

/// The bits of the `f32` confidence 0.7 that generated memories start with.
pub const GENERATED_CONFIDENCE_BITS: u32 = 0x3f33_3333;

// ---------------------------------------------------------------------------
// Tags.
// ---------------------------------------------------------------------------

/// Tokens longer than three characters.
pub open spec fn long_tokens(ts: Seq<Seq<char>>) -> Seq<Seq<char>>
    decreases ts.len(),
{
    if ts.len() == 0 {
        Seq::empty()
    } else {
        let rest = long_tokens(ts.drop_last());
        if ts.last().len() > 3 {
            rest.push(ts.last())
        } else {
            rest
        }
    }
}

/// The `tags` metadata entry split at commas, trimmed, blank ones dropped,
/// lower-cased.
pub open spec fn metadata_tags(metadata: Map<Seq<char>, Seq<char>>) -> Seq<Seq<char>> {
    if metadata.contains_key("tags"@) {
        trimmed_nonblank(split_chars(metadata["tags"@], sep_pred(Separator::Char(',')))).map_values(
            |t: Seq<char>| lower(t),
        )
    } else {
        Seq::empty()
    }
}

/// The tags of a chunk: its first eight tokens longer than three characters,
/// then the metadata's tags, each once.
pub open spec fn derived_tags(text: Seq<char>, metadata: Map<Seq<char>, Seq<char>>) -> Seq<Seq<char>> {
    let long = long_tokens(statement_tokens(text));
    let base = if long.len() <= 8 {
        long
    } else {
        long.take(8)
    };
    dedup_first(base + metadata_tags(metadata))
}

pub fn derive_tags(text: &str, metadata: &TextMap) -> (r: Vec<String>)
    ensures
        string_views(r@) == derived_tags(text@, metadata@),
{
    let tokens = token_chars(&chars_of(text));
    let mut all: Vec<Vec<char>> = Vec::new();
    let mut i: usize = 0;
    while i < tokens.len() && all.len() < 8
        invariant
            i <= tokens@.len(),
            text_views(all@) == long_tokens(text_views(tokens@).take(i as int)),
            all@.len() <= 8,
        decreases tokens.len() - i,
    {
        let ghost tv = text_views(tokens@);
        assert(tv.take(i + 1).drop_last() =~= tv.take(i as int));
        assert(tv.take(i + 1).last() == tokens@[i as int]@);
        if tokens[i].len() > 3 {
            let ghost a0 = text_views(all@);
            let t = crate::text::slice(&tokens[i], 0, tokens[i].len());
            assert(t@ =~= tokens@[i as int]@);
            all.push(t);
            assert(text_views(all@) =~= a0.push(tokens@[i as int]@));
        }
        i = i + 1;
    }
    proof {
        let tv = text_views(tokens@);
        lemma_long_tokens_prefix(tv, i as int);
        assert(tv.take(tv.len() as int) =~= tv);
    }
    let ghost base = text_views(all@);
    match metadata.get("tags") {
        Some(raw) => {
            let pieces = split_chars_exec(&chars_of(raw.as_str()), Separator::Char(','));
            let kept = trimmed_nonblank_exec(&pieces);
            let mut k: usize = 0;
            while k < kept.len()
                invariant
                    k <= kept@.len(),
                    views(kept@) == trimmed_nonblank(split_chars(raw@, sep_pred(Separator::Char(',')))),
                    text_views(all@) == base + views(kept@).take(k as int).map_values(|t: Seq<char>| lower(t)),
                decreases kept.len() - k,
            {
                let ghost a0 = text_views(all@);
                all.push(to_lower(&kept[k]));
                assert(text_views(all@) =~= a0.push(lower(kept@[k as int]@)));
                assert(views(kept@).take(k + 1).map_values(|t: Seq<char>| lower(t)) =~= views(kept@).take(
                    k as int,
                ).map_values(|t: Seq<char>| lower(t)).push(lower(kept@[k as int]@)));
                k = k + 1;
            }
            assert(views(kept@).take(kept@.len() as int) =~= views(kept@));
        },
        None => {
            assert(text_views(all@) =~= base + Seq::<Seq<char>>::empty());
        },
    }
    let distinct = dedup_texts(&all);
    let mut out: Vec<String> = Vec::new();
    let mut j: usize = 0;
    while j < distinct.len()
        invariant
            j <= distinct@.len(),
            string_views(out@) =~= text_views(distinct@).take(j as int),
        decreases distinct.len() - j,
    {
        let ghost o0 = string_views(out@);
        out.push(string_of(&distinct[j]));
        assert(string_views(out@) =~= o0.push(distinct@[j as int]@));
        assert(text_views(distinct@).take(j + 1) =~= text_views(distinct@).take(j as int).push(distinct@[j as int]@));
        j = j + 1;
    }
    assert(text_views(distinct@).take(distinct@.len() as int) =~= text_views(distinct@));
    out
}

/// Scanning tokens stops once eight long ones are found: what was found by
/// then is the first eight long tokens.
proof fn lemma_long_tokens_prefix(tv: Seq<Seq<char>>, i: int)
    requires
        0 <= i <= tv.len(),
        long_tokens(tv.take(i)).len() <= 8,
        i < tv.len() ==> long_tokens(tv.take(i)).len() == 8,
    ensures
        long_tokens(tv.take(i)) == (if long_tokens(tv).len() <= 8 {
            long_tokens(tv)
        } else {
            long_tokens(tv).take(8)
        }),
{
    if i < tv.len() {
        lemma_long_tokens_extend(tv, i);
        assert(tv.take(tv.len() as int) =~= tv);
    } else {
        assert(tv.take(i) =~= tv);
    }
}

/// The long tokens of a prefix are a prefix of the long tokens.
proof fn lemma_long_tokens_extend(tv: Seq<Seq<char>>, i: int)
    requires
        0 <= i <= tv.len(),
    ensures
        long_tokens(tv.take(i)).len() <= long_tokens(tv).len(),
        long_tokens(tv).take(long_tokens(tv.take(i)).len() as int) == long_tokens(tv.take(i)),
    decreases tv.len() - i,
{
    if i < tv.len() {
        lemma_long_tokens_extend(tv.drop_last(), i);
        assert(tv.drop_last().take(i) =~= tv.take(i));
        let lp = long_tokens(tv.drop_last());
        let lt = long_tokens(tv);
        let n = long_tokens(tv.take(i)).len() as int;
        assert(lt.take(n) =~= lp.take(n)) by {
            assert forall|k: int| 0 <= k < n implies lt[k] == lp[k] by {
                if tv.last().len() > 3 {
                    assert(lt == lp.push(tv.last()));
                }
            }
        }
    } else {
        assert(tv.take(i) =~= tv);
        assert(long_tokens(tv).take(long_tokens(tv).len() as int) =~= long_tokens(tv));
    }
}

// ---------------------------------------------------------------------------
// Atomic memories from chunks.
// ---------------------------------------------------------------------------

/// Whether a memory with these tags and statement is a stable fact: tagged
/// identity, profile, preference or stable_fact, or stating a preference.
pub open spec fn static_fact(tags: Seq<Seq<char>>, statement: Seq<char>) -> bool {
    tags.contains("identity"@) || tags.contains("profile"@) || tags.contains("preference"@) || tags.contains(
        "stable_fact"@,
    ) || contains(lower(statement), "prefers"@)
}

/// The memory drawn from chunk number `index` of a job.
pub open spec fn generated_memory(
    session_id: Seq<char>,
    job: IngestionJob,
    index: nat,
    chunk: SemanticChunk,
    now: u64,
) -> MemoryFact {
    let statement = chunk_statement_spec(chunk.text@);
    let tags = derived_tags(chunk.text@, chunk.metadata@);
    MemoryFact {
        memory_id: "memory:"@ + job.job_id@ + ":"@ + decimal(index),
        session_id,
        job_id: job.job_id@,
        document_id: job.document_id@,
        chunk_id: chunk.chunk_id@,
        statement,
        confidence_bits: GENERATED_CONFIDENCE_BITS,
        is_static: static_fact(tags, statement),
        source_ref: "memory:supermemory:documents:"@ + session_id + ":"@ + job.job_id@,
        tags,
        created_at_ms: now,
    }
}

fn has_text(v: &Vec<String>, t: &str) -> (r: bool)
    ensures
        r == string_views(v@).contains(t@),
{
    let key = chars_of(t);
    let mut i: usize = 0;
    while i < v.len()
        invariant
            i <= v@.len(),
            key@ == t@,
            forall|j: int| 0 <= j < i ==> string_views(v@)[j] != t@,
        decreases v.len() - i,
    {
        let this = chars_of(v[i].as_str());
        if crate::text::chars_eq(&this, &key) {
            assert(string_views(v@)[i as int] == t@);
            return true;
        }
        i = i + 1;
    }
    false
}

/// Whether `ms` are the memories drawn from `chunks`, stamped `now`.
pub open spec fn generated_at(
    ms: Seq<AtomicMemory>,
    session_id: Seq<char>,
    job: IngestionJob,
    chunks: Seq<SemanticChunk>,
    now: u64,
) -> bool {
    &&& ms.len() == chunks.len()
    &&& forall|k: int| 0 <= k < ms.len() ==> #[trigger] ms[k]@ == generated_memory(session_id, job, k as nat, chunks[k], now)
}

impl SupermemoryKernel {
    /// One memory per chunk, stamped `now` (see `generated_memory`).
    pub fn generate_atomic_memories_at(
        &self,
        session_id: &str,
        job: &IngestionJob,
        chunks: &Vec<SemanticChunk>,
        now: u64,
    ) -> (r: Vec<AtomicMemory>)
        ensures
            r@.len() == chunks@.len(),
            forall|k: int| 0 <= k < r@.len() ==> #[trigger] r@[k]@ == generated_memory(session_id@, *job, k as nat, chunks@[k], now),
    {
        let mut out: Vec<AtomicMemory> = Vec::new();
        let mut i: usize = 0;
        while i < chunks.len()
            invariant
                i <= chunks@.len(),
                out@.len() == i,
                forall|k: int| 0 <= k < i ==> #[trigger] out@[k]@ == generated_memory(session_id@, *job, k as nat, chunks@[k], now),
            decreases chunks.len() - i,
        {
            let chunk = &chunks[i];
            let statement = summarize_chunk_statement(chunk.text.as_str());
            let tags = derive_tags(chunk.text.as_str(), &chunk.metadata);
            let lowered = to_lower(&chars_of(statement.as_str()));
            let is_static = has_text(&tags, "identity") || has_text(&tags, "profile") || has_text(&tags, "preference")
                || has_text(&tags, "stable_fact") || contains_str(&lowered, "prefers");
            let mut id = chars_of("memory:");
            push_str(&mut id, job.job_id.as_str());
            push_str(&mut id, ":");
            push_decimal(&mut id, i as u64);
            let mut source = chars_of("memory:supermemory:documents:");
            push_str(&mut source, session_id);
            push_str(&mut source, ":");
            push_str(&mut source, job.job_id.as_str());
            let m = AtomicMemory {
                memory_id: string_of(&id),
                session_id: string_of(&chars_of(session_id)),
                job_id: job.job_id.clone(),
                document_id: job.document_id.clone(),
                chunk_id: chunk.chunk_id.clone(),
                statement,
                confidence_bits: GENERATED_CONFIDENCE_BITS,
                is_static,
                source_ref: string_of(&source),
                tags,
                created_at_ms: now,
            };
            out.push(m);
            i = i + 1;
        }
        out
    }

    /// `generate_atomic_memories_at` stamped with the current time.
    pub fn generate_atomic_memories(&self, session_id: &str, job: &IngestionJob, chunks: &Vec<SemanticChunk>) -> (r: Vec<
        AtomicMemory,
    >)
        ensures
            r@.len() == chunks@.len(),
            exists|now: u64| #[trigger] generated_at(r@, session_id@, *job, chunks@, now),
    {
        let now = current_time_ms();
        let r = self.generate_atomic_memories_at(session_id, job, chunks, now);
        assert(generated_at(r@, session_id@, *job, chunks@, now));
        r
    }
}

// ---------------------------------------------------------------------------
// Relations between the memories of one ingestion.
// ---------------------------------------------------------------------------

/// How one memory relates to another.
#[derive(Debug, Clone, Copy, PartialEq, Eq, Structural)]
pub enum MemoryRelationType {
    Updates,
    Extends,
    Derives,
    IsLatest,
}

/// A relation between two memories. `weight_percent` is the relation's
/// weight in hundredths: 84 for updates, 72 for extends, 66 for derives and
/// 100 for is-latest.
#[derive(Debug)]
pub struct MemoryRelation {
    pub relation_id: String,
    pub session_id: String,
    pub job_id: String,
    pub from_memory_id: String,
    pub to_memory_id: String,
    pub relation_type: MemoryRelationType,
    pub weight_percent: u32,
    pub is_latest: bool,
    pub valid: bool,
    pub rationale: String,
    pub invalidated_at_ms: Option<u64>,
    pub invalidation_reason: Option<String>,
    pub created_at_ms: u64,
}

/// A relation as plain values.
pub struct RelationView {
    pub relation_id: Seq<char>,
    pub session_id: Seq<char>,
    pub job_id: Seq<char>,
    pub from_memory_id: Seq<char>,
    pub to_memory_id: Seq<char>,
    pub relation_type: MemoryRelationType,
    pub weight_percent: u32,
    pub is_latest: bool,
    pub valid: bool,
    pub rationale: Seq<char>,
    pub invalidated_at_ms: Option<u64>,
    pub invalidation_reason: Option<Seq<char>>,
    pub created_at_ms: u64,
}

impl View for MemoryRelation {
    type V = RelationView;

    open spec fn view(&self) -> RelationView {
        RelationView {
            relation_id: self.relation_id@,
            session_id: self.session_id@,
            job_id: self.job_id@,
            from_memory_id: self.from_memory_id@,
            to_memory_id: self.to_memory_id@,
            relation_type: self.relation_type,
            weight_percent: self.weight_percent,
            is_latest: self.is_latest,
            valid: self.valid,
            rationale: self.rationale@,
            invalidated_at_ms: self.invalidated_at_ms,
            invalidation_reason: match self.invalidation_reason {
                Some(t) => Some(t@),
                None => None,
            },
            created_at_ms: self.created_at_ms,
        }
    }
}

pub open spec fn relation_views(v: Seq<MemoryRelation>) -> Seq<RelationView> {
    v.map_values(|r: MemoryRelation| r@)
}

pub open spec fn relation_word(t: MemoryRelationType) -> Seq<char> {
    match t {
        MemoryRelationType::Updates => "updates"@,
        MemoryRelationType::Extends => "extends"@,
        MemoryRelationType::Derives => "derives"@,
        MemoryRelationType::IsLatest => "isLatest"@,
    }
}

pub open spec fn relation_weight(t: MemoryRelationType) -> u32 {
    match t {
        MemoryRelationType::Updates => 84,
        MemoryRelationType::Extends => 72,
        MemoryRelationType::Derives => 66,
        MemoryRelationType::IsLatest => 100,
    }
}

pub open spec fn relation_rationale(t: MemoryRelationType) -> Seq<char> {
    match t {
        MemoryRelationType::Updates => "new statement supersedes earlier statement context"@,
        MemoryRelationType::Extends => "adjacent semantic progression"@,
        MemoryRelationType::Derives => "cross-chunk inferred theme continuity"@,
        MemoryRelationType::IsLatest => "latest memory in this ingestion chain"@,
    }
}

/// The relation of kind `t` from one memory to another, valid, stamped `now`,
/// identified as `rel:{job}:{kind}:{from}->{to}`.
pub open spec fn relation_spec(
    session_id: Seq<char>,
    job_id: Seq<char>,
    from: Seq<char>,
    to: Seq<char>,
    t: MemoryRelationType,
    now: u64,
) -> RelationView {
    RelationView {
        relation_id: "rel:"@ + job_id + ":"@ + relation_word(t) + ":"@ + from + "->"@ + to,
        session_id,
        job_id,
        from_memory_id: from,
        to_memory_id: to,
        relation_type: t,
        weight_percent: relation_weight(t),
        is_latest: t == MemoryRelationType::IsLatest,
        valid: true,
        rationale: relation_rationale(t),
        invalidated_at_ms: None,
        invalidation_reason: None,
        created_at_ms: now,
    }
}

/// For each pair of neighbours: the later extends the earlier, and also
/// updates it when their statements share two or more tokens.
pub open spec fn neighbour_relations(s: Seq<char>, j: Seq<char>, ms: Seq<MemoryFact>, now: u64) -> Seq<RelationView>
    decreases ms.len(),
{
    if ms.len() < 2 {
        Seq::empty()
    } else {
        let l = ms[ms.len() - 2];
        let r = ms.last();
        let ext = seq![relation_spec(s, j, l.memory_id, r.memory_id, MemoryRelationType::Extends, now)];
        let upd = if shared_tokens(l.statement, r.statement) >= 2 {
            seq![relation_spec(s, j, l.memory_id, r.memory_id, MemoryRelationType::Updates, now)]
        } else {
            Seq::empty()
        };
        neighbour_relations(s, j, ms.drop_last(), now) + ext + upd
    }
}

/// The memories at even positions from the third on derive from the first.
pub open spec fn derived_relations(s: Seq<char>, j: Seq<char>, ms: Seq<MemoryFact>, now: u64) -> Seq<RelationView>
    decreases ms.len(),
{
    if ms.len() < 3 {
        Seq::empty()
    } else if (ms.len() - 1) % 2 == 0 {
        derived_relations(s, j, ms.drop_last(), now).push(
            relation_spec(s, j, ms[0].memory_id, ms.last().memory_id, MemoryRelationType::Derives, now),
        )
    } else {
        derived_relations(s, j, ms.drop_last(), now)
    }
}

/// The last memory is the latest: every earlier one points to it.
pub open spec fn latest_relations(s: Seq<char>, j: Seq<char>, ms: Seq<MemoryFact>, now: u64) -> Seq<RelationView> {
    if ms.len() == 0 {
        Seq::empty()
    } else {
        Seq::new(
            (ms.len() - 1) as nat,
            |i: int| relation_spec(s, j, ms[i].memory_id, ms.last().memory_id, MemoryRelationType::IsLatest, now),
        )
    }
}

pub open spec fn relationships_spec(s: Seq<char>, j: Seq<char>, ms: Seq<MemoryFact>, now: u64) -> Seq<RelationView> {
    neighbour_relations(s, j, ms, now) + derived_relations(s, j, ms, now) + latest_relations(s, j, ms, now)
}

fn make_relation(
    session_id: &str,
    job_id: &str,
    from: &String,
    to: &String,
    t: MemoryRelationType,
    now: u64,
) -> (r: MemoryRelation)
    ensures
        r@ == relation_spec(session_id@, job_id@, from@, to@, t, now),
{
    let word = match t {
        MemoryRelationType::Updates => "updates",
        MemoryRelationType::Extends => "extends",
        MemoryRelationType::Derives => "derives",
        MemoryRelationType::IsLatest => "isLatest",
    };
    let rationale = match t {
        MemoryRelationType::Updates => "new statement supersedes earlier statement context",
        MemoryRelationType::Extends => "adjacent semantic progression",
        MemoryRelationType::Derives => "cross-chunk inferred theme continuity",
        MemoryRelationType::IsLatest => "latest memory in this ingestion chain",
    };
    let weight: u32 = match t {
        MemoryRelationType::Updates => 84,
        MemoryRelationType::Extends => 72,
        MemoryRelationType::Derives => 66,
        MemoryRelationType::IsLatest => 100,
    };
    let mut id = chars_of("rel:");
    push_str(&mut id, job_id);
    push_str(&mut id, ":");
    push_str(&mut id, word);
    push_str(&mut id, ":");
    push_str(&mut id, from.as_str());
    push_str(&mut id, "->");
    push_str(&mut id, to.as_str());
    MemoryRelation {
        relation_id: string_of(&id),
        session_id: string_of(&chars_of(session_id)),
        job_id: string_of(&chars_of(job_id)),
        from_memory_id: from.clone(),
        to_memory_id: to.clone(),
        relation_type: t,
        weight_percent: weight,
        is_latest: match t {
            MemoryRelationType::IsLatest => true,
            _ => false,
        },
        valid: true,
        rationale: string_of(&chars_of(rationale)),
        invalidated_at_ms: None,
        invalidation_reason: None,
        created_at_ms: now,
    }
}

/// How many relations are of kind `t`.
pub open spec fn count_kind(rs: Seq<RelationView>, t: MemoryRelationType) -> nat
    decreases rs.len(),
{
    if rs.len() == 0 {
        0
    } else {
        count_kind(rs.drop_last(), t) + if rs.last().relation_type == t {
            1nat
        } else {
            0nat
        }
    }
}

proof fn lemma_count_kind_append(a: Seq<RelationView>, b: Seq<RelationView>, t: MemoryRelationType)
    ensures
        count_kind(a + b, t) == count_kind(a, t) + count_kind(b, t),
    decreases b.len(),
{
    if b.len() == 0 {
        assert(a + b =~= a);
    } else {
        lemma_count_kind_append(a, b.drop_last(), t);
        assert((a + b).drop_last() =~= a + b.drop_last());
    }
}

proof fn lemma_no_latest_among_neighbours(s: Seq<char>, j: Seq<char>, ms: Seq<MemoryFact>, now: u64)
    ensures
        count_kind(neighbour_relations(s, j, ms, now), MemoryRelationType::IsLatest) == 0,
        count_kind(derived_relations(s, j, ms, now), MemoryRelationType::IsLatest) == 0,
    decreases ms.len(),
{
    if ms.len() >= 2 {
        lemma_no_latest_among_neighbours(s, j, ms.drop_last(), now);
        let l = ms[ms.len() - 2];
        let r = ms.last();
        let ext = seq![relation_spec(s, j, l.memory_id, r.memory_id, MemoryRelationType::Extends, now)];
        let upd = if shared_tokens(l.statement, r.statement) >= 2 {
            seq![relation_spec(s, j, l.memory_id, r.memory_id, MemoryRelationType::Updates, now)]
        } else {
            Seq::empty()
        };
        let prev = neighbour_relations(s, j, ms.drop_last(), now);
        lemma_count_kind_append(prev, ext, MemoryRelationType::IsLatest);
        lemma_count_kind_append(prev + ext, upd, MemoryRelationType::IsLatest);
        assert(count_kind(Seq::<RelationView>::empty(), MemoryRelationType::IsLatest) == 0);
        assert(count_kind(ext, MemoryRelationType::IsLatest) == 0) by {
            assert(ext.drop_last() =~= Seq::<RelationView>::empty());
            assert(count_kind(ext.drop_last(), MemoryRelationType::IsLatest) == 0);
        }
        assert(count_kind(upd, MemoryRelationType::IsLatest) == 0) by {
            if shared_tokens(l.statement, r.statement) >= 2 {
                assert(upd.drop_last() =~= Seq::<RelationView>::empty());
                assert(count_kind(upd.drop_last(), MemoryRelationType::IsLatest) == 0);
                assert(upd.last().relation_type == MemoryRelationType::Updates);
            } else {
                assert(upd.len() == 0);
            }
        }
        if ms.len() >= 3 {
            let d = derived_relations(s, j, ms.drop_last(), now);
            if (ms.len() - 1) % 2 == 0 {
                assert(derived_relations(s, j, ms, now).drop_last() =~= d);
            }
        }
    }
}

proof fn lemma_latest_count(s: Seq<char>, j: Seq<char>, ms: Seq<MemoryFact>, now: u64, n: int)
    requires
        ms.len() >= 1,
        0 <= n <= ms.len() - 1,
    ensures
        count_kind(latest_relations(s, j, ms, now).take(n), MemoryRelationType::IsLatest) == n,
    decreases n,
{
    if n > 0 {
        lemma_latest_count(s, j, ms, now, n - 1);
        assert(latest_relations(s, j, ms, now).take(n).drop_last() =~= latest_relations(s, j, ms, now).take(n - 1));
    } else {
        assert(latest_relations(s, j, ms, now).take(0) =~= Seq::<RelationView>::empty());
    }
}

/// Of the relations among `n` memories exactly `n - 1` are is-latest
/// relations (none when there are no memories), each pointing from an earlier
/// memory to the last one.
pub proof fn law_one_latest_relation_per_earlier_memory(s: Seq<char>, j: Seq<char>, ms: Seq<MemoryFact>, now: u64)
    ensures
        count_kind(relationships_spec(s, j, ms, now), MemoryRelationType::IsLatest) == if ms.len() == 0 {
            0
        } else {
            ms.len() - 1
        },
        forall|k: int|
            0 <= k < relationships_spec(s, j, ms, now).len() && (#[trigger] relationships_spec(s, j, ms, now)[k]).relation_type
                == MemoryRelationType::IsLatest ==> relationships_spec(s, j, ms, now)[k].to_memory_id == ms.last().memory_id,
{
    let nb = neighbour_relations(s, j, ms, now);
    let dr = derived_relations(s, j, ms, now);
    let lt = latest_relations(s, j, ms, now);
    lemma_no_latest_among_neighbours(s, j, ms, now);
    lemma_count_kind_append(nb, dr, MemoryRelationType::IsLatest);
    lemma_count_kind_append(nb + dr, lt, MemoryRelationType::IsLatest);
    if ms.len() >= 1 {
        lemma_latest_count(s, j, ms, now, ms.len() - 1);
        assert(lt.take(ms.len() - 1) =~= lt);
    } else {
        assert(lt =~= Seq::<RelationView>::empty());
    }
    lemma_kinds_before_latest(s, j, ms, now);
    let all = relationships_spec(s, j, ms, now);
    assert forall|k: int| 0 <= k < all.len() && (#[trigger] all[k]).relation_type == MemoryRelationType::IsLatest implies all[k].to_memory_id
        == ms.last().memory_id by {
        if k < nb.len() + dr.len() {
            assert(all[k] == (nb + dr)[k]);
        } else {
            assert(all[k] == lt[k - nb.len() - dr.len()]);
        }
    }
}

/// No neighbour or derived relation is an is-latest relation.
proof fn lemma_kinds_before_latest(s: Seq<char>, j: Seq<char>, ms: Seq<MemoryFact>, now: u64)
    ensures
        forall|k: int|
            0 <= k < (neighbour_relations(s, j, ms, now) + derived_relations(s, j, ms, now)).len() ==> (#[trigger] (
            neighbour_relations(s, j, ms, now) + derived_relations(s, j, ms, now))[k]).relation_type
                != MemoryRelationType::IsLatest,
    decreases ms.len(),
{
    if ms.len() >= 2 {
        lemma_kinds_before_latest(s, j, ms.drop_last(), now);
        let pn = neighbour_relations(s, j, ms.drop_last(), now);
        let pd = derived_relations(s, j, ms.drop_last(), now);
        let nb = neighbour_relations(s, j, ms, now);
        let dr = derived_relations(s, j, ms, now);
        assert forall|k: int| 0 <= k < (nb + dr).len() implies (#[trigger] (nb + dr)[k]).relation_type
            != MemoryRelationType::IsLatest by {
            if k < nb.len() {
                if k < pn.len() {
                    assert(nb[k] == pn[k]);
                    assert((pn + pd)[k] == pn[k]);
                }
            } else {
                let m = k - nb.len();
                if m < pd.len() {
                    assert(dr[m] == pd[m]);
                    assert((pn + pd)[pn.len() + m] == pd[m]);
                }
            }
        }
    }
}

impl SupermemoryKernel {
    /// The relations among the memories of one ingestion, stamped `now`:
    /// neighbour relations pair by pair, then derivations from the first
    /// memory, then the is-latest relations to the last (see
    /// `relationships_spec`).
    pub fn build_relationships_at(
        &self,
        session_id: &str,
        job_id: &str,
        memories: &Vec<AtomicMemory>,
        now: u64,
    ) -> (r: Vec<MemoryRelation>)
        ensures
            relation_views(r@) == relationships_spec(session_id@, job_id@, facts(memories@), now),
    {
        let ghost ms = facts(memories@);
        let mut out: Vec<MemoryRelation> = Vec::new();
        if memories.len() == 0 {
            assert(relationships_spec(session_id@, job_id@, ms, now) =~= Seq::<RelationView>::empty());
            return out;
        }
        let mut i: usize = 1;
        assert(relation_views(out@) =~= neighbour_relations(session_id@, job_id@, ms.take(1), now));
        while i < memories.len()
            invariant
                1 <= i <= memories@.len(),
                ms == facts(memories@),
                relation_views(out@) == neighbour_relations(session_id@, job_id@, ms.take(i as int), now),
            decreases memories.len() - i,
        {
            let ghost o0 = relation_views(out@);
            let ghost mi = ms.take(i + 1);
            assert(mi.drop_last() =~= ms.take(i as int));
            assert(mi[mi.len() - 2] == memories@[i - 1]@);
            assert(mi.last() == memories@[i as int]@);
            let left = &memories[i - 1];
            let right = &memories[i];
            let e = make_relation(session_id, job_id, &left.memory_id, &right.memory_id, MemoryRelationType::Extends, now);
            out.push(e);
            if lexical_overlap(left.statement.as_str(), right.statement.as_str()) >= 2 {
                let u = make_relation(session_id, job_id, &left.memory_id, &right.memory_id, MemoryRelationType::Updates, now);
                out.push(u);
            }
            assert(relation_views(out@) =~= neighbour_relations(session_id@, job_id@, mi, now));
            i = i + 1;
        }
        assert(ms.take(memories@.len() as int) =~= ms);
        let ghost nb = relation_views(out@);

        if memories.len() >= 2 {
            let mut k: usize = 2;
            assert(derived_relations(session_id@, job_id@, ms.take(2), now) =~= Seq::<RelationView>::empty());
            assert(relation_views(out@) =~= nb + derived_relations(session_id@, job_id@, ms.take(2), now));
            while k < memories.len()
                invariant
                    2 <= k <= memories@.len(),
                    ms == facts(memories@),
                    relation_views(out@) == nb + derived_relations(session_id@, job_id@, ms.take(k as int), now),
                decreases memories.len() - k,
            {
                let ghost o0 = relation_views(out@);
                let ghost m1 = ms.take(k + 1);
                assert(m1.drop_last() =~= ms.take(k as int));
                assert(m1[0] == memories@[0]@ && m1.last() == memories@[k as int]@);
                if k % 2 == 0 {
                    let d = make_relation(
                        session_id,
                        job_id,
                        &memories[0].memory_id,
                        &memories[k].memory_id,
                        MemoryRelationType::Derives,
                        now,
                    );
                    out.push(d);
                    assert(relation_views(out@) =~= o0.push(d@));
                }
                assert(relation_views(out@) =~= nb + derived_relations(session_id@, job_id@, m1, now));
                k = k + 1;
            }
        } else {
            assert(derived_relations(session_id@, job_id@, ms, now) =~= Seq::<RelationView>::empty());
            assert(relation_views(out@) =~= nb + derived_relations(session_id@, job_id@, ms, now));
        }
        assert(ms.take(memories@.len() as int) =~= ms);
        let ghost nd = relation_views(out@);
        assert(nd == nb + derived_relations(session_id@, job_id@, ms, now));

        let last = memories.len() - 1;
        let mut t: usize = 0;
        while t < last
            invariant
                last == memories@.len() - 1,
                t <= last,
                ms == facts(memories@),
                relation_views(out@) == nd + latest_relations(session_id@, job_id@, ms, now).take(t as int),
            decreases last - t,
        {
            let ghost o0 = relation_views(out@);
            let l = make_relation(session_id, job_id, &memories[t].memory_id, &memories[last].memory_id, MemoryRelationType::IsLatest, now);
            assert(ms[t as int] == memories@[t as int]@ && ms.last() == memories@[last as int]@);
            assert(l@ == latest_relations(session_id@, job_id@, ms, now)[t as int]);
            out.push(l);
            assert(relation_views(out@) =~= o0.push(l@));
            assert(latest_relations(session_id@, job_id@, ms, now).take(t + 1) =~= latest_relations(session_id@, job_id@, ms, now).take(t as int).push(l@));
            assert(relation_views(out@) =~= nd + latest_relations(session_id@, job_id@, ms, now).take(t + 1));
            t = t + 1;
        }
        assert(latest_relations(session_id@, job_id@, ms, now).take(last as int) =~= latest_relations(session_id@, job_id@, ms, now));
        out
    }

    /// `build_relationships_at` stamped with the current time.
    pub fn build_relationships(&self, session_id: &str, job_id: &str, memories: &Vec<AtomicMemory>) -> (r: Vec<
        MemoryRelation,
    >)
        ensures
            exists|now: u64| relation_views(r@) == #[trigger] relationships_spec(session_id@, job_id@, facts(memories@), now),
    {
        let now = current_time_ms();
        self.build_relationships_at(session_id, job_id, memories, now)
    }
}

// ---------------------------------------------------------------------------
// Profile and freshness.
// ---------------------------------------------------------------------------

/// What the memories say of the user: stable facts and recent context.
#[derive(Debug)]
pub struct UserProfileSnapshot {
    pub session_id: String,
    pub static_facts: Vec<String>,
    pub dynamic_context: Vec<String>,
    pub memory_count: usize,
    pub generated_at_ms: u64,
}

/// The statements of the memories that are (or are not) static, in order.
pub open spec fn statements_where(ms: Seq<MemoryFact>, is_static: bool) -> Seq<Seq<char>>
    decreases ms.len(),
{
    if ms.len() == 0 {
        Seq::empty()
    } else {
        let rest = statements_where(ms.drop_last(), is_static);
        if ms.last().is_static == is_static {
            rest.push(ms.last().statement)
        } else {
            rest
        }
    }
}

pub open spec fn at_most(s: Seq<Seq<char>>, n: nat) -> Seq<Seq<char>> {
    if s.len() <= n {
        s
    } else {
        s.take(n as int)
    }
}

impl SupermemoryKernel {
    /// The profile of a session, stamped `now`: the first twelve static
    /// statements, the first sixteen others, and how many memories there were.
    pub fn build_user_profile_at(&self, session_id: &str, memories: &Vec<AtomicMemory>, now: u64) -> (r: UserProfileSnapshot)
        ensures
            r.session_id@ == session_id@,
            string_views(r.static_facts@) == at_most(statements_where(facts(memories@), true), 12),
            string_views(r.dynamic_context@) == at_most(statements_where(facts(memories@), false), 16),
            r.memory_count == memories@.len(),
            r.generated_at_ms == now,
    {
        let ghost ms = facts(memories@);
        let mut static_facts: Vec<String> = Vec::new();
        let mut dynamic_context: Vec<String> = Vec::new();
        let mut i: usize = 0;
        while i < memories.len()
            invariant
                i <= memories@.len(),
                ms == facts(memories@),
                string_views(static_facts@) == at_most(statements_where(ms.take(i as int), true), 12),
                string_views(dynamic_context@) == at_most(statements_where(ms.take(i as int), false), 16),
            decreases memories.len() - i,
        {
            let ghost t = ms.take(i + 1);
            assert(t.drop_last() =~= ms.take(i as int));
            assert(t.last() == memories@[i as int]@);
            let ghost s0 = string_views(static_facts@);
            let ghost d0 = string_views(dynamic_context@);
            let m = &memories[i];
            if m.is_static {
                if static_facts.len() < 12 {
                    static_facts.push(m.statement.clone());
                    assert(string_views(static_facts@) =~= s0.push(m.statement@));
                }
                proof {
                    let a = statements_where(ms.take(i as int), true);
                    if a.len() >= 12 {
                        assert(at_most(a.push(m.statement@), 12) =~= a.take(12));
                    }
                    assert(statements_where(t, true) == a.push(m.statement@));
                    assert(at_most(a.push(m.statement@), 12) =~= if a.len() < 12 { a.push(m.statement@) } else { a.take(12) });
                }
            } else {
                if dynamic_context.len() < 16 {
                    dynamic_context.push(m.statement.clone());
                    assert(string_views(dynamic_context@) =~= d0.push(m.statement@));
                }
                proof {
                    let a = statements_where(ms.take(i as int), false);
                    assert(statements_where(t, false) == a.push(m.statement@));
                    assert(at_most(a.push(m.statement@), 16) =~= if a.len() < 16 { a.push(m.statement@) } else { a.take(16) });
                }
            }
            i = i + 1;
        }
        assert(ms.take(memories@.len() as int) =~= ms);
        UserProfileSnapshot {
            session_id: string_of(&chars_of(session_id)),
            static_facts,
            dynamic_context,
            memory_count: memories.len(),
            generated_at_ms: now,
        }
    }

    /// `build_user_profile_at` stamped with the current time.
    pub fn build_user_profile(&self, session_id: &str, memories: &Vec<AtomicMemory>) -> (r: UserProfileSnapshot)
        ensures
            r.session_id@ == session_id@,
            string_views(r.static_facts@) == at_most(statements_where(facts(memories@), true), 12),
            string_views(r.dynamic_context@) == at_most(statements_where(facts(memories@), false), 16),
            r.memory_count == memories@.len(),
    {
        let now = current_time_ms();
        self.build_user_profile_at(session_id, memories, now)
    }
}

/// When a document's facts were grounded and how fresh they are.
/// `freshness_percent` is the freshness score in hundredths.
#[derive(Debug)]
pub struct TemporalGrounding {
    pub session_id: String,
    pub job_id: String,
    pub document_id: String,
    pub document_date: Option<String>,
    pub event_date: Option<String>,
    pub ingested_at_ms: u64,
    pub last_updated_at_ms: u64,
    pub freshness_percent: u32,
}

/// Freshness: 92 with both a document date and an event date, 78 with one,
/// 55 with neither.
pub open spec fn freshness_spec(job: IngestionJob) -> u32 {
    match (job.document_date, job.event_date) {
        (Some(_), Some(_)) => 92,
        (None, None) => 55,
        _ => 78,
    }
}

fn copy_opt_text(o: &Option<String>) -> (r: Option<String>)
    ensures
        r == *o,
{
    match o {
        Some(t) => Some(t.clone()),
        None => None,
    }
}

impl SupermemoryKernel {
    /// The grounding of a job's document at `now`.
    pub fn temporal_grounding_at(&self, job: &IngestionJob, now: u64) -> (r: TemporalGrounding)
        ensures
            r.session_id@ == job.session_id@,
            r.job_id@ == job.job_id@,
            r.document_id@ == job.document_id@,
            r.document_date == job.document_date,
            r.event_date == job.event_date,
            r.ingested_at_ms == now,
            r.last_updated_at_ms == now,
            r.freshness_percent == freshness_spec(*job),
    {
        let freshness_percent: u32 = match (&job.document_date, &job.event_date) {
            (Some(_), Some(_)) => 92,
            (None, None) => 55,
            _ => 78,
        };
        TemporalGrounding {
            session_id: job.session_id.clone(),
            job_id: job.job_id.clone(),
            document_id: job.document_id.clone(),
            document_date: copy_opt_text(&job.document_date),
            event_date: copy_opt_text(&job.event_date),
            ingested_at_ms: now,
            last_updated_at_ms: now,
            freshness_percent,
        }
    }

    /// `temporal_grounding_at` at the current time.
    pub fn temporal_grounding(&self, job: &IngestionJob) -> (r: TemporalGrounding)
        ensures
            r.session_id@ == job.session_id@,
            r.job_id@ == job.job_id@,
            r.document_id@ == job.document_id@,
            r.document_date == job.document_date,
            r.event_date == job.event_date,
            r.ingested_at_ms == r.last_updated_at_ms,
            r.freshness_percent == freshness_spec(*job),
    {
        let now = current_time_ms();
        self.temporal_grounding_at(job, now)
    }
}

} // verus!
