//! Where one ingestion's results are stored, in the order they are written:
//! each record under an appended key and, for most kinds, again under the
//! kind's `latest` key, so that the last record written of a kind is its latest.
use vstd::prelude::*;

use crate::memory::ledger::{history_matches, HistoryEntry};
use crate::memory::scope::MemoryScopeContract;
use crate::memory::supermemory::{IngestionJob, SemanticChunk, SupermemoryKernel};
use crate::memory::writes::{AtomicMemory, MemoryWriteDecision};
use crate::memory::atomic::MemoryRelation;
use crate::text::{chars_of, decimal, push_decimal, push_str, string_of};

verus! {

/// What a write stores: one of the ingestion's results, by kind and position.
#[derive(Debug, Clone, Copy, PartialEq, Eq, Structural)]
pub enum PipelineItem {
    Job,
    Document,
    Chunk(usize),
    Embedding(usize),
    Memory(usize),
    ScopeIndex(usize),
    Relation(usize),
    Temporal,
    Profile,
    Context,
    Decision(usize),
}

/// One write of the pipeline: the key and what is stored under it.
#[derive(Debug)]
pub struct PipelineWrite {
    pub key: String,
    pub item: PipelineItem,
}

pub open spec fn write_view(w: PipelineWrite) -> (Seq<char>, PipelineItem) {
    (w.key@, w.item)
}

/// The key of a supermemory record of kind `kind` in a session.
pub open spec fn sm_key(kind: Seq<char>, session: Seq<char>, suffix: Seq<char>) -> Seq<char> {
    "memory:supermemory:"@ + kind + ":"@ + session + ":"@ + suffix
}

/// A record written under its own key, then as the latest of its kind.
pub open spec fn appended(kind: Seq<char>, session: Seq<char>, suffix: Seq<char>, item: PipelineItem) -> Seq<(Seq<char>, PipelineItem)> {
    seq![(sm_key(kind, session, suffix), item), (sm_key(kind, session, "latest"@), item)]
}

pub open spec fn chunk_writes(s: Seq<char>, job: Seq<char>, cs: Seq<SemanticChunk>) -> Seq<(Seq<char>, PipelineItem)>
    decreases cs.len(),
{
    if cs.len() == 0 {
        Seq::empty()
    } else {
        chunk_writes(s, job, cs.drop_last()) + appended(
            "chunks"@,
            s,
            job + ":"@ + decimal(cs.last().sequence as nat),
            PipelineItem::Chunk((cs.len() - 1) as usize),
        )
    }
}

pub open spec fn embedding_writes(s: Seq<char>, ids: Seq<Seq<char>>) -> Seq<(Seq<char>, PipelineItem)>
    decreases ids.len(),
{
    if ids.len() == 0 {
        Seq::empty()
    } else {
        embedding_writes(s, ids.drop_last()).push(
            (sm_key("embeddings"@, s, ids.last()), PipelineItem::Embedding((ids.len() - 1) as usize)),
        )
    }
}

/// Each memory is stored, made the latest, and given its scope index.
pub open spec fn memory_writes(s: Seq<char>, job: Seq<char>, ms: Seq<AtomicMemory>) -> Seq<(Seq<char>, PipelineItem)>
    decreases ms.len(),
{
    if ms.len() == 0 {
        Seq::empty()
    } else {
        let i = (ms.len() - 1) as usize;
        let id = ms.last().memory_id@;
        memory_writes(s, job, ms.drop_last()) + appended("atomic"@, s, job + ":"@ + id, PipelineItem::Memory(i)).push(
            (sm_key("scope-index"@, s, id), PipelineItem::ScopeIndex(i)),
        )
    }
}

pub open spec fn relation_writes(s: Seq<char>, job: Seq<char>, rs: Seq<MemoryRelation>) -> Seq<(Seq<char>, PipelineItem)>
    decreases rs.len(),
{
    if rs.len() == 0 {
        Seq::empty()
    } else {
        relation_writes(s, job, rs.drop_last()) + appended(
            "relations"@,
            s,
            job + ":"@ + rs.last().relation_id@,
            PipelineItem::Relation((rs.len() - 1) as usize),
        )
    }
}

/// The memory a decision is about: its target, else the memory it produced.
pub open spec fn decided_memory(d: MemoryWriteDecision) -> Option<Seq<char>> {
    match d.target_memory_id {
        Some(t) => Some(t@),
        None => match d.resulting_memory_id {
            Some(r) => Some(r@),
            None => None,
        },
    }
}

/// Each decision is stored, and made the decision state of its memory.
pub open spec fn decision_writes(s: Seq<char>, job: Seq<char>, ds: Seq<MemoryWriteDecision>) -> Seq<(Seq<char>, PipelineItem)>
    decreases ds.len(),
{
    if ds.len() == 0 {
        Seq::empty()
    } else {
        let i = (ds.len() - 1) as usize;
        let d = ds.last();
        let stored = decision_writes(s, job, ds.drop_last()).push(
            (sm_key("decisions"@, s, job + ":"@ + d.decision_id@), PipelineItem::Decision(i)),
        );
        match decided_memory(d) {
            Some(m) => stored.push((sm_key("decision-state"@, s, m), PipelineItem::Decision(i))),
            None => stored,
        }
    }
}

/// Every write of one ingestion, in order: the job, the document, chunks,
/// embeddings (by chunk id), memories with their scope indexes, relations,
/// the temporal grounding, the profile, the context, and the decisions.
pub open spec fn pipeline_writes_spec(
    job: IngestionJob,
    chunks: Seq<SemanticChunk>,
    embedding_chunk_ids: Seq<Seq<char>>,
    memories: Seq<AtomicMemory>,
    relations: Seq<MemoryRelation>,
    decisions: Seq<MemoryWriteDecision>,
) -> Seq<(Seq<char>, PipelineItem)> {
    let s = job.session_id@;
    let j = job.job_id@;
    appended("queue"@, s, j, PipelineItem::Job) + appended("documents"@, s, j, PipelineItem::Document) + chunk_writes(
        s,
        j,
        chunks,
    ) + embedding_writes(s, embedding_chunk_ids) + memory_writes(s, j, memories) + relation_writes(s, j, relations)
        + seq![(sm_key("temporal"@, s, j), PipelineItem::Temporal)] + appended("profile"@, s, j, PipelineItem::Profile)
        + appended("context"@, s, j, PipelineItem::Context) + decision_writes(s, j, decisions)
}

fn sm_key_exec(kind: &str, session: &str, suffix: &Vec<char>) -> (r: String)
    ensures
        r@ == sm_key(kind@, session@, suffix@),
{
    let mut k = chars_of("memory:supermemory:");
    push_str(&mut k, kind);
    push_str(&mut k, ":");
    push_str(&mut k, session);
    push_str(&mut k, ":");
    crate::text::push_all(&mut k, suffix);
    string_of(&k)
}

fn push_write(out: &mut Vec<PipelineWrite>, key: String, item: PipelineItem)
    ensures
        final(out)@.map_values(|w: PipelineWrite| write_view(w)) == old(out)@.map_values(|w: PipelineWrite| write_view(w)).push(
            (key@, item),
        ),
{
    let ghost o0 = out@.map_values(|w: PipelineWrite| write_view(w));
    out.push(PipelineWrite { key, item });
    assert(out@.map_values(|w: PipelineWrite| write_view(w)) =~= o0.push((key@, item)));
}

fn push_appended(out: &mut Vec<PipelineWrite>, kind: &str, session: &str, suffix: &Vec<char>, item: PipelineItem)
    ensures
        final(out)@.map_values(|w: PipelineWrite| write_view(w)) == old(out)@.map_values(|w: PipelineWrite| write_view(w))
            + appended(kind@, session@, suffix@, item),
{
    let ghost o0 = out@.map_values(|w: PipelineWrite| write_view(w));
    push_write(out, sm_key_exec(kind, session, suffix), item);
    let latest = chars_of("latest");
    push_write(out, sm_key_exec(kind, session, &latest), item);
    assert(out@.map_values(|w: PipelineWrite| write_view(w)) =~= o0 + appended(kind@, session@, suffix@, item));
}

fn job_suffix(job: &str, tail: &str) -> (r: Vec<char>)
    ensures
        r@ == job@ + ":"@ + tail@,
{
    let mut v = chars_of(job);
    push_str(&mut v, ":");
    push_str(&mut v, tail);
    v
}

/// Plans the writes that store one ingestion's results (see
/// `pipeline_writes_spec`); `embedding_chunk_ids` are the chunk ids of its
/// embeddings, in order.
pub fn plan_pipeline_writes(
    job: &IngestionJob,
    chunks: &Vec<SemanticChunk>,
    embedding_chunk_ids: &Vec<String>,
    memories: &Vec<AtomicMemory>,
    relations: &Vec<MemoryRelation>,
    decisions: &Vec<MemoryWriteDecision>,
) -> (r: Vec<PipelineWrite>)
    ensures
        r@.map_values(|w: PipelineWrite| write_view(w)) == pipeline_writes_spec(
            *job,
            chunks@,
            embedding_chunk_ids@.map_values(|x: String| x@),
            memories@,
            relations@,
            decisions@,
        ),
{
    let s = job.session_id.as_str();
    let j = chars_of(job.job_id.as_str());
    let mut out: Vec<PipelineWrite> = Vec::new();
    push_appended(&mut out, "queue", s, &j, PipelineItem::Job);
    push_appended(&mut out, "documents", s, &j, PipelineItem::Document);
    let ghost base1 = out@.map_values(|w: PipelineWrite| write_view(w));
    let mut i: usize = 0;
    while i < chunks.len()
        invariant
            i <= chunks@.len(),
            j@ == job.job_id@,
            s@ == job.session_id@,
            out@.map_values(|w: PipelineWrite| write_view(w)) == base1 + chunk_writes(s@, j@, chunks@.take(i as int)),
        decreases chunks.len() - i,
    {
        let ghost t1 = chunks@.take(i + 1);
        assert(t1.drop_last() =~= chunks@.take(i as int));
        assert(t1.last() == chunks@[i as int]);
        let mut suffix = chars_of(job.job_id.as_str());
        push_str(&mut suffix, ":");
        let sq = chunks[i].sequence as u64;
        assert(sq as nat == chunks@[i as int].sequence as nat);
        push_decimal(&mut suffix, sq);
        assert(suffix@ =~= j@ + ":"@ + decimal(chunks@[i as int].sequence as nat));
        push_appended(&mut out, "chunks", s, &suffix, PipelineItem::Chunk(i));
        i = i + 1;
    }
    assert(chunks@.take(chunks@.len() as int) =~= chunks@);
    let ghost base2 = out@.map_values(|w: PipelineWrite| write_view(w));
    let ghost ids = embedding_chunk_ids@.map_values(|x: String| x@);
    let mut e: usize = 0;
    while e < embedding_chunk_ids.len()
        invariant
            e <= embedding_chunk_ids@.len(),
            s@ == job.session_id@,
            ids == embedding_chunk_ids@.map_values(|x: String| x@),
            out@.map_values(|w: PipelineWrite| write_view(w)) == base2 + embedding_writes(s@, ids.take(e as int)),
        decreases embedding_chunk_ids.len() - e,
    {
        let ghost t1 = ids.take(e + 1);
        assert(t1.drop_last() =~= ids.take(e as int));
        assert(t1.last() == embedding_chunk_ids@[e as int]@);
        let key = sm_key_exec("embeddings", s, &chars_of(embedding_chunk_ids[e].as_str()));
        push_write(&mut out, key, PipelineItem::Embedding(e));
        e = e + 1;
    }
    assert(ids.take(ids.len() as int) =~= ids);
    let ghost base3 = out@.map_values(|w: PipelineWrite| write_view(w));
    let mut m: usize = 0;
    while m < memories.len()
        invariant
            m <= memories@.len(),
            j@ == job.job_id@,
            s@ == job.session_id@,
            out@.map_values(|w: PipelineWrite| write_view(w)) == base3 + memory_writes(s@, j@, memories@.take(m as int)),
        decreases memories.len() - m,
    {
        let ghost t1 = memories@.take(m + 1);
        assert(t1.drop_last() =~= memories@.take(m as int));
        assert(t1.last() == memories@[m as int]);
        let id = memories[m].memory_id.as_str();
        let suffix = job_suffix(job.job_id.as_str(), id);
        push_appended(&mut out, "atomic", s, &suffix, PipelineItem::Memory(m));
        let key = sm_key_exec("scope-index", s, &chars_of(id));
        push_write(&mut out, key, PipelineItem::ScopeIndex(m));
        m = m + 1;
    }
    assert(memories@.take(memories@.len() as int) =~= memories@);
    let ghost base4 = out@.map_values(|w: PipelineWrite| write_view(w));
    let mut q: usize = 0;
    while q < relations.len()
        invariant
            q <= relations@.len(),
            j@ == job.job_id@,
            s@ == job.session_id@,
            out@.map_values(|w: PipelineWrite| write_view(w)) == base4 + relation_writes(s@, j@, relations@.take(q as int)),
        decreases relations.len() - q,
    {
        let ghost t1 = relations@.take(q + 1);
        assert(t1.drop_last() =~= relations@.take(q as int));
        assert(t1.last() == relations@[q as int]);
        let suffix = job_suffix(job.job_id.as_str(), relations[q].relation_id.as_str());
        push_appended(&mut out, "relations", s, &suffix, PipelineItem::Relation(q));
        q = q + 1;
    }
    assert(relations@.take(relations@.len() as int) =~= relations@);
    push_write(&mut out, sm_key_exec("temporal", s, &j), PipelineItem::Temporal);
    push_appended(&mut out, "profile", s, &j, PipelineItem::Profile);
    push_appended(&mut out, "context", s, &j, PipelineItem::Context);
    let ghost base5 = out@.map_values(|w: PipelineWrite| write_view(w));
    let mut d: usize = 0;
    while d < decisions.len()
        invariant
            d <= decisions@.len(),
            j@ == job.job_id@,
            s@ == job.session_id@,
            out@.map_values(|w: PipelineWrite| write_view(w)) == base5 + decision_writes(s@, j@, decisions@.take(d as int)),
        decreases decisions.len() - d,
    {
        let ghost t1 = decisions@.take(d + 1);
        assert(t1.drop_last() =~= decisions@.take(d as int));
        assert(t1.last() == decisions@[d as int]);
        let dec = &decisions[d];
        let suffix = job_suffix(job.job_id.as_str(), dec.decision_id.as_str());
        push_write(&mut out, sm_key_exec("decisions", s, &suffix), PipelineItem::Decision(d));
        let mid = match &dec.target_memory_id {
            Some(t) => Some(t.as_str()),
            None => match &dec.resulting_memory_id {
                Some(x) => Some(x.as_str()),
                None => None,
            },
        };
        match mid {
            Some(x) => {
                push_write(&mut out, sm_key_exec("decision-state", s, &chars_of(x)), PipelineItem::Decision(d));
            },
            None => {},
        }
        d = d + 1;
    }
    assert(decisions@.take(decisions@.len() as int) =~= decisions@);
    out
}


/// Everything one ingestion stores: its writes, then one history entry per
/// decision.
#[derive(Debug)]
pub struct PipelinePersistence {
    pub writes: Vec<PipelineWrite>,
    pub history: Vec<HistoryEntry>,
}

impl SupermemoryKernel {
    /// Plans what storing one ingestion's results writes at `now`: the
    /// writes of `plan_pipeline_writes`, then the history entry of each
    /// decision (see `memory_history_at`), whose key is
    /// `memory:supermemory:history:{session}:{job}:history:{job}:{index}:{now}`.
    pub fn persist_pipeline_plan(
        &self,
        job: &IngestionJob,
        chunks: &Vec<SemanticChunk>,
        embedding_chunk_ids: &Vec<String>,
        memories: &Vec<AtomicMemory>,
        relations: &Vec<MemoryRelation>,
        decisions: &Vec<MemoryWriteDecision>,
        scope_contract: &MemoryScopeContract,
        now: u64,
    ) -> (r: PipelinePersistence)
        ensures
            r.writes@.map_values(|w: PipelineWrite| write_view(w)) == pipeline_writes_spec(
                *job,
                chunks@,
                embedding_chunk_ids@.map_values(|x: String| x@),
                memories@,
                relations@,
                decisions@,
            ),
            r.history@.len() == decisions@.len(),
            forall|k: int|
                0 <= k < r.history@.len() ==> history_matches(
                    #[trigger] r.history@[k],
                    *job,
                    *scope_contract,
                    decisions@[k]@,
                    k as nat,
                    now,
                ),
    {
        let writes = plan_pipeline_writes(job, chunks, embedding_chunk_ids, memories, relations, decisions);
        let history = self.memory_history_at(job, decisions, scope_contract, now);
        PipelinePersistence { writes, history }
    }
}

type WriteView = (Seq<char>, PipelineItem);

proof fn lemma_in_left(a: Seq<WriteView>, b: Seq<WriteView>, x: WriteView)
    requires
        a.contains(x),
    ensures
        (a + b).contains(x),
{
    let k = choose|k: int| 0 <= k < a.len() && a[k] == x;
    assert((a + b)[k] == x);
}

proof fn lemma_in_right(a: Seq<WriteView>, b: Seq<WriteView>, x: WriteView)
    requires
        b.contains(x),
    ensures
        (a + b).contains(x),
{
    let k = choose|k: int| 0 <= k < b.len() && b[k] == x;
    assert((a + b)[a.len() + k] == x);
}

proof fn lemma_chunk_written(s: Seq<char>, job: Seq<char>, cs: Seq<SemanticChunk>, i: int)
    requires
        0 <= i < cs.len(),
    ensures
        chunk_writes(s, job, cs).contains(
            (sm_key("chunks"@, s, job + ":"@ + decimal(cs[i].sequence as nat)), PipelineItem::Chunk(i as usize)),
        ),
    decreases cs.len(),
{
    let prev = chunk_writes(s, job, cs.drop_last());
    let tail = appended(
        "chunks"@,
        s,
        job + ":"@ + decimal(cs.last().sequence as nat),
        PipelineItem::Chunk((cs.len() - 1) as usize),
    );
    if i < cs.len() - 1 {
        assert(cs.drop_last()[i] == cs[i]);
        lemma_chunk_written(s, job, cs.drop_last(), i);
        lemma_in_left(prev, tail, (sm_key("chunks"@, s, job + ":"@ + decimal(cs[i].sequence as nat)), PipelineItem::Chunk(i as usize)));
    } else {
        assert(tail[0] == (sm_key("chunks"@, s, job + ":"@ + decimal(cs[i].sequence as nat)), PipelineItem::Chunk(i as usize)));
        lemma_in_right(prev, tail, tail[0]);
    }
}

proof fn lemma_memory_written(s: Seq<char>, job: Seq<char>, ms: Seq<AtomicMemory>, i: int)
    requires
        0 <= i < ms.len(),
    ensures
        memory_writes(s, job, ms).contains(
            (sm_key("atomic"@, s, job + ":"@ + ms[i].memory_id@), PipelineItem::Memory(i as usize)),
        ),
        memory_writes(s, job, ms).contains(
            (sm_key("scope-index"@, s, ms[i].memory_id@), PipelineItem::ScopeIndex(i as usize)),
        ),
    decreases ms.len(),
{
    let n = (ms.len() - 1) as usize;
    let id = ms.last().memory_id@;
    let prev = memory_writes(s, job, ms.drop_last());
    let tail = appended("atomic"@, s, job + ":"@ + id, PipelineItem::Memory(n)).push(
        (sm_key("scope-index"@, s, id), PipelineItem::ScopeIndex(n)),
    );
    let a = (sm_key("atomic"@, s, job + ":"@ + ms[i].memory_id@), PipelineItem::Memory(i as usize));
    let b = (sm_key("scope-index"@, s, ms[i].memory_id@), PipelineItem::ScopeIndex(i as usize));
    if i < ms.len() - 1 {
        assert(ms.drop_last()[i] == ms[i]);
        lemma_memory_written(s, job, ms.drop_last(), i);
        lemma_in_left(prev, tail, a);
        lemma_in_left(prev, tail, b);
    } else {
        assert(tail[0] == a);
        assert(tail[2] == b);
        lemma_in_right(prev, tail, a);
        lemma_in_right(prev, tail, b);
    }
}

proof fn lemma_relation_written(s: Seq<char>, job: Seq<char>, rs: Seq<MemoryRelation>, i: int)
    requires
        0 <= i < rs.len(),
    ensures
        relation_writes(s, job, rs).contains(
            (sm_key("relations"@, s, job + ":"@ + rs[i].relation_id@), PipelineItem::Relation(i as usize)),
        ),
    decreases rs.len(),
{
    let prev = relation_writes(s, job, rs.drop_last());
    let tail = appended(
        "relations"@,
        s,
        job + ":"@ + rs.last().relation_id@,
        PipelineItem::Relation((rs.len() - 1) as usize),
    );
    let a = (sm_key("relations"@, s, job + ":"@ + rs[i].relation_id@), PipelineItem::Relation(i as usize));
    if i < rs.len() - 1 {
        assert(rs.drop_last()[i] == rs[i]);
        lemma_relation_written(s, job, rs.drop_last(), i);
        lemma_in_left(prev, tail, a);
    } else {
        assert(tail[0] == a);
        lemma_in_right(prev, tail, a);
    }
}

proof fn lemma_decision_written(s: Seq<char>, job: Seq<char>, ds: Seq<MemoryWriteDecision>, i: int)
    requires
        0 <= i < ds.len(),
    ensures
        decision_writes(s, job, ds).contains(
            (sm_key("decisions"@, s, job + ":"@ + ds[i].decision_id@), PipelineItem::Decision(i as usize)),
        ),
    decreases ds.len(),
{
    let n = (ds.len() - 1) as usize;
    let d = ds.last();
    let stored = decision_writes(s, job, ds.drop_last()).push(
        (sm_key("decisions"@, s, job + ":"@ + d.decision_id@), PipelineItem::Decision(n)),
    );
    let a = (sm_key("decisions"@, s, job + ":"@ + ds[i].decision_id@), PipelineItem::Decision(i as usize));
    if i < ds.len() - 1 {
        assert(ds.drop_last()[i] == ds[i]);
        lemma_decision_written(s, job, ds.drop_last(), i);
        let k = choose|k: int| 0 <= k < decision_writes(s, job, ds.drop_last()).len() && decision_writes(s, job, ds.drop_last())[k] == a;
        assert(stored[k] == a);
        assert(decision_writes(s, job, ds)[k] == a);
    } else {
        assert(stored[stored.len() - 1] == a);
        assert(decision_writes(s, job, ds)[stored.len() - 1] == a);
    }
}

/// One ingestion's writes store the job, the document, the profile and the
/// context each under its own key and as the latest of its kind, every chunk
/// under its sequence number, every memory with its scope index, every
/// relation, the temporal grounding and every decision.
pub proof fn law_pipeline_writes_store_every_result(
    job: IngestionJob,
    chunks: Seq<SemanticChunk>,
    embedding_chunk_ids: Seq<Seq<char>>,
    memories: Seq<AtomicMemory>,
    relations: Seq<MemoryRelation>,
    decisions: Seq<MemoryWriteDecision>,
)
    ensures
        ({
            let w = pipeline_writes_spec(job, chunks, embedding_chunk_ids, memories, relations, decisions);
            let s = job.session_id@;
            let j = job.job_id@;
            &&& w.contains((sm_key("queue"@, s, j), PipelineItem::Job))
            &&& w.contains((sm_key("queue"@, s, "latest"@), PipelineItem::Job))
            &&& w.contains((sm_key("documents"@, s, j), PipelineItem::Document))
            &&& w.contains((sm_key("documents"@, s, "latest"@), PipelineItem::Document))
            &&& w.contains((sm_key("profile"@, s, j), PipelineItem::Profile))
            &&& w.contains((sm_key("profile"@, s, "latest"@), PipelineItem::Profile))
            &&& w.contains((sm_key("context"@, s, j), PipelineItem::Context))
            &&& w.contains((sm_key("context"@, s, "latest"@), PipelineItem::Context))
            &&& w.contains((sm_key("temporal"@, s, j), PipelineItem::Temporal))
            &&& forall|i: int|
                0 <= i < chunks.len() ==> w.contains(
                    (sm_key("chunks"@, s, j + ":"@ + decimal((#[trigger] chunks[i]).sequence as nat)), PipelineItem::Chunk(i as usize)),
                )
            &&& forall|i: int|
                0 <= i < memories.len() ==> w.contains(
                    (sm_key("atomic"@, s, j + ":"@ + (#[trigger] memories[i]).memory_id@), PipelineItem::Memory(i as usize)),
                ) && w.contains((sm_key("scope-index"@, s, memories[i].memory_id@), PipelineItem::ScopeIndex(i as usize)))
            &&& forall|i: int|
                0 <= i < relations.len() ==> w.contains(
                    (sm_key("relations"@, s, j + ":"@ + (#[trigger] relations[i]).relation_id@), PipelineItem::Relation(i as usize)),
                )
            &&& forall|i: int|
                0 <= i < decisions.len() ==> w.contains(
                    (sm_key("decisions"@, s, j + ":"@ + (#[trigger] decisions[i]).decision_id@), PipelineItem::Decision(i as usize)),
                )
        }),
{
    let s = job.session_id@;
    let j = job.job_id@;
    let p1 = appended("queue"@, s, j, PipelineItem::Job);
    let p2 = p1 + appended("documents"@, s, j, PipelineItem::Document);
    let p3 = p2 + chunk_writes(s, j, chunks);
    let p4 = p3 + embedding_writes(s, embedding_chunk_ids);
    let p5 = p4 + memory_writes(s, j, memories);
    let p6 = p5 + relation_writes(s, j, relations);
    let p7 = p6 + seq![(sm_key("temporal"@, s, j), PipelineItem::Temporal)];
    let p8 = p7 + appended("profile"@, s, j, PipelineItem::Profile);
    let p9 = p8 + appended("context"@, s, j, PipelineItem::Context);
    let dw = decision_writes(s, j, decisions);
    let w = p9 + dw;
    assert(w == pipeline_writes_spec(job, chunks, embedding_chunk_ids, memories, relations, decisions));
    // Each earlier part stays a prefix of the whole.
    assert forall|x: WriteView| p1.contains(x) implies w.contains(x) by {
        lemma_in_left(p1, appended("documents"@, s, j, PipelineItem::Document), x);
        lemma_in_left(p2, chunk_writes(s, j, chunks), x);
        lemma_in_left(p3, embedding_writes(s, embedding_chunk_ids), x);
        lemma_in_left(p4, memory_writes(s, j, memories), x);
        lemma_in_left(p5, relation_writes(s, j, relations), x);
        lemma_in_left(p6, seq![(sm_key("temporal"@, s, j), PipelineItem::Temporal)], x);
        lemma_in_left(p7, appended("profile"@, s, j, PipelineItem::Profile), x);
        lemma_in_left(p8, appended("context"@, s, j, PipelineItem::Context), x);
        lemma_in_left(p9, dw, x);
    }
    assert forall|x: WriteView| appended("documents"@, s, j, PipelineItem::Document).contains(x) implies w.contains(x) by {
        lemma_in_right(p1, appended("documents"@, s, j, PipelineItem::Document), x);
        lemma_in_left(p2, chunk_writes(s, j, chunks), x);
        lemma_in_left(p3, embedding_writes(s, embedding_chunk_ids), x);
        lemma_in_left(p4, memory_writes(s, j, memories), x);
        lemma_in_left(p5, relation_writes(s, j, relations), x);
        lemma_in_left(p6, seq![(sm_key("temporal"@, s, j), PipelineItem::Temporal)], x);
        lemma_in_left(p7, appended("profile"@, s, j, PipelineItem::Profile), x);
        lemma_in_left(p8, appended("context"@, s, j, PipelineItem::Context), x);
        lemma_in_left(p9, dw, x);
    }
    assert forall|x: WriteView| chunk_writes(s, j, chunks).contains(x) implies w.contains(x) by {
        lemma_in_right(p2, chunk_writes(s, j, chunks), x);
        lemma_in_left(p3, embedding_writes(s, embedding_chunk_ids), x);
        lemma_in_left(p4, memory_writes(s, j, memories), x);
        lemma_in_left(p5, relation_writes(s, j, relations), x);
        lemma_in_left(p6, seq![(sm_key("temporal"@, s, j), PipelineItem::Temporal)], x);
        lemma_in_left(p7, appended("profile"@, s, j, PipelineItem::Profile), x);
        lemma_in_left(p8, appended("context"@, s, j, PipelineItem::Context), x);
        lemma_in_left(p9, dw, x);
    }
    assert forall|x: WriteView| memory_writes(s, j, memories).contains(x) implies w.contains(x) by {
        lemma_in_right(p4, memory_writes(s, j, memories), x);
        lemma_in_left(p5, relation_writes(s, j, relations), x);
        lemma_in_left(p6, seq![(sm_key("temporal"@, s, j), PipelineItem::Temporal)], x);
        lemma_in_left(p7, appended("profile"@, s, j, PipelineItem::Profile), x);
        lemma_in_left(p8, appended("context"@, s, j, PipelineItem::Context), x);
        lemma_in_left(p9, dw, x);
    }
    assert forall|x: WriteView| relation_writes(s, j, relations).contains(x) implies w.contains(x) by {
        lemma_in_right(p5, relation_writes(s, j, relations), x);
        lemma_in_left(p6, seq![(sm_key("temporal"@, s, j), PipelineItem::Temporal)], x);
        lemma_in_left(p7, appended("profile"@, s, j, PipelineItem::Profile), x);
        lemma_in_left(p8, appended("context"@, s, j, PipelineItem::Context), x);
        lemma_in_left(p9, dw, x);
    }
    assert forall|x: WriteView| seq![(sm_key("temporal"@, s, j), PipelineItem::Temporal)].contains(x) implies w.contains(x) by {
        lemma_in_right(p6, seq![(sm_key("temporal"@, s, j), PipelineItem::Temporal)], x);
        lemma_in_left(p7, appended("profile"@, s, j, PipelineItem::Profile), x);
        lemma_in_left(p8, appended("context"@, s, j, PipelineItem::Context), x);
        lemma_in_left(p9, dw, x);
    }
    assert forall|x: WriteView| appended("profile"@, s, j, PipelineItem::Profile).contains(x) implies w.contains(x) by {
        lemma_in_right(p7, appended("profile"@, s, j, PipelineItem::Profile), x);
        lemma_in_left(p8, appended("context"@, s, j, PipelineItem::Context), x);
        lemma_in_left(p9, dw, x);
    }
    assert forall|x: WriteView| appended("context"@, s, j, PipelineItem::Context).contains(x) implies w.contains(x) by {
        lemma_in_right(p8, appended("context"@, s, j, PipelineItem::Context), x);
        lemma_in_left(p9, dw, x);
    }
    assert forall|x: WriteView| dw.contains(x) implies w.contains(x) by {
        lemma_in_right(p9, dw, x);
    }
    assert(p1.contains(p1[0]) && p1.contains(p1[1]));
    let docs = appended("documents"@, s, j, PipelineItem::Document);
    assert(docs.contains(docs[0]) && docs.contains(docs[1]));
    let prof = appended("profile"@, s, j, PipelineItem::Profile);
    assert(prof.contains(prof[0]) && prof.contains(prof[1]));
    let ctx = appended("context"@, s, j, PipelineItem::Context);
    assert(ctx.contains(ctx[0]) && ctx.contains(ctx[1]));
    let tmp = seq![(sm_key("temporal"@, s, j), PipelineItem::Temporal)];
    assert(tmp.contains(tmp[0]));
    assert forall|i: int| 0 <= i < chunks.len() implies w.contains(
        (sm_key("chunks"@, s, j + ":"@ + decimal((#[trigger] chunks[i]).sequence as nat)), PipelineItem::Chunk(i as usize)),
    ) by {
        lemma_chunk_written(s, j, chunks, i);
    }
    assert forall|i: int| 0 <= i < memories.len() implies w.contains(
        (sm_key("atomic"@, s, j + ":"@ + (#[trigger] memories[i]).memory_id@), PipelineItem::Memory(i as usize)),
    ) && w.contains((sm_key("scope-index"@, s, memories[i].memory_id@), PipelineItem::ScopeIndex(i as usize))) by {
        lemma_memory_written(s, j, memories, i);
    }
    assert forall|i: int| 0 <= i < relations.len() implies w.contains(
        (sm_key("relations"@, s, j + ":"@ + (#[trigger] relations[i]).relation_id@), PipelineItem::Relation(i as usize)),
    ) by {
        lemma_relation_written(s, j, relations, i);
    }
    assert forall|i: int| 0 <= i < decisions.len() implies w.contains(
        (sm_key("decisions"@, s, j + ":"@ + (#[trigger] decisions[i]).decision_id@), PipelineItem::Decision(i as usize)),
    ) by {
        lemma_decision_written(s, j, decisions, i);
    }
}

} // verus!
