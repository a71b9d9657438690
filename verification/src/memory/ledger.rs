//! What the write decisions leave behind: soft deletes of the relations of
//! memories that were deleted or upgraded, and a history record per decision.
use vstd::prelude::*;

use crate::memory::atomic::{MemoryRelation, RelationView};
use crate::memory::facts::{action_label, memory_write_action_label, MemoryWriteAction};
use crate::memory::scope::{first_some, lookup, opt_text, MemoryScopeContract};
use crate::memory::supermemory::IngestionJob;
use crate::memory::writes::{decision_views, MemoryWriteDecision, WriteDecisionView};
use crate::text::{chars_of, decimal, ends_with, ends_with_exec, push_decimal, push_str, string_of};

verus! {

// ---------------------------------------------------------------------------
// Soft deletes.
// ---------------------------------------------------------------------------

/// A relation as stored, under its key.
#[derive(Debug)]
pub struct StoredRelation {
    pub key: String,
    pub relation: MemoryRelation,
}

/// A relation invalidated by a decision: the key it is stored under, the
/// suffix of the record that logs the invalidation, and the relation as it
/// now stands.
#[derive(Debug)]
pub struct RelationSoftDelete {
    pub key: String,
    pub append_suffix: String,
    pub relation: MemoryRelation,
}

/// A decision invalidates the relations of the memory it targets when it
/// deletes or upgrades one.
pub open spec fn invalidates(d: WriteDecisionView) -> bool {
    (d.action == MemoryWriteAction::Delete || d.action == MemoryWriteAction::Update) && d.target_memory_id is Some
}

/// The last invalidating decision that targets memory `id`.
pub open spec fn decision_for(ds: Seq<WriteDecisionView>, id: Seq<char>) -> Option<WriteDecisionView>
    decreases ds.len(),
{
    if ds.len() == 0 {
        None
    } else if invalidates(ds.last()) && ds.last().target_memory_id == Some(id) {
        Some(ds.last())
    } else {
        decision_for(ds.drop_last(), id)
    }
}

/// The decision that invalidates a relation: one for its source memory, else
/// one for its target memory.
pub open spec fn invalidating_decision(ds: Seq<WriteDecisionView>, r: RelationView) -> Option<WriteDecisionView> {
    match decision_for(ds, r.from_memory_id) {
        Some(d) => Some(d),
        None => decision_for(ds, r.to_memory_id),
    }
}

/// Whether a stored relation is soft-deleted: the latest record of a valid
/// relation that a decision invalidates.
pub open spec fn soft_deleted(ds: Seq<WriteDecisionView>, s: StoredRelation) -> bool {
    ends_with(s.key@, ":latest"@) && s.relation.valid && invalidating_decision(ds, s.relation@) is Some
}

/// `soft-delete:{ACTION}:{decision id}:{reason}`.
pub open spec fn invalidation_reason(d: WriteDecisionView) -> Seq<char> {
    "soft-delete:"@ + action_label(d.action) + ":"@ + d.decision_id + ":"@ + d.reason
}

/// The soft delete of a stored relation, by decision `d`, at `now`.
pub open spec fn soft_delete_matches(
    out: RelationSoftDelete,
    job: IngestionJob,
    s: StoredRelation,
    d: WriteDecisionView,
    now: u64,
) -> bool {
    let r = s.relation@;
    &&& out.key@ == s.key@
    &&& out.append_suffix@ == job.job_id@ + ":softdelete:"@ + d.decision_id + ":"@ + r.relation_id
    &&& out.relation@ == RelationView {
        valid: false,
        is_latest: false,
        invalidated_at_ms: Some(now),
        invalidation_reason: Some(invalidation_reason(d)),
        ..r
    }
}

/// The stored relations that are soft-deleted, in order.
pub open spec fn soft_deleted_relations(ds: Seq<WriteDecisionView>, ss: Seq<StoredRelation>) -> Seq<StoredRelation>
    decreases ss.len(),
{
    if ss.len() == 0 {
        Seq::empty()
    } else {
        let p = soft_deleted_relations(ds, ss.drop_last());
        if soft_deleted(ds, ss.last()) {
            p.push(ss.last())
        } else {
            p
        }
    }
}

fn decision_for_exec(ds: &Vec<MemoryWriteDecision>, id: &String) -> (r: Option<usize>)
    ensures
        r matches Some(k) ==> k < ds@.len() && decision_for(decision_views(ds@), id@) == Some(ds@[k as int]@),
        r is None ==> decision_for(decision_views(ds@), id@) is None,
{
    let key = chars_of(id.as_str());
    let mut found: Option<usize> = None;
    let mut i: usize = 0;
    while i < ds.len()
        invariant
            i <= ds@.len(),
            key@ == id@,
            found matches Some(k) ==> k < i && decision_for(decision_views(ds@).take(i as int), id@) == Some(ds@[k as int]@),
            found is None ==> decision_for(decision_views(ds@).take(i as int), id@) is None,
        decreases ds.len() - i,
    {
        let ghost dv = decision_views(ds@);
        assert(dv.take(i + 1).drop_last() =~= dv.take(i as int));
        assert(dv.take(i + 1).last() == ds@[i as int]@);
        let d = &ds[i];
        let kind_ok = match d.action {
            MemoryWriteAction::Delete => true,
            MemoryWriteAction::Update => true,
            _ => false,
        };
        if kind_ok {
            match &d.target_memory_id {
                Some(t) => {
                    if crate::text::chars_eq(&chars_of(t.as_str()), &key) {
                        found = Some(i);
                    }
                },
                None => {},
            }
        }
        i = i + 1;
    }
    assert(decision_views(ds@).take(ds@.len() as int) =~= decision_views(ds@));
    found
}

impl crate::memory::supermemory::SupermemoryKernel {
    /// Soft-deletes, at `now`, the latest records of the valid relations
    /// whose source (else target) memory a decision deleted or upgraded; the
    /// last such decision is the one recorded. Stored relations come back in
    /// order, only those soft-deleted.
    pub fn relation_soft_deletes_at(
        &self,
        job: &IngestionJob,
        decisions: &Vec<MemoryWriteDecision>,
        relations: Vec<StoredRelation>,
        now: u64,
    ) -> (r: Vec<RelationSoftDelete>)
        ensures
            r@.len() == soft_deleted_relations(decision_views(decisions@), relations@).len(),
            forall|k: int|
                0 <= k < r@.len() ==> {
                    let s = soft_deleted_relations(decision_views(decisions@), relations@)[k];
                    soft_delete_matches(
                        #[trigger] r@[k],
                        *job,
                        s,
                        invalidating_decision(decision_views(decisions@), s.relation@)->0,
                        now,
                    )
                },
    {
        let ghost ds = decision_views(decisions@);
        let ghost ss = relations@;
        let mut rest = relations;
        let mut out: Vec<RelationSoftDelete> = Vec::new();
        let n = rest.len();
        let mut i: usize = 0;
        assert(ss.skip(0) =~= ss);
        while i < n
            invariant
                i <= n,
                n == ss.len(),
                ds == decision_views(decisions@),
                rest@ == ss.skip(i as int),
                out@.len() == soft_deleted_relations(ds, ss.take(i as int)).len(),
                forall|k: int|
                    0 <= k < out@.len() ==> {
                        let s = soft_deleted_relations(ds, ss.take(i as int))[k];
                        soft_delete_matches(#[trigger] out@[k], *job, s, invalidating_decision(ds, s.relation@)->0, now)
                    },
            decreases n - i,
        {
            let stored = rest.remove(0);
            assert(stored == ss[i as int]);
            assert(rest@ =~= ss.skip(i + 1));
            assert(ss.take(i + 1).drop_last() =~= ss.take(i as int));
            assert(ss.take(i + 1).last() == ss[i as int]);
            let ghost prev = soft_deleted_relations(ds, ss.take(i as int));
            let latest = ends_with_exec(&chars_of(stored.key.as_str()), &chars_of(":latest"));
            if latest && stored.relation.valid {
                let which = match decision_for_exec(decisions, &stored.relation.from_memory_id) {
                    Some(k) => Some(k),
                    None => decision_for_exec(decisions, &stored.relation.to_memory_id),
                };
                match which {
                    Some(k) => {
                        let d = &decisions[k];
                        let ghost dv = d@;
                        assert(invalidating_decision(ds, stored.relation@) == Some(dv));
                        let mut reason = chars_of("soft-delete:");
                        push_str(&mut reason, memory_write_action_label(d.action).as_str());
                        push_str(&mut reason, ":");
                        push_str(&mut reason, d.decision_id.as_str());
                        push_str(&mut reason, ":");
                        push_str(&mut reason, d.reason.as_str());
                        let mut suffix = chars_of(job.job_id.as_str());
                        push_str(&mut suffix, ":softdelete:");
                        push_str(&mut suffix, d.decision_id.as_str());
                        push_str(&mut suffix, ":");
                        push_str(&mut suffix, stored.relation.relation_id.as_str());
                        let StoredRelation { key, relation } = stored;
                        let mut relation = relation;
                        relation.valid = false;
                        relation.is_latest = false;
                        relation.invalidated_at_ms = Some(now);
                        relation.invalidation_reason = Some(string_of(&reason));
                        let item = RelationSoftDelete { key, append_suffix: string_of(&suffix), relation };
                        out.push(item);
                        assert(soft_deleted_relations(ds, ss.take(i + 1)) == prev.push(ss[i as int]));
                    },
                    None => {},
                }
            }
            i = i + 1;
        }
        assert(ss.take(n as int) =~= ss);
        out
    }
}

// ---------------------------------------------------------------------------
// History.
// ---------------------------------------------------------------------------

/// One entry of the memory history sub-ledger.
#[derive(Debug)]
pub struct MemoryHistoryRecord {
    pub history_id: String,
    pub session_id: String,
    pub job_id: String,
    pub trace_id: String,
    pub memory_id: String,
    pub old_memory: Option<String>,
    pub new_memory: Option<String>,
    pub event: String,
    pub actor_id: Option<String>,
    pub role: Option<String>,
    pub is_deleted: bool,
    pub created_at_ms: u64,
    pub updated_at_ms: u64,
}

/// A history record with the keys it is stored under: by history id, as the
/// memory's latest, and in the evidence ledger.
#[derive(Debug)]
pub struct HistoryEntry {
    pub record: MemoryHistoryRecord,
    pub history_key: String,
    pub latest_key: String,
    pub evidence_key: String,
}

/// Who acted: the scope's actor, else the job metadata's `actor_id`,
/// `actor_filter` or `scope_actor_filter`.
pub open spec fn history_actor(scope: MemoryScopeContract, job: IngestionJob) -> Option<Seq<char>> {
    let md = job.metadata@;
    first_some(
        opt_text(scope.scope.actor_id),
        first_some(lookup(md, "actor_id"@), first_some(lookup(md, "actor_filter"@), lookup(md, "scope_actor_filter"@))),
    )
}

/// The role: the job metadata's `role`, else `memory-kernel`.
pub open spec fn history_role(job: IngestionJob) -> Option<Seq<char>> {
    first_some(lookup(job.metadata@, "role"@), Some("memory-kernel"@))
}

/// The memory a decision is about: its target, else its result, else
/// `memory:unknown:{index}`.
pub open spec fn history_memory(d: WriteDecisionView, index: nat) -> Seq<char> {
    match d.target_memory_id {
        Some(t) => t,
        None => match d.resulting_memory_id {
            Some(x) => x,
            None => "memory:unknown:"@ + decimal(index),
        },
    }
}

/// The history entry of decision number `index` at `now`.
pub open spec fn history_matches(
    h: HistoryEntry,
    job: IngestionJob,
    scope: MemoryScopeContract,
    d: WriteDecisionView,
    index: nat,
    now: u64,
) -> bool {
    let id = "history:"@ + job.job_id@ + ":"@ + decimal(index) + ":"@ + decimal(now as nat);
    let memory = history_memory(d, index);
    &&& h.record.history_id@ == id
    &&& h.record.session_id@ == job.session_id@
    &&& h.record.job_id@ == job.job_id@
    &&& h.record.trace_id@ == "trace:"@ + job.session_id@ + ":"@ + job.job_id@
    &&& h.record.memory_id@ == memory
    &&& opt_text(h.record.old_memory) == d.old_memory
    &&& opt_text(h.record.new_memory) == d.new_memory
    &&& h.record.event@ == action_label(d.action)
    &&& opt_text(h.record.actor_id) == history_actor(scope, job)
    &&& opt_text(h.record.role) == history_role(job)
    &&& h.record.is_deleted == (d.action == MemoryWriteAction::Delete)
    &&& h.record.created_at_ms == now
    &&& h.record.updated_at_ms == now
    &&& h.history_key@ == "memory:supermemory:history:"@ + job.session_id@ + ":"@ + job.job_id@ + ":"@ + id
    &&& h.latest_key@ == "memory:supermemory:history:"@ + job.session_id@ + ":"@ + memory + ":latest"@
    &&& h.evidence_key@ == "evidence:memory:"@ + job.session_id@ + ":"@ + id
}

fn copy_opt_text(o: &Option<String>) -> (r: Option<String>)
    ensures
        opt_text(r) == opt_text(*o),
{
    match o {
        Some(t) => Some(t.clone()),
        None => None,
    }
}

fn meta_text(job: &IngestionJob, key: &str) -> (r: Option<String>)
    ensures
        opt_text(r) == lookup(job.metadata@, key@),
{
    match job.metadata.get(key) {
        Some(v) => Some(v.clone()),
        None => None,
    }
}

impl crate::memory::supermemory::SupermemoryKernel {
    /// One history entry per decision, in order, stamped `now` (see
    /// `history_matches`).
    pub fn memory_history_at(
        &self,
        job: &IngestionJob,
        decisions: &Vec<MemoryWriteDecision>,
        scope_contract: &MemoryScopeContract,
        now: u64,
    ) -> (r: Vec<HistoryEntry>)
        ensures
            r@.len() == decisions@.len(),
            forall|k: int|
                0 <= k < r@.len() ==> history_matches(#[trigger] r@[k], *job, *scope_contract, decisions@[k]@, k as nat, now),
    {
        let actor = match copy_opt_text(&scope_contract.scope.actor_id) {
            Some(a) => Some(a),
            None => match meta_text(job, "actor_id") {
                Some(a) => Some(a),
                None => match meta_text(job, "actor_filter") {
                    Some(a) => Some(a),
                    None => meta_text(job, "scope_actor_filter"),
                },
            },
        };
        let role = match meta_text(job, "role") {
            Some(r) => Some(r),
            None => Some(string_of(&chars_of("memory-kernel"))),
        };
        let mut out: Vec<HistoryEntry> = Vec::new();
        let mut i: usize = 0;
        while i < decisions.len()
            invariant
                i <= decisions@.len(),
                out@.len() == i,
                opt_text(actor) == history_actor(*scope_contract, *job),
                opt_text(role) == history_role(*job),
                forall|k: int|
                    0 <= k < i ==> history_matches(#[trigger] out@[k], *job, *scope_contract, decisions@[k]@, k as nat, now),
            decreases decisions.len() - i,
        {
            let d = &decisions[i];
            let memory = match &d.target_memory_id {
                Some(t) => chars_of(t.as_str()),
                None => match &d.resulting_memory_id {
                    Some(x) => chars_of(x.as_str()),
                    None => {
                        let mut m = chars_of("memory:unknown:");
                        push_decimal(&mut m, i as u64);
                        m
                    },
                },
            };
            let mut id = chars_of("history:");
            push_str(&mut id, job.job_id.as_str());
            push_str(&mut id, ":");
            push_decimal(&mut id, i as u64);
            push_str(&mut id, ":");
            push_decimal(&mut id, now);
            let id_text = string_of(&id);
            let mut trace = chars_of("trace:");
            push_str(&mut trace, job.session_id.as_str());
            push_str(&mut trace, ":");
            push_str(&mut trace, job.job_id.as_str());
            let mut history_key = chars_of("memory:supermemory:history:");
            push_str(&mut history_key, job.session_id.as_str());
            push_str(&mut history_key, ":");
            push_str(&mut history_key, job.job_id.as_str());
            push_str(&mut history_key, ":");
            push_str(&mut history_key, id_text.as_str());
            let mut latest_key = chars_of("memory:supermemory:history:");
            push_str(&mut latest_key, job.session_id.as_str());
            push_str(&mut latest_key, ":");
            crate::text::push_all(&mut latest_key, &memory);
            push_str(&mut latest_key, ":latest");
            let mut evidence_key = chars_of("evidence:memory:");
            push_str(&mut evidence_key, job.session_id.as_str());
            push_str(&mut evidence_key, ":");
            push_str(&mut evidence_key, id_text.as_str());
            let record = MemoryHistoryRecord {
                history_id: id_text,
                session_id: job.session_id.clone(),
                job_id: job.job_id.clone(),
                trace_id: string_of(&trace),
                memory_id: string_of(&memory),
                old_memory: copy_opt_text(&d.old_memory),
                new_memory: copy_opt_text(&d.new_memory),
                event: memory_write_action_label(d.action),
                actor_id: copy_opt_text(&actor),
                role: copy_opt_text(&role),
                is_deleted: match d.action {
                    MemoryWriteAction::Delete => true,
                    _ => false,
                },
                created_at_ms: now,
                updated_at_ms: now,
            };
            out.push(
                HistoryEntry {
                    record,
                    history_key: string_of(&history_key),
                    latest_key: string_of(&latest_key),
                    evidence_key: string_of(&evidence_key),
                },
            );
            i = i + 1;
        }
        out
    }
}

} // verus!
