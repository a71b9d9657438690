use autoloop_core::keyed::TextMap;
use autoloop_core::memory::atomic::{MemoryRelation, MemoryRelationType};
use autoloop_core::memory::facts::MemoryWriteAction;
use autoloop_core::memory::ledger::StoredRelation;
use autoloop_core::memory::supermemory::{IngestionJob, ProcessingStatus, SupermemoryKernel};
use autoloop_core::memory::writes::MemoryWriteDecision;

fn job(metadata: TextMap) -> IngestionJob {
    IngestionJob {
        job_id: "job:softdelete".into(),
        session_id: "sess".into(),
        tenant_id: "t".into(),
        source: "unit-test".into(),
        document_id: "doc:softdelete".into(),
        metadata,
        document_date: None,
        event_date: None,
        queued_at_ms: 1,
        status: ProcessingStatus::Queued,
    }
}

fn decision(id: &str, action: MemoryWriteAction, target: Option<&str>, result: Option<&str>, reason: &str) -> MemoryWriteDecision {
    MemoryWriteDecision {
        decision_id: id.into(),
        session_id: "sess".into(),
        job_id: "job:softdelete".into(),
        candidate_text: "c".into(),
        action,
        target_memory_id: target.map(|t| t.to_string()),
        resulting_memory_id: result.map(|t| t.to_string()),
        reason: reason.into(),
        old_memory: target.map(|_| "old".to_string()),
        new_memory: result.map(|_| "new".to_string()),
        created_at_ms: 1,
    }
}

fn relation(id: &str, from: &str, to: &str, valid: bool) -> MemoryRelation {
    MemoryRelation {
        relation_id: id.into(),
        session_id: "sess".into(),
        job_id: "job:legacy".into(),
        from_memory_id: from.into(),
        to_memory_id: to.into(),
        relation_type: MemoryRelationType::IsLatest,
        weight_percent: 100,
        is_latest: true,
        valid,
        rationale: "latest relation before soft delete".into(),
        invalidated_at_ms: None,
        invalidation_reason: None,
        created_at_ms: 1,
    }
}

#[test]
fn relation_soft_delete_marks_valid_false_instead_of_physical_delete() {
    let kernel = SupermemoryKernel::new();
    let decisions = vec![decision(
        "decision:softdelete:1",
        MemoryWriteAction::Delete,
        Some("m-old"),
        None,
        "contradictory statement detected",
    )];
    let stored = vec![
        StoredRelation {
            key: "memory:supermemory:relations:sess:rel:legacy:isLatest:m-old->m-new:latest".into(),
            relation: relation("rel:legacy:isLatest:m-old->m-new", "m-old", "m-new", true),
        },
        StoredRelation {
            key: "memory:supermemory:relations:sess:rel:legacy:isLatest:m-old->m-new:append:1".into(),
            relation: relation("rel:legacy:isLatest:m-old->m-new", "m-old", "m-new", true),
        },
        StoredRelation {
            key: "memory:supermemory:relations:sess:rel:other:latest".into(),
            relation: relation("rel:other", "m-a", "m-b", true),
        },
    ];
    let out = kernel.relation_soft_deletes_at(&job(TextMap::new()), &decisions, stored, 77);
    assert_eq!(out.len(), 1);
    let r = &out[0].relation;
    assert!(!r.valid);
    assert!(!r.is_latest);
    assert_eq!(r.invalidated_at_ms, Some(77));
    assert_eq!(
        r.invalidation_reason.as_deref(),
        Some("soft-delete:DELETE:decision:softdelete:1:contradictory statement detected")
    );
    assert_eq!(out[0].append_suffix, "job:softdelete:softdelete:decision:softdelete:1:rel:legacy:isLatest:m-old->m-new");
    assert!(out[0].key.ends_with(":latest"));
}

#[test]
fn soft_deletes_skip_invalid_relations_and_other_actions() {
    let kernel = SupermemoryKernel::new();
    let decisions = vec![
        decision("d1", MemoryWriteAction::NoChange, Some("m1"), Some("m1"), "same"),
        decision("d2", MemoryWriteAction::Update, Some("m2"), Some("m2"), "upgraded"),
        decision("d3", MemoryWriteAction::Delete, Some("m2"), None, "gone"),
    ];
    let stored = vec![
        StoredRelation { key: "k1:latest".into(), relation: relation("r1", "m1", "m9", true) },
        StoredRelation { key: "k2:latest".into(), relation: relation("r2", "m8", "m2", true) },
        StoredRelation { key: "k3:latest".into(), relation: relation("r3", "m2", "m8", false) },
    ];
    let out = kernel.relation_soft_deletes_at(&job(TextMap::new()), &decisions, stored, 5);
    assert_eq!(out.len(), 1);
    assert_eq!(out[0].key, "k2:latest");
    assert_eq!(out[0].relation.invalidation_reason.as_deref(), Some("soft-delete:DELETE:d3:gone"));
}

#[test]
fn memory_history_subledger_persists_old_new_event_actor_role() {
    let kernel = SupermemoryKernel::new();
    let mut metadata = TextMap::new();
    metadata.insert("actor_filter".to_string(), "planner-agent".to_string());
    metadata.insert("role".to_string(), "planner".to_string());
    let job = job(metadata);
    let scope = kernel.build_scope_contract("sess", &job.metadata, &TextMap::new()).unwrap();
    let decisions = vec![
        decision("d0", MemoryWriteAction::Add, None, Some("m-new"), "new statement"),
        decision("d1", MemoryWriteAction::Delete, Some("m-old"), None, "gone"),
        decision("d2", MemoryWriteAction::NoChange, None, None, "empty candidate statement"),
    ];
    let entries = kernel.memory_history_at(&job, &decisions, &scope, 42);
    assert_eq!(entries.len(), 3);
    let events = entries.iter().map(|e| e.record.event.as_str()).collect::<Vec<_>>();
    assert_eq!(events, vec!["ADD", "DELETE", "NONE"]);
    assert_eq!(entries[0].record.memory_id, "m-new");
    assert_eq!(entries[0].record.new_memory.as_deref(), Some("new"));
    assert_eq!(entries[1].record.old_memory.as_deref(), Some("old"));
    assert!(entries[1].record.is_deleted);
    assert_eq!(entries[2].record.memory_id, "memory:unknown:2");
    assert_eq!(entries[0].record.actor_id.as_deref(), Some("planner-agent"));
    assert_eq!(entries[0].record.role.as_deref(), Some("planner"));
    assert_eq!(entries[1].record.history_id, "history:job:softdelete:1:42");
    assert_eq!(entries[1].history_key, "memory:supermemory:history:sess:job:softdelete:history:job:softdelete:1:42");
    assert_eq!(entries[1].latest_key, "memory:supermemory:history:sess:m-old:latest");
    assert_eq!(entries[1].evidence_key, "evidence:memory:sess:history:job:softdelete:1:42");
    assert_eq!(entries[1].record.trace_id, "trace:sess:job:softdelete");
}
