use autoloop_core::keyed::TextMap;
use autoloop_core::memory::atomic::{MemoryRelation, MemoryRelationType};
use autoloop_core::memory::facts::MemoryWriteAction;
use autoloop_core::memory::pipeline::{plan_pipeline_writes, PipelineItem};
use autoloop_core::memory::scope::{MemoryScopeContract, MemoryScopeSpec};
use autoloop_core::memory::supermemory::SupermemoryKernel;
use autoloop_core::memory::supermemory::{IngestionJob, ProcessingStatus, SemanticChunk};
use autoloop_core::memory::writes::{AtomicMemory, MemoryWriteDecision};

fn job() -> IngestionJob {
    IngestionJob {
        job_id: "job:1".into(),
        session_id: "sess".into(),
        tenant_id: "t".into(),
        source: "unit".into(),
        document_id: "doc:1".into(),
        metadata: TextMap::new(),
        document_date: None,
        event_date: None,
        queued_at_ms: 1,
        status: ProcessingStatus::Queued,
    }
}

fn chunk(seq: usize) -> SemanticChunk {
    SemanticChunk {
        chunk_id: format!("chunk:job:1:{seq}"),
        job_id: "job:1".into(),
        document_id: "doc:1".into(),
        sequence: seq,
        text: "text".into(),
        token_estimate: 1,
        start_offset: 0,
        end_offset: 4,
        metadata: TextMap::new(),
    }
}

fn memory(id: &str) -> AtomicMemory {
    AtomicMemory {
        memory_id: id.into(),
        session_id: "sess".into(),
        job_id: "job:1".into(),
        document_id: "doc:1".into(),
        chunk_id: "chunk:job:1:0".into(),
        statement: "s".into(),
        confidence_bits: 0.5f32.to_bits(),
        is_static: false,
        source_ref: "src".into(),
        tags: vec![],
        created_at_ms: 1,
    }
}

#[test]
fn pipeline_writes_in_order() {
    let relation = MemoryRelation {
        relation_id: "rel:1".into(),
        session_id: "sess".into(),
        job_id: "job:1".into(),
        from_memory_id: "m1".into(),
        to_memory_id: "m2".into(),
        relation_type: MemoryRelationType::Updates,
        weight_percent: 80,
        is_latest: true,
        valid: true,
        rationale: "r".into(),
        invalidated_at_ms: None,
        invalidation_reason: None,
        created_at_ms: 1,
    };
    let decision = MemoryWriteDecision {
        decision_id: "d1".into(),
        session_id: "sess".into(),
        job_id: "job:1".into(),
        candidate_text: "c".into(),
        action: MemoryWriteAction::Add,
        target_memory_id: None,
        resulting_memory_id: Some("m1".into()),
        reason: "new".into(),
        old_memory: None,
        new_memory: Some("new".into()),
        created_at_ms: 1,
    };
    let writes = plan_pipeline_writes(
        &job(),
        &vec![chunk(0), chunk(1)],
        &vec!["chunk:job:1:0".to_string()],
        &vec![memory("m1")],
        &vec![relation],
        &vec![decision],
    );
    let keys: Vec<&str> = writes.iter().map(|w| w.key.as_str()).collect();
    assert_eq!(
        keys,
        vec![
            "memory:supermemory:queue:sess:job:1",
            "memory:supermemory:queue:sess:latest",
            "memory:supermemory:documents:sess:job:1",
            "memory:supermemory:documents:sess:latest",
            "memory:supermemory:chunks:sess:job:1:0",
            "memory:supermemory:chunks:sess:latest",
            "memory:supermemory:chunks:sess:job:1:1",
            "memory:supermemory:chunks:sess:latest",
            "memory:supermemory:embeddings:sess:chunk:job:1:0",
            "memory:supermemory:atomic:sess:job:1:m1",
            "memory:supermemory:atomic:sess:latest",
            "memory:supermemory:scope-index:sess:m1",
            "memory:supermemory:relations:sess:job:1:rel:1",
            "memory:supermemory:relations:sess:latest",
            "memory:supermemory:temporal:sess:job:1",
            "memory:supermemory:profile:sess:job:1",
            "memory:supermemory:profile:sess:latest",
            "memory:supermemory:context:sess:job:1",
            "memory:supermemory:context:sess:latest",
            "memory:supermemory:decisions:sess:job:1:d1",
            "memory:supermemory:decision-state:sess:m1",
        ]
    );
    assert_eq!(writes[6].item, PipelineItem::Chunk(1));
    assert_eq!(writes[20].item, PipelineItem::Decision(0));
}

#[test]
fn persistence_plan_adds_one_history_entry_per_decision() {
    let decision = |id: &str, target: Option<&str>| MemoryWriteDecision {
        decision_id: id.into(),
        session_id: "sess".into(),
        job_id: "job:1".into(),
        candidate_text: "c".into(),
        action: MemoryWriteAction::Delete,
        target_memory_id: target.map(|t| t.to_string()),
        resulting_memory_id: None,
        reason: "r".into(),
        old_memory: None,
        new_memory: None,
        created_at_ms: 1,
    };
    let scope = MemoryScopeContract {
        scope: MemoryScopeSpec { user_id: None, agent_id: None, run_id: None, actor_id: Some("op".into()) },
        metadata_template: TextMap::new(),
        query_filters: TextMap::new(),
        metadata_filter_dsl: None,
    };
    let plan = SupermemoryKernel::default().persist_pipeline_plan(
        &job(),
        &vec![chunk(0)],
        &vec![],
        &vec![],
        &vec![],
        &vec![decision("d1", Some("m9")), decision("d2", None)],
        &scope,
        77,
    );
    assert_eq!(plan.writes.len(), 14);
    assert_eq!(plan.history.len(), 2);
    assert_eq!(plan.history[0].history_key, "memory:supermemory:history:sess:job:1:history:job:1:0:77");
    assert_eq!(plan.history[0].latest_key, "memory:supermemory:history:sess:m9:latest");
    assert_eq!(plan.history[1].latest_key, "memory:supermemory:history:sess:memory:unknown:1:latest");
    assert!(plan.history[1].record.is_deleted);
    assert_eq!(plan.history[0].record.actor_id.as_deref(), Some("op"));
}
