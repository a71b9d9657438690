use autoloop_core::keyed::TextMap;
use autoloop_core::memory::facts::{
    contains_negation_markers, is_contradictory_statement, lexical_overlap, memory_write_action_label,
    merge_tags, normalize_fact_statement, overlap_count, should_update_memory, summarize_chunk_statement,
    tokenize, MemoryWriteAction,
};
use autoloop_core::memory::json::JsonValue;
use autoloop_core::memory::scope::ScopeContractError;
use autoloop_core::memory::supermemory::{IngestionJob, ProcessingStatus, SupermemoryKernel};
use autoloop_core::memory::writes::AtomicMemory;

fn text_map(pairs: &[(&str, &str)]) -> TextMap {
    let mut m = TextMap::new();
    for (k, v) in pairs {
        m.insert(k.to_string(), v.to_string());
    }
    m
}

fn memory(
    id: &str,
    job: &str,
    chunk: &str,
    statement: &str,
    confidence: f32,
    source: &str,
    tags: &[&str],
    created: u64,
) -> AtomicMemory {
    AtomicMemory {
        memory_id: id.to_string(),
        session_id: "session-decision".to_string(),
        job_id: job.to_string(),
        document_id: if job == "job:old" { "doc:old".to_string() } else { "doc:decision".to_string() },
        chunk_id: chunk.to_string(),
        statement: statement.to_string(),
        confidence_bits: confidence.to_bits(),
        is_static: false,
        source_ref: source.to_string(),
        tags: tags.iter().map(|t| t.to_string()).collect(),
        created_at_ms: created,
    }
}

fn decision_job(metadata: TextMap) -> IngestionJob {
    IngestionJob {
        job_id: "job:decision".to_string(),
        session_id: "session-decision".to_string(),
        tenant_id: "tenant-decision".to_string(),
        source: "unit-test".to_string(),
        document_id: "doc:decision".to_string(),
        metadata,
        document_date: None,
        event_date: None,
        queued_at_ms: 1,
        status: ProcessingStatus::Queued,
    }
}

fn existing_memories() -> Vec<AtomicMemory> {
    let old_source = "memory:supermemory:documents:session-decision:job:old";
    vec![
        memory("memory-existing-profile", "job:old", "chunk:old:0", "User likes chess", 0.8, old_source, &["chess"], 1),
        memory(
            "memory-existing-pizza",
            "job:old",
            "chunk:old:1",
            "User likes cheese pizza",
            0.8,
            old_source,
            &["pizza"],
            2,
        ),
    ]
}

fn candidate_memories() -> Vec<AtomicMemory> {
    let source = "memory:supermemory:documents:session-decision:job:decision";
    vec![
        memory("memory:new:0", "job:decision", "chunk:new:0", "User likes chess", 0.7, source, &["chess"], 10),
        memory(
            "memory:new:1",
            "job:decision",
            "chunk:new:1",
            "User likes chess and strategy tournaments",
            0.9,
            source,
            &["chess", "strategy"],
            11,
        ),
        memory(
            "memory:new:2",
            "job:decision",
            "chunk:new:2",
            "User dislikes cheese pizza",
            0.85,
            source,
            &["pizza"],
            12,
        ),
        memory("memory:new:3", "job:decision", "chunk:new:3", "User builds Rust systems", 0.88, source, &["rust"], 13),
    ]
}

#[test]
fn memory_write_decider_emits_add_update_delete_none() {
    let kernel = SupermemoryKernel::default();
    let metadata = text_map(&[("run_id", "run-decision")]);
    let scope = kernel
        .build_scope_contract("session-decision", &metadata, &TextMap::new())
        .expect("scope contract");
    let job = decision_job(metadata);

    let existing = existing_memories();
    let candidates = candidate_memories();

    let (to_persist, active_memories, decisions) =
        kernel.reconcile_memory_writes(&job, &scope, &existing, &candidates);

    let actions = decisions.iter().map(|decision| decision.action).collect::<Vec<_>>();
    assert!(actions.contains(&MemoryWriteAction::NoChange));
    assert!(actions.contains(&MemoryWriteAction::Update));
    assert!(actions.contains(&MemoryWriteAction::Delete));
    assert!(actions.contains(&MemoryWriteAction::Add));

    assert!(to_persist.iter().any(|memory| memory.memory_id == "memory-existing-profile"));
    assert!(to_persist.iter().any(|memory| memory.memory_id == "memory:new:3"));
    assert!(!active_memories.iter().any(|memory| memory.memory_id == "memory-existing-pizza"));
    assert!(active_memories.iter().any(|memory| memory.statement.contains("strategy tournaments")));
}

#[test]
fn write_decisions_follow_candidates_in_order() {
    let kernel = SupermemoryKernel::new();
    let metadata = text_map(&[("run_id", "run-decision")]);
    let scope = kernel.build_scope_contract("session-decision", &metadata, &TextMap::new()).unwrap();
    let job = decision_job(metadata);
    let (to_persist, active, decisions) =
        kernel.reconcile_memory_writes_at(&job, &scope, &existing_memories(), &candidate_memories(), 500);

    let actions = decisions.iter().map(|d| d.action).collect::<Vec<_>>();
    assert_eq!(
        actions,
        vec![
            MemoryWriteAction::NoChange,
            MemoryWriteAction::Update,
            MemoryWriteAction::Delete,
            MemoryWriteAction::Add
        ]
    );
    assert_eq!(decisions[0].reason, "same statement already stored");
    assert_eq!(decisions[0].target_memory_id.as_deref(), Some("memory-existing-profile"));
    assert_eq!(decisions[1].reason, "overlapping statement upgraded");
    assert_eq!(decisions[1].old_memory.as_deref(), Some("User likes chess"));
    assert_eq!(decisions[1].new_memory.as_deref(), Some("User likes chess and strategy tournaments"));
    assert_eq!(decisions[2].reason, "contradictory statement detected");
    assert_eq!(decisions[2].target_memory_id.as_deref(), Some("memory-existing-pizza"));
    assert_eq!(decisions[2].resulting_memory_id, None);
    assert_eq!(decisions[3].reason, "new statement");
    assert_eq!(decisions[3].resulting_memory_id.as_deref(), Some("memory:new:3"));
    assert_eq!(decisions[2].decision_id, "decision:job:decision:2:500");
    assert!(decisions.iter().all(|d| d.created_at_ms == 500 && d.session_id == "session-decision"));

    assert_eq!(to_persist.len(), 2);
    let upgraded = &to_persist[0];
    assert_eq!(upgraded.memory_id, "memory-existing-profile");
    assert_eq!(upgraded.job_id, "job:decision");
    assert_eq!(upgraded.document_id, "doc:decision");
    assert_eq!(upgraded.chunk_id, "chunk:new:1");
    assert_eq!(upgraded.tags, vec!["chess".to_string(), "strategy".to_string()]);
    assert_eq!(f32::from_bits(upgraded.confidence_bits), 0.9);
    assert_eq!(upgraded.created_at_ms, 500);

    // Live memories by creation time: the new memory (13) before the upgraded one (500).
    let ids = active.iter().map(|m| m.memory_id.as_str()).collect::<Vec<_>>();
    assert_eq!(ids, vec!["memory:new:3", "memory-existing-profile"]);
}

#[test]
fn empty_and_repeated_candidates_change_nothing() {
    let kernel = SupermemoryKernel::new();
    let scope = kernel.build_scope_contract("s", &TextMap::new(), &TextMap::new()).unwrap();
    let job = decision_job(TextMap::new());
    let source = "src";
    let candidates = vec![
        memory("a", "job:decision", "c0", "   ", 0.5, source, &[], 1),
        memory("b", "job:decision", "c1", "Tea  is   GOOD", 0.5, source, &[], 2),
        memory("c", "job:decision", "c2", "tea is good", 0.5, source, &[], 3),
    ];
    let (to_persist, active, decisions) = kernel.reconcile_memory_writes_at(&job, &scope, &Vec::new(), &candidates, 7);
    assert_eq!(decisions[0].reason, "empty candidate statement");
    assert_eq!(decisions[1].action, MemoryWriteAction::Add);
    assert_eq!(decisions[2].reason, "duplicate candidate statement");
    assert_eq!(to_persist.len(), 1);
    assert_eq!(active.len(), 1);
    assert_eq!(active[0].memory_id, "b");
}

#[test]
fn scope_contract_binds_run_and_actor_filter() {
    let kernel = SupermemoryKernel::default();
    let metadata = text_map(&[("actor_filter", "planner-agent"), ("tags", "memory,scope")]);

    let scope = kernel
        .build_scope_contract("session-scope", &metadata, &TextMap::new())
        .expect("scope contract");

    assert_eq!(scope.scope.run_id.as_deref(), Some("session-scope"));
    assert_eq!(scope.query_filters.get("actor_id").map(String::as_str), Some("planner-agent"));
    assert!(!scope.metadata_template.contains_key("actor_id"));
    assert!(!scope.metadata_template.contains_key("actor_filter"));
    assert_eq!(
        scope.metadata_template.get("scope_contract").map(String::as_str),
        Some("user_agent_run_actor_v1")
    );
}

#[test]
fn scope_contract_reads_filter_dsl_and_ids() {
    let kernel = SupermemoryKernel::new();
    let metadata = text_map(&[("metadata_filter_dsl", "{\"AND\": []}"), ("user_id", "u1")]);
    let filters = text_map(&[("agent_id", "a1"), ("actor_id", "actor-9")]);
    let scope = kernel.build_scope_contract("s", &metadata, &filters).unwrap();
    assert!(matches!(scope.metadata_filter_dsl, Some(JsonValue::Object(_))));
    assert!(!scope.metadata_template.contains_key("metadata_filter_dsl"));
    assert_eq!(scope.scope.user_id.as_deref(), Some("u1"));
    assert_eq!(scope.scope.agent_id.as_deref(), Some("a1"));
    assert_eq!(scope.scope.run_id.as_deref(), Some("s"));
    assert_eq!(scope.scope.actor_id.as_deref(), Some("actor-9"));
    assert_eq!(scope.metadata_template.get("agent_id").map(String::as_str), Some("a1"));
    assert_eq!(scope.query_filters.get("user_id").map(String::as_str), Some("u1"));

    let bad = text_map(&[("metadata_filter_dsl", "{not json")]);
    let err = kernel.build_scope_contract("s", &TextMap::new(), &bad).unwrap_err();
    assert_eq!(err, ScopeContractError::InvalidFilterDsl);
    assert_eq!(err.message(), "invalid metadata_filter_dsl JSON");
}

#[test]
fn tokens_are_lowercase_runs_of_two_or_more() {
    assert_eq!(tokenize("User likes C and Rust-2024, rust!"), vec!["user", "likes", "and", "rust", "2024"]);
    assert!(tokenize("a b c").is_empty());
    assert_eq!(lexical_overlap("User likes chess", "the user plays CHESS"), 2);
    assert_eq!(lexical_overlap("the user plays CHESS", "User likes chess"), 2);
    let query = vec!["chess".to_string(), "go".to_string(), "chess".to_string()];
    assert_eq!(overlap_count(&query, "Chess and go"), 3);
}

#[test]
fn negation_and_contradiction() {
    assert!(contains_negation_markers("User does NOT like tea"));
    assert!(contains_negation_markers("I dislike rain"));
    assert!(!contains_negation_markers("not at the start"));
    assert!(is_contradictory_statement("User likes tea", "User does not like tea"));
    assert!(!is_contradictory_statement("User likes tea", "User likes coffee"));
    assert!(!is_contradictory_statement("Cats sleep", "Dogs never bark"));
}

#[test]
fn update_needs_two_shared_tokens_or_close_sets() {
    assert!(should_update_memory("likes chess", "likes chess openings"));
    assert!(should_update_memory("chess", "chess"));
    assert!(should_update_memory("chess", "chess go"));
    assert!(!should_update_memory("chess", "chess go shogi"));
    assert!(!should_update_memory("", "chess"));
}

#[test]
fn tags_merge_sorted_lowercase_and_unique() {
    let a = vec!["Rust".to_string(), " ".to_string(), "memory".to_string()];
    let b = vec!["rust".to_string(), "Audit".to_string()];
    assert_eq!(merge_tags(&a, &b), vec!["audit", "memory", "rust"]);
}

#[test]
fn chunk_statement_is_the_first_sentence() {
    assert_eq!(summarize_chunk_statement("  First one. Second!"), "First one");
    assert_eq!(summarize_chunk_statement("..."), "...");
    let long = "x".repeat(230);
    assert_eq!(summarize_chunk_statement(&long), format!("{}...", "x".repeat(220)));
    assert_eq!(normalize_fact_statement("  Tea\tIS  good "), "tea is good");
    assert_eq!(memory_write_action_label(MemoryWriteAction::NoChange), "NONE");
    assert_eq!(memory_write_action_label(MemoryWriteAction::Delete), "DELETE");
}
