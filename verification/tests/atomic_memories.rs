use autoloop_core::keyed::TextMap;
use autoloop_core::memory::atomic::{derive_tags, MemoryRelationType, GENERATED_CONFIDENCE_BITS};
use autoloop_core::memory::supermemory::{IngestionJob, ProcessingStatus, SemanticChunk, SupermemoryKernel};
use autoloop_core::memory::writes::AtomicMemory;

fn mem(id: &str, statement: &str, confidence: f32, tag: &str, is_static: bool, created: u64) -> AtomicMemory {
    AtomicMemory {
        memory_id: id.into(),
        session_id: "s".into(),
        job_id: "j".into(),
        document_id: "d".into(),
        chunk_id: format!("c-{id}"),
        statement: statement.into(),
        confidence_bits: confidence.to_bits(),
        is_static,
        source_ref: "src".into(),
        tags: vec![tag.into()],
        created_at_ms: created,
    }
}

fn job(document_date: Option<&str>, event_date: Option<&str>) -> IngestionJob {
    IngestionJob {
        job_id: "job:7".into(),
        session_id: "sess".into(),
        tenant_id: "t".into(),
        source: "unit".into(),
        document_id: "doc:7".into(),
        metadata: TextMap::new(),
        document_date: document_date.map(|d| d.to_string()),
        event_date: event_date.map(|d| d.to_string()),
        queued_at_ms: 1,
        status: ProcessingStatus::Queued,
    }
}

#[test]
fn relationship_inference_covers_updates_extends_derives_and_is_latest() {
    let kernel = SupermemoryKernel::default();
    let memories = vec![
        mem("m1", "alpha beta gamma stable", 0.8, "alpha", false, 1),
        mem("m2", "alpha beta delta details", 0.8, "beta", false, 2),
        mem("m3", "epsilon zeta context", 0.7, "epsilon", false, 3),
        mem("m4", "epsilon zeta context latest", 0.9, "zeta", false, 4),
    ];

    let relations = kernel.build_relationships("s", "j", &memories);

    assert!(relations.iter().any(|relation| relation.relation_type == MemoryRelationType::Updates));
    assert!(relations.iter().any(|relation| relation.relation_type == MemoryRelationType::Extends));
    assert!(relations.iter().any(|relation| relation.relation_type == MemoryRelationType::Derives));
    assert!(relations.iter().any(|relation| relation.relation_type == MemoryRelationType::IsLatest));
    assert_eq!(
        relations.iter().filter(|relation| relation.relation_type == MemoryRelationType::IsLatest).count(),
        3
    );
}

#[test]
fn relations_come_in_a_fixed_order() {
    let kernel = SupermemoryKernel::new();
    let memories = vec![
        mem("m1", "alpha beta gamma stable", 0.8, "alpha", false, 1),
        mem("m2", "alpha beta delta details", 0.8, "beta", false, 2),
        mem("m3", "epsilon zeta context", 0.7, "epsilon", false, 3),
    ];
    let relations = kernel.build_relationships_at("s", "j", &memories, 99);
    let ids = relations.iter().map(|r| r.relation_id.as_str()).collect::<Vec<_>>();
    assert_eq!(
        ids,
        vec![
            "rel:j:extends:m1->m2",
            "rel:j:updates:m1->m2",
            "rel:j:extends:m2->m3",
            "rel:j:derives:m1->m3",
            "rel:j:isLatest:m1->m3",
            "rel:j:isLatest:m2->m3",
        ]
    );
    assert_eq!(relations[1].weight_percent, 84);
    assert_eq!(relations[0].rationale, "adjacent semantic progression");
    assert!(relations[4].is_latest && !relations[0].is_latest);
    assert!(relations.iter().all(|r| r.valid && r.created_at_ms == 99 && r.invalidated_at_ms.is_none()));
    assert!(kernel.build_relationships_at("s", "j", &Vec::new(), 1).is_empty());
    assert_eq!(kernel.build_relationships_at("s", "j", &vec![mem("only", "x", 0.5, "t", false, 1)], 1).len(), 0);
}

#[test]
fn profile_generation_truncates_static_and_dynamic_memories() {
    let kernel = SupermemoryKernel::default();
    let mut memories = Vec::new();
    for index in 0..15 {
        memories.push(mem(&format!("static-{index}"), &format!("static fact {index}"), 0.8, "profile", true, index));
    }
    for index in 0..20 {
        memories.push(mem(
            &format!("dynamic-{index}"),
            &format!("dynamic context {index}"),
            0.6,
            "dynamic",
            false,
            100 + index,
        ));
    }

    let profile = kernel.build_user_profile("session-profile", &memories);

    assert_eq!(profile.memory_count, 35);
    assert_eq!(profile.static_facts.len(), 12);
    assert_eq!(profile.dynamic_context.len(), 16);
    assert_eq!(profile.static_facts[11], "static fact 11");
    assert_eq!(profile.dynamic_context[0], "dynamic context 0");
}

#[test]
fn tags_take_eight_long_tokens_then_metadata() {
    let mut metadata = TextMap::new();
    metadata.insert("tags".to_string(), " Governance, memory ,,POLICY".to_string());
    let tags = derive_tags("Policy memory replay keeps evidence; the run has nine long words here", &metadata);
    assert_eq!(
        tags,
        vec!["policy", "memory", "replay", "keeps", "evidence", "nine", "long", "words", "governance"]
    );
    assert!(derive_tags("a an the", &TextMap::new()).is_empty());
}

#[test]
fn generated_memories_take_statement_tags_and_ids() {
    let kernel = SupermemoryKernel::new();
    let mut metadata = TextMap::new();
    metadata.insert("tags".to_string(), "profile".to_string());
    let chunks = vec![
        SemanticChunk {
            chunk_id: "chunk:0".into(),
            job_id: "job:7".into(),
            document_id: "doc:7".into(),
            sequence: 0,
            text: "Operator prefers terse answers. More text.".into(),
            token_estimate: 10,
            start_offset: 0,
            end_offset: 42,
            metadata: TextMap::new(),
        },
        SemanticChunk {
            chunk_id: "chunk:1".into(),
            job_id: "job:7".into(),
            document_id: "doc:7".into(),
            sequence: 1,
            text: "Weather was fine".into(),
            token_estimate: 4,
            start_offset: 42,
            end_offset: 58,
            metadata,
        },
    ];
    let ms = kernel.generate_atomic_memories_at("sess", &job(None, None), &chunks, 5);
    assert_eq!(ms.len(), 2);
    assert_eq!(ms[0].memory_id, "memory:job:7:0");
    assert_eq!(ms[0].statement, "Operator prefers terse answers");
    assert!(ms[0].is_static);
    assert_eq!(ms[1].memory_id, "memory:job:7:1");
    assert!(ms[1].is_static);
    assert_eq!(ms[1].tags, vec!["weather", "fine", "profile"]);
    assert_eq!(ms[1].source_ref, "memory:supermemory:documents:sess:job:7");
    assert_eq!(ms[0].confidence_bits, GENERATED_CONFIDENCE_BITS);
    assert_eq!(f32::from_bits(GENERATED_CONFIDENCE_BITS), 0.7);
    assert_eq!(ms[1].created_at_ms, 5);
}

#[test]
fn freshness_depends_on_known_dates() {
    let kernel = SupermemoryKernel::new();
    assert_eq!(kernel.temporal_grounding_at(&job(Some("2026-01-01"), Some("2026-01-02")), 3).freshness_percent, 92);
    assert_eq!(kernel.temporal_grounding_at(&job(None, Some("2026-01-02")), 3).freshness_percent, 78);
    let g = kernel.temporal_grounding_at(&job(None, None), 3);
    assert_eq!(g.freshness_percent, 55);
    assert_eq!(g.ingested_at_ms, 3);
    assert_eq!(g.document_id, "doc:7");
}
