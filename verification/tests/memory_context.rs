use autoloop_core::config::{LearningConfig, MemoryConfig};
use autoloop_core::memory::context::{
    compress_message, normalize, MemoryContextRequest, MemorySubsystem, MemoryTarget,
};
use autoloop_core::providers::ChatMessage;

fn all_sources() -> MemorySubsystem {
    MemorySubsystem::from_config(
        &MemoryConfig { load_identity: true, load_memory_md: true, load_history_md: true },
        &LearningConfig { enabled: false, sidecar_enabled: false, embedding_dimensions: 32, top_k: 4 },
    )
}

#[test]
fn memory_prefers_high_relevance_and_skips_redundancy() {
    let memory = all_sources();
    let history = vec![
        ChatMessage {
            role: "user".into(),
            content: "We store anchors in StateStore for GraphRAG.".into(),
        },
        ChatMessage {
            role: "assistant".into(),
            content: "We store anchors in StateStore for GraphRAG.".into(),
        },
    ];

    let selected = memory.select_relevant_memories(&MemoryContextRequest {
        user_input: "How should anchor memory be stored in StateStore?",
        session_history: &history,
        max_items: 4,
    });

    assert!(selected.iter().any(|snippet| snippet.content.contains("StateStore")));
    assert_eq!(
        selected
            .iter()
            .filter(|snippet| snippet.content == "We store anchors in StateStore for GraphRAG.")
            .count(),
        1
    );
}

#[test]
fn selection_orders_by_score_then_priority() {
    let memory = all_sources();
    let history = vec![ChatMessage {
        role: "assistant".into(),
        content: "We store anchors in StateStore for GraphRAG.".into(),
    }];
    let selected = memory.select_relevant_memories(&MemoryContextRequest {
        user_input: "How should anchor memory be stored in StateStore?",
        session_history: &history,
        max_items: 10,
    });
    let labels: Vec<(String, usize)> =
        selected.iter().map(|s| (s.label.clone(), s.priority)).collect();
    assert_eq!(
        labels,
        vec![
            ("MEMORY".to_string(), 9),
            ("MEMORY".to_string(), 8),
            ("IDENTITY".to_string(), 10),
            ("HISTORY/ASSISTANT".to_string(), 5),
        ]
    );
    assert_eq!(selected[3].source, MemoryTarget::History);
}

#[test]
fn selection_respects_max_items() {
    let memory = all_sources();
    let selected = memory.select_relevant_memories(&MemoryContextRequest {
        user_input: "anything",
        session_history: &[],
        max_items: 2,
    });
    assert_eq!(selected.len(), 2);
}

#[test]
fn memory_context_lists_snippets_by_priority() {
    let memory = all_sources();
    let context = memory.build_memory_context();
    let lines: Vec<&str> = context.lines().collect();
    assert_eq!(lines.len(), 3);
    assert!(lines[0].starts_with("- [IDENTITY] Protect operator intent"));
    assert!(lines[1].starts_with("- [MEMORY] AutoLoop uses Rust-first"));
    assert!(lines[2].starts_with("- [MEMORY] Preserve durable facts"));
}

#[test]
fn memory_context_without_sources_says_nothing_selected() {
    let memory = MemorySubsystem::from_config(
        &MemoryConfig { load_identity: false, load_memory_md: false, load_history_md: true },
        &LearningConfig { enabled: false, sidecar_enabled: false, embedding_dimensions: 32, top_k: 0 },
    );
    assert_eq!(memory.build_memory_context(), "- No memory signals selected.");
    assert!(memory.validate().is_ok());
    let none = MemorySubsystem::from_config(
        &MemoryConfig { load_identity: false, load_memory_md: false, load_history_md: false },
        &LearningConfig { enabled: false, sidecar_enabled: false, embedding_dimensions: 32, top_k: 0 },
    );
    assert_eq!(
        none.validate().unwrap_err(),
        "at least one memory target should be enabled"
    );
    assert!(none.load_targets().is_empty());
    assert_eq!(memory.load_targets(), &[MemoryTarget::History]);
}

#[test]
fn compress_message_cuts_long_turns() {
    assert_eq!(compress_message("  short  "), "short");
    let long = "x".repeat(150);
    let compressed = compress_message(&long);
    assert_eq!(compressed.chars().count(), 143);
    assert!(compressed.ends_with("..."));
}

#[test]
fn normalize_collapses_whitespace_and_case() {
    assert_eq!(normalize("  We  Store\tAnchors \n"), "we store anchors");
}
