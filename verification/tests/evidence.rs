use autoloop_core::memory::evidence::{cluster_failures, select_evidence, WitnessEntry};
use autoloop_core::memory::learning::ReflexionEpisodeEntry;

fn witness(id: &str, detail: &str, metadata: &str, score: f32) -> WitnessEntry {
    WitnessEntry {
        id: id.into(),
        session_id: "s".into(),
        source: "test".into(),
        detail: detail.into(),
        score_bits: score.to_bits(),
        metadata_json: metadata.into(),
        created_at_ms: 1,
    }
}

fn episode(id: &str, objective: &str, outcome: &str, lesson: &str, status: &str) -> ReflexionEpisodeEntry {
    ReflexionEpisodeEntry {
        id: id.into(),
        session_id: "s".into(),
        objective: objective.into(),
        hypothesis: "h".into(),
        outcome: outcome.into(),
        lesson: lesson.into(),
        status: status.into(),
        score_bits: 0,
        created_at_ms: 1,
    }
}

#[test]
fn evidence_selection_counts_related_witness_and_flags_bias() {
    let ws = vec![
        witness("w1", "Graph RAG recall improved", "{}", 0.5),
        witness("w2", "graph rag always fails", "{}", -1.0),
        witness("w3", "unrelated", "{\"anchor\":\"graph rag\"}", -0.0),
        witness("w4", "nothing here", "{}", 1.0),
        witness("w5", "graph rag", "{}", f32::NAN),
    ];
    let es = vec![
        episode("e1", "Improve Graph RAG", "ready", "lesson", "success"),
        episode("e2", "other", "failed", "lesson", "failure"),
    ];
    let ev = select_evidence(&ws, &es, "Graph RAG");
    assert_eq!(ev.witness_ids, vec!["w1".to_string(), "w2".to_string(), "w3".to_string(), "w5".to_string()]);
    assert_eq!(ev.episode_ids, vec!["e1".to_string()]);
    assert_eq!(ev.positive, 2);
    assert_eq!(ev.negative, 1);
    assert_eq!(ev.bias_flags, vec!["graph rag always fails".to_string()]);
}

#[test]
fn evidence_anchor_may_span_detail_and_metadata() {
    let ws = vec![witness("w1", "graph", "rag", 0.0)];
    let ev = select_evidence(&ws, &Vec::new(), "graph rag");
    assert_eq!(ev.witness_ids, vec!["w1".to_string()]);
}

#[test]
fn failures_cluster_by_pattern_in_first_appearance_order() {
    let es = vec![
        episode("e1", "o", "needs APPROVAL first", "l1", "failure"),
        episode("e2", "o", "ready", "l2", "success"),
        episode("e3", "o", "crashed", "l3", "failure"),
        episode("e4", "o", "approval missing", "l4", "failure"),
        episode("e5", "o", "approval again", "l5", "failure"),
        episode("e6", "o", "approval x", "l6", "failure"),
        episode("e7", "o", "coverage gap", "l7", "failure"),
    ];
    let ws = vec![witness("w1", "bad tool", "{}", -2.0), witness("w2", "fine", "{}", 1.0)];
    let clusters = cluster_failures(&es, &ws, "s");
    assert_eq!(clusters.len(), 4);
    assert_eq!(clusters[0].pattern, "approval-gated-failure");
    assert_eq!(clusters[0].cluster_id, "s:approval-gated-failure");
    assert_eq!(clusters[0].frequency, 4);
    assert_eq!(clusters[0].representative_examples, vec!["l1".to_string(), "l4".to_string(), "l5".to_string()]);
    assert_eq!(clusters[1].pattern, "execution-regression");
    assert_eq!(clusters[2].pattern, "acceptance-coverage-gap");
    assert_eq!(clusters[3].pattern, "negative-witness");
    assert_eq!(clusters[3].representative_examples, vec!["bad tool".to_string()]);
}
