use autoloop_core::memory::json::JsonValue;
use autoloop_core::observability::evolution::{
    board_decision, collect_evolution_replay_explain, evolution_candidate, evolution_created_at, evolution_trace,
    mismatch_explainer, reject_reason, top_candidate_reason, worldline_weights_version,
};
use autoloop_core::observability::whitebox::KnowledgeEntry;

fn entry(key: &str, value: &str) -> KnowledgeEntry {
    KnowledgeEntry { key: key.into(), source: "evo".into(), value: value.into() }
}

fn entries() -> Vec<KnowledgeEntry> {
    vec![
        entry(
            "evo:shadow:s:run1:1700:summary",
            r#"{"reality":{"trace_id":"t1"},"board_decision":"approve","recommendation":{"recommended_candidate_id":"c2","reasons":["x replay_mismatch_rate=0.2","top_candidate_reason=best",3]}}"#,
        ),
        entry(
            "evo:shadow:s:run1:1700:path-execution",
            r#"{"path":"p1","status":"rejected","runtime_gate":{"error":"gate down"}}"#,
        ),
        entry("evo:shadow:s:run1:1700:latest", r#"{"ignored":true}"#),
        entry("evo:shadow:s:run0:900:summary", r#"{"candidates":[{"candidate_id":"c9"}]}"#),
        entry(
            "evo:shadow:s:run0:900:worldline-scores",
            r#"{"scores":[{"candidate_id":"c9","reasons":["weights_version=v3;a=1"]}]}"#,
        ),
        entry("evo:shadow:s:run2:55:summary", "not json"),
    ]
}

#[test]
fn runs_are_grouped_and_ordered_by_time() {
    let runs = collect_evolution_replay_explain(&entries(), None);
    assert_eq!(runs.len(), 2);
    assert_eq!(runs[0].run_key, "evo:shadow:s:run0:900");
    assert_eq!(runs[1].run_key, "evo:shadow:s:run1:1700");
    assert_eq!(evolution_created_at(&runs[0]), 900);
    assert!(runs[1].path_execution.is_some());
    assert!(runs[1].board.is_none());
}

#[test]
fn a_run_explains_its_candidate_and_rejection() {
    let runs = collect_evolution_replay_explain(&entries(), None);
    let run1 = &runs[1];
    assert_eq!(evolution_trace(run1).as_deref(), Some("t1"));
    assert!(matches!(evolution_candidate(run1), Some(JsonValue::Text(c)) if c == "c2"));
    assert!(matches!(board_decision(run1), Some(JsonValue::Text(d)) if d == "approve"));
    assert!(matches!(reject_reason(run1), Some(JsonValue::Text(r)) if r == "gate down"));
    assert_eq!(top_candidate_reason(run1), "best");
    assert_eq!(mismatch_explainer(run1).as_deref(), Some("x replay_mismatch_rate=0.2"));
    assert_eq!(worldline_weights_version(run1), None);

    let run0 = &runs[0];
    assert_eq!(evolution_trace(run0), None);
    assert!(matches!(evolution_candidate(run0), Some(JsonValue::Text(c)) if c == "c9"));
    assert_eq!(top_candidate_reason(run0), "weights_version=v3;a=1");
    assert_eq!(worldline_weights_version(run0).as_deref(), Some("v3"));
    assert_eq!(mismatch_explainer(run0), None);
    assert!(board_decision(run0).is_none());
}

#[test]
fn the_trace_filter_keeps_matching_runs() {
    let runs = collect_evolution_replay_explain(&entries(), Some("t1"));
    assert_eq!(runs.len(), 1);
    assert_eq!(runs[0].run_key, "evo:shadow:s:run1:1700");
    let by_key = collect_evolution_replay_explain(&entries(), Some("run0"));
    assert_eq!(by_key.len(), 1);
    assert!(collect_evolution_replay_explain(&Vec::new(), None).is_empty());
}
