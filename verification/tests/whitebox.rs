use autoloop_core::memory::json::JsonValue;
use autoloop_core::observability::whitebox::{
    collect_harness_execution_whitebox, collect_records_as_values, extract_context_compiler_whitebox, extract_ts, trace_matches, KnowledgeEntry,
    StoreRecord,
};

fn obj(members: Vec<(&str, JsonValue)>) -> JsonValue {
    JsonValue::Object(members.into_iter().map(|(k, v)| (k.to_string(), v)).collect())
}

fn text(s: &str) -> JsonValue {
    JsonValue::Text(s.to_string())
}

fn num(n: u64) -> JsonValue {
    JsonValue::Number(n.to_string())
}

fn record(key: &str, value: JsonValue) -> StoreRecord {
    StoreRecord { key: key.to_string(), source: "harness".to_string(), value }
}

fn report(key: &str, trace: &str, at: u64) -> StoreRecord {
    record(key, obj(vec![("trace_id", text(trace)), ("created_at_ms", num(at))]))
}

#[test]
fn records_are_read_by_key_up_to_the_limit() {
    let entries = vec![
        KnowledgeEntry { key: "k:2".into(), source: "s".into(), value: "{\"a\": 1}".into() },
        KnowledgeEntry { key: "k:1".into(), source: "s".into(), value: "not json".into() },
        KnowledgeEntry { key: "k:3".into(), source: "s".into(), value: "[]".into() },
    ];
    let records = collect_records_as_values(entries, 2);
    assert_eq!(records.len(), 2);
    assert_eq!(records[0].key, "k:1");
    assert!(matches!(&records[0].value, JsonValue::Text(t) if t == "not json"));
    assert_eq!(records[1].key, "k:2");
    assert!(matches!(&records[1].value, JsonValue::Object(_)));
}

#[test]
fn record_time_takes_the_first_stamp_present() {
    let r = record("k", obj(vec![("updated_at_ms", num(9)), ("fired_at_ms", num(3)), ("trace_id", text("t"))]));
    assert_eq!(extract_ts(&r), Some(9));
    let r2 = record("k", obj(vec![("created_at_ms", JsonValue::Number("1.5".into())), ("queued_at_ms", num(4))]));
    assert_eq!(extract_ts(&r2), Some(4));
    assert_eq!(extract_ts(&record("k", text("x"))), None);
    assert!(trace_matches(&r, "t"));
    assert!(!trace_matches(&r, "u"));
}

#[test]
fn whitebox_rounds_follow_traces_and_time() {
    let patches = vec![
        report("harness:patch-report:s:1", "t1", 10),
        record(
            "harness:patch-report:s:2",
            obj(vec![
                ("trace_id", text("t2")),
                ("created_at_ms", num(5)),
                ("rollback_performed", JsonValue::Bool(true)),
            ]),
        ),
        report("harness:patch-report:s:latest", "t1", 99),
    ];
    let shells = vec![report("harness:shell-loop:s:1", "t1", 12), report("harness:shell-loop:s:2", "t1", 30)];
    let tests = vec![report("harness:test-verifier:s:1", "t2", 7)];
    let gits = vec![record(
        "harness:git-checkpoint:s:1",
        obj(vec![
            ("trace_id", text("t1")),
            ("created_at_ms", num(20)),
            ("steps", JsonValue::Array(vec![obj(vec![("action", text("commit"))]), obj(vec![("action", text("rollback"))])])),
        ]),
    )];
    let evidence = vec![
        record("evidence:stage:s:1", obj(vec![("stage", text("test_verifier")), ("trace_id", text("t2")), ("created_at_ms", num(8))])),
        record("evidence:stage:s:2", obj(vec![("stage", text("planning")), ("trace_id", text("t2"))])),
    ];

    let view = collect_harness_execution_whitebox(patches, shells, tests, gits, evidence, None);
    assert_eq!(view.patch_reports.len(), 2);
    assert_eq!(view.patch_reports[0].key, "harness:patch-report:s:2");
    assert_eq!(view.stage_evidence.len(), 1);
    assert_eq!(view.rounds.len(), 2);

    let first = &view.rounds[0];
    assert_eq!(first.trace_id, "t2");
    assert_eq!(first.generated_at_ms, 7);
    assert_eq!(first.patch, Some(0));
    assert!(first.patch_rollback);
    assert_eq!(first.commands, None);
    assert_eq!(first.tests, Some(0));
    assert_eq!(first.evidence, vec![0]);

    let second = &view.rounds[1];
    assert_eq!(second.trace_id, "t1");
    assert_eq!(second.generated_at_ms, 30);
    assert_eq!(second.commands, Some(1));
    assert_eq!(second.git_checkpoint, Some(0));
    assert!(second.git_rollback);
    assert!(!second.patch_rollback);
}

#[test]
fn whitebox_keeps_only_the_trace_asked_for() {
    let patches = vec![report("p:1", "t1", 1), report("p:2", "t2", 2)];
    let view = collect_harness_execution_whitebox(patches, Vec::new(), Vec::new(), Vec::new(), Vec::new(), Some("t2"));
    assert_eq!(view.patch_reports.len(), 1);
    assert_eq!(view.rounds.len(), 1);
    assert_eq!(view.rounds[0].trace_id, "t2");
    let empty = collect_harness_execution_whitebox(Vec::new(), Vec::new(), Vec::new(), Vec::new(), Vec::new(), None);
    assert!(empty.rounds.is_empty());
}

#[test]
fn context_compiler_whitebox_reads_annotation_fields() {
    let rec = StoreRecord {
        key: "replay:plugin-trace:s:1".into(),
        source: "replay".into(),
        value: JsonValue::Object(vec![
            ("trace_id".to_string(), JsonValue::Text("t1".into())),
            ("hardgate_pass_token".to_string(), JsonValue::Text("pass".into())),
            ("constraint_ids".to_string(), JsonValue::Array(vec![JsonValue::Text("c1".into())])),
            ("generated_at_ms".to_string(), JsonValue::Number("42".into())),
            (
                "annotation_proof".to_string(),
                JsonValue::Object(vec![(
                    "annotation".to_string(),
                    JsonValue::Object(vec![
                        ("risk_labels".to_string(), JsonValue::Array(vec![JsonValue::Text("pii".into())])),
                        ("decision_summary".to_string(), JsonValue::Text("kept 3 of 5".into())),
                    ]),
                )]),
            ),
        ]),
    };
    let w = extract_context_compiler_whitebox(&rec);
    assert_eq!(w.trace_id.as_deref(), Some("t1"));
    assert_eq!(w.hardgate_pass_token.as_deref(), Some("pass"));
    assert_eq!(w.constraint_version, None);
    assert!(matches!(w.constraint_ids, Some(JsonValue::Array(v)) if v.len() == 1));
    assert!(w.risk_metadata.is_none());
    assert!(matches!(w.risk_labels, Some(JsonValue::Array(_))));
    assert!(matches!(w.decision_summary, Some(JsonValue::Text(t)) if t == "kept 3 of 5"));
    assert!(w.prompt_pack.is_none());
    assert_eq!(w.generated_at_ms, Some(42));
}
