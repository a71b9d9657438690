use autoloop_core::memory::json::JsonValue;
use autoloop_core::observability::event_stream::{ReplayAnalysisReport, ReplayDeviation};
use autoloop_core::observability::mismatch::{build_mismatch_explain, infer_causing_plugins, replay_mismatch_explains};
use autoloop_core::observability::whitebox::StoreRecord;

fn deviation(field: &str) -> ReplayDeviation {
    ReplayDeviation {
        field: field.into(),
        expected: "a".into(),
        actual: "b".into(),
        severity: "high".into(),
        explanation: format!("{field} differs"),
    }
}

fn analysis(session: &str, trace: &str, matched: bool, boundary: bool, notes: Vec<&str>, fields: Vec<&str>, at: u64) -> ReplayAnalysisReport {
    ReplayAnalysisReport {
        snapshot_id: format!("snap:{at}"),
        session_id: session.into(),
        trace_id: trace.into(),
        replay_output_digest: "d".into(),
        matched,
        deterministic_boundary_respected: boundary,
        deviations: fields.into_iter().map(deviation).collect(),
        notes: notes.into_iter().map(|n| n.to_string()).collect(),
        created_at_ms: at,
    }
}

fn plugin_trace(trace: &str, plugins: &[&str]) -> StoreRecord {
    let items = plugins
        .iter()
        .map(|p| JsonValue::Object(vec![("plugin_id".to_string(), JsonValue::Text(p.to_string()))]))
        .collect();
    StoreRecord {
        key: format!("replay:plugin-trace:s:{trace}"),
        source: "replay".into(),
        value: JsonValue::Object(vec![
            ("trace_id".to_string(), JsonValue::Text(trace.to_string())),
            ("plugin_execution_traces".to_string(), JsonValue::Array(items)),
        ]),
    }
}

#[test]
fn mismatch_explain_names_category_summary_and_plugin_cause() {
    let report = analysis(
        "s",
        "t",
        false,
        false,
        vec!["mismatch_category=fingerprint_mismatch", "replay mismatch under boundary=best_effort"],
        vec!["output_digest"],
        5,
    );
    let traces = vec![plugin_trace("t", &["ctx-optimizer"])];
    let explain = build_mismatch_explain(&report, &traces);
    assert_eq!(explain.category, "fingerprint_mismatch");
    assert_eq!(explain.causing_plugins, vec!["plugin:proof".to_string()]);
    assert_eq!(explain.summary, "mismatch_category=fingerprint_mismatch | plugin_cause=plugin:proof");
    assert_eq!(explain.deviations, vec!["output_digest expected=a actual=b severity=high".to_string()]);
    assert!(!explain.deterministic_boundary_respected);
}

#[test]
fn causing_plugins_come_from_notes_then_fields_then_traces() {
    let noted = analysis("s", "t", false, true, vec!["plugin_cause= b , a,,a "], vec!["token_budget"], 1);
    assert_eq!(infer_causing_plugins(&noted, &Vec::new()), vec!["b".to_string(), "a".to_string(), "a".to_string()]);
    let explain = build_mismatch_explain(&noted, &Vec::new());
    assert_eq!(explain.causing_plugins, vec!["a".to_string(), "b".to_string()]);
    assert_eq!(explain.category, "unknown");
    assert_eq!(explain.summary, "token_budget differs | plugin_cause=a,b");

    let fields = analysis("s", "t", false, true, vec![], vec!["Compaction window", "TOKEN use", "other"], 1);
    assert_eq!(
        infer_causing_plugins(&fields, &Vec::new()),
        vec!["plugin:optimizer".to_string(), "plugin:context-constraint".to_string()]
    );

    let traced = analysis("s", "t", false, true, vec![], vec!["other"], 1);
    let traces = vec![plugin_trace("t", &["p1", "p2"]), plugin_trace("u", &["p3"])];
    assert_eq!(infer_causing_plugins(&traced, &traces), vec!["p1".to_string(), "p2".to_string()]);
    let bare = analysis("s", "t", false, true, vec![], vec![], 1);
    assert_eq!(build_mismatch_explain(&bare, &Vec::new()).summary, "replay mismatch detected");
}

#[test]
fn query_plane_mismatch_explains_keep_session_mismatches_by_time() {
    let analyses = vec![
        analysis("s", "t1", false, true, vec![], vec![], 30),
        analysis("s", "t2", true, true, vec![], vec![], 10),
        analysis("other", "t1", false, false, vec![], vec![], 5),
        analysis("s", "t1", true, false, vec![], vec![], 20),
    ];
    let all = replay_mismatch_explains("s", None, &analyses, &Vec::new());
    assert_eq!(all.len(), 2);
    assert_eq!(all[0].created_at_ms, 20);
    assert_eq!(all[1].created_at_ms, 30);
    let t2 = replay_mismatch_explains("s", Some("t2"), &analyses, &Vec::new());
    assert!(t2.is_empty());
}
