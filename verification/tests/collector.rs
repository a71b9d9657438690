use autoloop_core::memory::json::JsonValue;
use autoloop_core::observability::collector::{
    collect_unified_trace, digest_of_parts, infer_pool_from_role, merge_status, normalize_decision,
    parse_peer_from_output, payload_string, status_from_event, status_rank,
};
use autoloop_core::observability::event_stream::EventEnvelope;

fn event(id: &str, kind: &str, trace: &str, task: Option<&str>, payload: JsonValue, at: u64) -> EventEnvelope {
    EventEnvelope {
        event_id: id.into(),
        kind: kind.into(),
        trace_id: trace.into(),
        session_id: "s".into(),
        task_id: task.map(|t| t.to_string()),
        capability_id: Some("tool:a".into()),
        version: "v1".into(),
        payload,
        created_at_ms: at,
    }
}

fn decision(d: &str) -> JsonValue {
    JsonValue::Object(vec![("decision".into(), JsonValue::Text(d.into()))])
}

#[test]
fn status_rank_orders_known_statuses() {
    assert_eq!(status_rank("blocked"), 5);
    assert_eq!(status_rank("failed"), 4);
    assert_eq!(status_rank("succeeded"), 3);
    assert_eq!(status_rank("running"), 2);
    assert_eq!(status_rank("ready"), 1);
    assert_eq!(status_rank("weird"), 0);
}

#[test]
fn merge_status_keeps_the_further_status() {
    assert_eq!(merge_status("running", "blocked"), "blocked");
    assert_eq!(merge_status("blocked", "succeeded"), "blocked");
    assert_eq!(merge_status("ready", "weird"), "ready");
    assert_eq!(merge_status("weird", "other"), "pending");
}

#[test]
fn normalize_decision_and_pools() {
    assert_eq!(normalize_decision("Blocked"), "deny");
    assert_eq!(normalize_decision("REJECTED by policy"), "deny");
    assert_eq!(normalize_decision("Allow"), "allow");
    assert_eq!(infer_pool_from_role("Execution"), "stable");
    assert_eq!(infer_pool_from_role("SecurityReview"), "stable");
    assert_eq!(infer_pool_from_role("planner"), "adaptive");
}

#[test]
fn digest_of_parts_is_fnv1a_hex() {
    assert_eq!(digest_of_parts(&vec![]), "bd83ce465f4232f2");
    assert_eq!(digest_of_parts(&vec!["a".to_string(), "b".to_string()]), "19059f82dcfafc7e");
    assert_eq!(digest_of_parts(&vec!["task_runs|t|c|v1|".to_string()]), "4093e6d292fafdf5");
}

#[test]
fn parse_peer_reads_the_delegation_line() {
    assert_eq!(
        parse_peer_from_output("done\n[delegation] peer=peer-alpha"),
        Some("peer-alpha".to_string())
    );
    assert_eq!(parse_peer_from_output("  [delegation] peer=  beta  \n"), Some("beta".to_string()));
    assert_eq!(parse_peer_from_output("[delegation] peer=   \n[delegation] peer=x"), None);
    assert_eq!(parse_peer_from_output("no marker"), None);
}

#[test]
fn payload_strings_and_event_statuses() {
    let payload = JsonValue::Object(vec![
        ("reason".into(), JsonValue::Text("ok".into())),
        ("count".into(), JsonValue::Number("-12".into())),
        ("ratio".into(), JsonValue::Number("0.5".into())),
    ]);
    assert_eq!(payload_string(&payload, "reason"), Some("ok".to_string()));
    assert_eq!(payload_string(&payload, "count"), Some("-12".to_string()));
    assert_eq!(payload_string(&payload, "ratio"), None);
    assert_eq!(payload_string(&payload, "missing"), None);

    assert_eq!(status_from_event(&event("e", "runtime_blocks", "t", None, JsonValue::Null, 1)), "blocked");
    assert_eq!(status_from_event(&event("e", "task_runs", "t", None, decision("RequiresApproval"), 1)), "blocked");
    assert_eq!(status_from_event(&event("e", "task_runs", "t", None, decision("Allow"), 1)), "succeeded");
    assert_eq!(status_from_event(&event("e", "task_runs", "t", None, JsonValue::Null, 1)), "succeeded");
    assert_eq!(status_from_event(&event("e", "runtime_mode_dispatch", "t", None, JsonValue::Null, 1)), "pending");
    assert_eq!(status_from_event(&event("e", "trust_admission", "t", None, JsonValue::Null, 1)), "ready");
    assert_eq!(status_from_event(&event("e", "other", "t", None, JsonValue::Null, 1)), "running");
}

#[test]
fn unified_trace_is_in_time_order() {
    let events = vec![
        event("e2", "task_runs", "trace:1", Some("task-a"), decision("Allow"), 20),
        event("e1", "runtime_mode_dispatch", "trace:1", None, JsonValue::Null, 10),
        event("e3", "runtime_blocks", "trace:2", Some("task-a"), JsonValue::Null, 20),
    ];
    let trace = collect_unified_trace("session", &events);
    let ids: Vec<&str> = trace.iter().map(|r| r.event_id.as_str()).collect();
    assert_eq!(ids, vec!["e1", "e2", "e3"]);
    assert_eq!(trace[0].task_id, "task:unknown");
    assert_eq!(trace[0].branch_id, "branch:session:task:unknown");
    assert_eq!(trace[0].status, "pending");
    assert_eq!(trace[1].branch_id, "branch:session:task-a");
    assert_eq!(trace[2].status, "blocked");
}
