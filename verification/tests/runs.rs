use autoloop_core::memory::json::JsonValue;
use autoloop_core::observability::event_stream::EventEnvelope;
use autoloop_core::observability::runs::{collect_guard_hits_at, collect_retries};
use autoloop_core::observability::spans::collect_exec_spans;
use autoloop_core::orchestration::{ExecutionReport, SwarmTask};

fn event(id: &str, kind: &str, trace: &str, task: Option<&str>, cap: Option<&str>, payload: JsonValue, at: u64) -> EventEnvelope {
    EventEnvelope {
        event_id: id.into(),
        kind: kind.into(),
        trace_id: trace.into(),
        session_id: "s".into(),
        task_id: task.map(|t| t.to_string()),
        capability_id: cap.map(|c| c.to_string()),
        version: "v1".into(),
        payload,
        created_at_ms: at,
    }
}

fn payload(pairs: &[(&str, &str)]) -> JsonValue {
    JsonValue::Object(pairs.iter().map(|(k, v)| (k.to_string(), JsonValue::Text(v.to_string()))).collect())
}

fn report(task: &str, role: &str, route: &str, tool: Option<&str>, guard: &str) -> ExecutionReport {
    ExecutionReport {
        task: SwarmTask {
            task_id: task.into(),
            agent_name: "agent".into(),
            role: role.into(),
            objective: "o".into(),
            depends_on: Vec::new(),
        },
        output: String::new(),
        tool_used: tool.map(|t| t.to_string()),
        mcp_server: None,
        invocation_payload: None,
        outcome_score: 0,
        route_variant: route.into(),
        control_score: 0,
        treatment_score: 0,
        guard_decision: guard.into(),
    }
}

#[test]
fn spans_fold_events_per_trace_and_task() {
    let events = vec![
        event("e1", "trust_admission", "tr1", Some("a"), None, JsonValue::Null, 50),
        event("e2", "task_runs", "tr1", Some("a"), Some("tool:x"), payload(&[("decision", "allow")]), 70),
        event("e3", "runtime_mode_dispatch", "tr1", Some("a"), Some("tool:y"), JsonValue::Null, 40),
        event("e4", "policy_reject", "tr2", None, None, JsonValue::Null, 10),
    ];
    let reports = vec![
        report("a", "Execution Lead", "control", None, "allow"),
        report("a", "planner", "treatment", None, "allow"),
    ];
    let spans = collect_exec_spans("s", &events, &reports);
    assert_eq!(spans.len(), 2);
    assert_eq!(spans[0].task_id, "task:unknown");
    assert_eq!(spans[0].status, "blocked");
    assert_eq!(spans[0].span_id, "span:s:tr2:task:unknown");
    assert_eq!(spans[0].pool, None);
    let a = &spans[1];
    assert_eq!(a.start_ms, 40);
    assert_eq!(a.end_ms, 70);
    assert_eq!(a.latency_ms, 30);
    assert_eq!(a.status, "succeeded");
    assert_eq!(a.capability_id.as_deref(), Some("tool:x"));
    assert_eq!(a.pool.as_deref(), Some("adaptive"));
    assert_eq!(a.route_variant.as_deref(), Some("treatment"));
}

#[test]
fn retries_count_run_events_per_task() {
    let events = vec![
        event("e1", "task_runs", "tr1", Some("b"), None, payload(&[("reason", "first")]), 1),
        event("e2", "task_runs", "tr1", Some("a"), None, JsonValue::Null, 2),
        event("e3", "policy_reject", "tr1", Some("a"), None, JsonValue::Null, 3),
        event("e4", "runtime_blocks", "tr9", Some("b"), None, JsonValue::Null, 4),
        event("e5", "task_runs", "tr2", Some("a"), None, payload(&[("decision", "blocked by guard"), ("reason", "quota")]), 5),
        event("e6", "task_runs", "tr3", Some("c"), None, JsonValue::Null, 6),
    ];
    let retries = collect_retries("s", &events);
    assert_eq!(retries.len(), 2);
    assert_eq!(retries[0].task_id, "a");
    assert_eq!(retries[0].attempts, 2);
    assert_eq!(retries[0].retries, 1);
    assert_eq!(retries[0].trace_id, "tr2");
    assert_eq!(retries[0].final_status, "blocked");
    assert_eq!(retries[0].last_reason, "quota");
    assert_eq!(retries[1].task_id, "b");
    assert_eq!(retries[1].trace_id, "tr9");
    assert_eq!(retries[1].last_reason, "runtime_blocks");
}

#[test]
fn guard_hits_fall_back_to_reports() {
    let events = vec![
        event("e1", "task_runs", "tr1", Some("a"), Some("tool:x"), payload(&[("decision", "deny")]), 30),
        event("e2", "runtime_blocks", "tr1", Some("b"), None, JsonValue::Null, 10),
        event("e3", "trust_admission", "tr1", Some("c"), None, JsonValue::Null, 5),
    ];
    let reports = vec![
        report("a", "r", "control", None, "allow"),
        report("c", "r", "control", Some("tool:z"), "require_approval"),
        report("c", "r", "control", None, "allow"),
    ];
    let hits = collect_guard_hits_at("s", &events, &reports, 20);
    assert_eq!(hits.len(), 3);
    assert_eq!(hits[0].task_id, "b");
    assert_eq!(hits[0].decision, "blocked");
    assert_eq!(hits[0].reason, "runtime_blocks");
    assert_eq!(hits[1].task_id, "c");
    assert_eq!(hits[1].trace_id, "trace:s:c");
    assert_eq!(hits[1].capability_id.as_deref(), Some("tool:z"));
    assert_eq!(hits[1].decision, "require_approval");
    assert_eq!(hits[1].reason, "execution_report_fallback");
    assert_eq!(hits[1].created_at_ms, 20);
    assert_eq!(hits[2].task_id, "a");
    assert_eq!(hits[2].decision, "deny");
}
