use autoloop_core::memory::json::JsonValue;
use autoloop_core::numbers::lenient_u64;
use autoloop_core::observability::breakers::{collect_breaker_trips_at, CircuitPhase, CircuitState};
use autoloop_core::observability::delegation::collect_delegation_traces_at;
use autoloop_core::observability::event_stream::{digest_text, digest_value, EventEnvelope};
use autoloop_core::observability::latency::{collect_latency_samples, FabricSequence, FabricStep};
use autoloop_core::observability::replay::{
    collect_replay_diff_locators, collect_replay_fingerprints, deterministic_trace_fingerprint, infer_mismatch_fields,
};
use autoloop_core::observability::runs::collect_token_costs;
use autoloop_core::observability::snapshot::{all_located, collect_snapshot_at};
use autoloop_core::observability::whitebox::KnowledgeEntry;
use autoloop_core::orchestration::{ExecutionReport, GovernanceTelemetryScope, SwarmTask};

fn event(kind: &str, trace: &str, task: Option<&str>, cap: Option<&str>, payload: JsonValue, at: u64) -> EventEnvelope {
    EventEnvelope {
        event_id: format!("evt:{trace}:{at}"),
        kind: kind.into(),
        trace_id: trace.into(),
        session_id: "s".into(),
        task_id: task.map(|t| t.to_string()),
        capability_id: cap.map(|c| c.to_string()),
        version: "v1".into(),
        payload,
        created_at_ms: at,
    }
}

fn obj(members: Vec<(&str, JsonValue)>) -> JsonValue {
    JsonValue::Object(members.into_iter().map(|(k, v)| (k.to_string(), v)).collect())
}

fn text(s: &str) -> JsonValue {
    JsonValue::Text(s.to_string())
}

fn num(s: &str) -> JsonValue {
    JsonValue::Number(s.to_string())
}

fn report(task: &str, output: &str) -> ExecutionReport {
    ExecutionReport {
        task: SwarmTask {
            task_id: task.into(),
            agent_name: "execution-agent".into(),
            role: "Execution".into(),
            objective: "o".into(),
            depends_on: Vec::new(),
        },
        output: output.into(),
        tool_used: Some("mcp::local-mcp::invoke".into()),
        mcp_server: None,
        invocation_payload: None,
        outcome_score: 1,
        route_variant: "control".into(),
        control_score: 1,
        treatment_score: 1,
        guard_decision: "Allow".into(),
    }
}

fn costs(token: &str, tool: &str, duration: &str, total: &str) -> JsonValue {
    obj(vec![
        ("token_cost_micros", num(token)),
        ("tool_cost_micros", num(tool)),
        ("duration_cost_micros", num(duration)),
        ("total_cost_micros", num(total)),
    ])
}

#[test]
fn deterministic_trace_fingerprint_same_input_same_output() {
    let event = EventEnvelope {
        event_id: "evt:s:1".into(),
        kind: "task_runs".into(),
        trace_id: "trace:s:1".into(),
        session_id: "s".into(),
        task_id: Some("task-a".into()),
        capability_id: Some("tool:a".into()),
        version: "v1".into(),
        payload: obj(vec![("decision", text("Allow")), ("reason", text("ok"))]),
        created_at_ms: 1,
    };
    let events = vec![event];
    let first = deterministic_trace_fingerprint(&events);
    let second = deterministic_trace_fingerprint(&events);
    assert_eq!(first, second);
}

#[test]
fn p10_digest_value_is_stable_for_same_payload() {
    let payload = obj(vec![
        ("session", text("s-1")),
        ("task", text("t-1")),
        ("input", JsonValue::Array(vec![text("a"), text("b"), text("c")])),
    ]);
    let left = digest_value(&payload);
    let right = digest_value(&payload);
    assert_eq!(left, right);
}

#[test]
fn digest_value_digests_the_compact_json_text() {
    let payload = obj(vec![("b", num("2")), ("a", JsonValue::Array(vec![text("x"), JsonValue::Null]))]);
    assert_eq!(digest_value(&payload), digest_text("{\"a\":[\"x\",null],\"b\":2}"));
    assert_ne!(digest_value(&payload), digest_value(&text("x")));
}

#[test]
fn fingerprint_ignores_payload_member_order_and_sees_the_payload() {
    let a = vec![event("task_runs", "t1", Some("a"), None, obj(vec![("x", num("1")), ("y", text("q"))]), 1)];
    let b = vec![event("task_runs", "t1", Some("a"), None, obj(vec![("y", text("q")), ("x", num("1"))]), 1)];
    let c = vec![event("task_runs", "t1", Some("a"), None, obj(vec![("x", num("2")), ("y", text("q"))]), 1)];
    assert_eq!(deterministic_trace_fingerprint(&a), deterministic_trace_fingerprint(&b));
    assert_ne!(deterministic_trace_fingerprint(&a), deterministic_trace_fingerprint(&c));
    assert_eq!(deterministic_trace_fingerprint(&a).len(), 16);
}

#[test]
fn lenient_u64_reads_integers_floats_and_strings() {
    assert_eq!(lenient_u64(&num("42")), Some(42));
    assert_eq!(lenient_u64(&num("-5")), Some(0));
    assert_eq!(lenient_u64(&num("1.5e3")), Some(1500));
    assert_eq!(lenient_u64(&num("2.9")), Some(2));
    assert_eq!(lenient_u64(&num("1e30")), Some(u64::MAX));
    assert_eq!(lenient_u64(&text("77")), Some(77));
    assert_eq!(lenient_u64(&text("7x")), None);
    assert_eq!(lenient_u64(&JsonValue::Bool(true)), None);
}

#[test]
fn token_costs_come_from_run_events_with_a_cost_breakdown() {
    let events = vec![
        event("runtime_mode_dispatch", "tr", Some("task-c"), Some("cap"), obj(vec![("mode", text("normal"))]), 1),
        event(
            "task_runs",
            "tr",
            Some("task-c"),
            Some("cap"),
            obj(vec![
                ("decision", text("Allow")),
                ("estimated_prompt_tokens", num("256")),
                ("cost_breakdown", costs("2560", "500", "200", "3260")),
            ]),
            9,
        ),
        event(
            "runtime_blocks",
            "tr",
            Some("task-c"),
            Some("cap"),
            obj(vec![("decision", text("Blocked")), ("cost_breakdown", costs("0", "0", "0", "0"))]),
            5,
        ),
        event("task_runs", "tr", None, None, obj(vec![("decision", text("Allow"))]), 3),
        event(
            "task_runs",
            "tr",
            None,
            None,
            obj(vec![
                ("estimated_prompt_tokens", num("4294967297")),
                ("cost_breakdown", obj(vec![("total_cost_micros", text("12"))])),
            ]),
            7,
        ),
    ];
    let records = collect_token_costs("s", &events);
    assert_eq!(records.len(), 3);
    assert_eq!(records[0].created_at_ms, 5);
    assert_eq!(records[0].total_cost_micros, 0);
    assert_eq!(records[0].estimated_prompt_tokens, None);
    assert_eq!(records[1].created_at_ms, 7);
    assert_eq!(records[1].task_id, "task:unknown");
    assert_eq!(records[1].estimated_prompt_tokens, Some(1));
    assert_eq!(records[1].total_cost_micros, 12);
    assert_eq!(records[1].token_cost_micros, 0);
    assert_eq!(records[2].estimated_prompt_tokens, Some(256));
    assert_eq!(records[2].token_cost_micros, 2560);
    assert_eq!(records[2].tool_cost_micros, 500);
    assert_eq!(records[2].duration_cost_micros, 200);
    assert_eq!(records[2].total_cost_micros, 3260);
    assert_eq!(records[2].capability_id.as_deref(), Some("cap"));
}

#[test]
fn delegation_traces_merge_store_records_and_output_lines() {
    let entries = vec![
        KnowledgeEntry {
            key: "peer-delegation:s:task-a:latest".into(),
            source: "orchestration".into(),
            value: "{\"session_id\":\"s\",\"task_id\":\"task-a\",\"peer\":\"peer-alpha\",\"delegated\":true,\"created_at_ms\":120}".into(),
        },
        KnowledgeEntry { key: "peer-delegation:s:bad".into(), source: "orchestration".into(), value: "not json".into() },
        KnowledgeEntry {
            key: "peer-delegation:s:task-b".into(),
            source: "orchestration".into(),
            value: "{\"delegated\":false}".into(),
        },
    ];
    let reports = vec![
        report("task-a", "done\n[delegation] peer=peer-alpha"),
        report("task-a", "  [delegation] peer= peer-beta  \nmore"),
        report("task-c", "no delegation here"),
    ];
    let traces = collect_delegation_traces_at("s", &entries, &reports, 500);
    assert_eq!(traces.len(), 3);
    assert_eq!(traces[0].peer, "peer-alpha");
    assert_eq!(traces[0].created_at_ms, 120);
    assert_eq!(traces[0].source, "knowledge-record");
    assert!(traces[0].delegated);
    assert_eq!(traces[1].task_id, "task:unknown");
    assert_eq!(traces[1].peer, "peer:unknown");
    assert!(!traces[1].delegated);
    assert_eq!(traces[1].created_at_ms, 500);
    assert_eq!(traces[2].task_id, "task-a");
    assert_eq!(traces[2].peer, "peer-beta");
    assert_eq!(traces[2].source, "execution-output");
    assert_eq!(traces[2].created_at_ms, 500);
}

fn circuit(key: &str, phase: CircuitPhase, failures: u32, threshold: u32, last_failure: Option<u64>, opened: Option<u64>) -> CircuitState {
    CircuitState {
        scope_key: key.into(),
        failure_count: failures,
        success_count: 0,
        phase,
        opened_at_ms: opened,
        last_failure_ms: last_failure,
        last_success_ms: None,
        cooldown_ms: 30000,
        threshold,
        last_reason: Some("tool circuit open".into()),
    }
}

#[test]
fn breaker_trips_keep_open_or_saturated_breakers() {
    let states = vec![
        circuit("a", CircuitPhase::Open, 3, 2, Some(95), Some(90)),
        circuit("b", CircuitPhase::Closed, 1, 2, Some(10), None),
        circuit("c", CircuitPhase::Closed, 1, 0, None, None),
        circuit("d", CircuitPhase::HalfOpen, 0, 5, None, Some(40)),
    ];
    let trips = collect_breaker_trips_at("s", &states, 1000);
    assert_eq!(trips.len(), 3);
    assert_eq!(trips[0].scope_key, "d");
    assert_eq!(trips[0].phase, "halfopen");
    assert_eq!(trips[0].observed_at_ms, 40);
    assert_eq!(trips[1].scope_key, "a");
    assert_eq!(trips[1].phase, "open");
    assert_eq!(trips[1].observed_at_ms, 95);
    assert_eq!(trips[2].scope_key, "c");
    assert_eq!(trips[2].phase, "closed");
    assert_eq!(trips[2].observed_at_ms, 1000);
}

fn step(sequence: u64, stage: &str, at: u64) -> FabricStep {
    FabricStep { sequence, stage: stage.into(), at_ms: at }
}

#[test]
fn latency_samples_follow_step_sequence_numbers() {
    let sequences = vec![
        FabricSequence {
            session_id: "s".into(),
            task_id: "t".into(),
            trace_id: "tr".into(),
            steps: vec![step(1, "admission", 112), step(0, "dispatch", 100), step(2, "settle", 105)],
        },
        FabricSequence { session_id: "s".into(), task_id: "u".into(), trace_id: "tr2".into(), steps: vec![step(0, "only", 1)] },
    ];
    let samples = collect_latency_samples(&sequences);
    assert_eq!(samples.len(), 2);
    assert_eq!(samples[0].stage_from, "dispatch");
    assert_eq!(samples[0].stage_to, "admission");
    assert_eq!(samples[0].latency_ms, 12);
    assert_eq!(samples[1].stage_from, "admission");
    assert_eq!(samples[1].stage_to, "settle");
    assert_eq!(samples[1].latency_ms, 0);
}

fn replay_events() -> Vec<EventEnvelope> {
    vec![
        event(
            "task_runs",
            "trace:replay:base",
            Some("task-replay"),
            Some("mcp::local-mcp::invoke"),
            obj(vec![("decision", text("Allow")), ("reason", text("baseline"))]),
            10,
        ),
        event(
            "runtime_blocks",
            "trace:replay:candidate",
            Some("task-replay"),
            Some("mcp::local-mcp::invoke"),
            obj(vec![("decision", text("Blocked")), ("reason", text("candidate changed"))]),
            20,
        ),
    ]
}

#[test]
fn replay_diff_locator_pinpoints_kind_and_terminal_status() {
    let events = replay_events();
    let fingerprints = collect_replay_fingerprints("s", &events);
    assert_eq!(fingerprints.len(), 2);
    assert_eq!(fingerprints[0].trace_id, "trace:replay:base");
    assert_eq!(fingerprints[0].event_count, 1);
    assert_eq!(fingerprints[0].generated_at_ms, 10);
    assert_ne!(fingerprints[0].deterministic_replay_fingerprint, fingerprints[1].deterministic_replay_fingerprint);
    let locators = collect_replay_diff_locators("s", &events, &fingerprints);
    assert_eq!(locators.len(), 1);
    assert!(locators[0].located);
    assert_eq!(locators[0].baseline_trace_id, "trace:replay:base");
    assert_eq!(locators[0].candidate_trace_id, "trace:replay:candidate");
    assert_eq!(locators[0].mismatch_fields, vec!["event_kind_sequence".to_string(), "terminal_status".to_string()]);
    assert!(all_located(&locators));
}

#[test]
fn infer_mismatch_fields_reports_each_aspect() {
    let a = vec![
        event("task_runs", "t", Some("x"), Some("c1"), JsonValue::Null, 1),
        event("task_runs", "t", Some("x"), None, JsonValue::Null, 2),
    ];
    let b = vec![event("task_runs", "u", Some("x"), Some("c2"), JsonValue::Null, 1)];
    assert_eq!(
        infer_mismatch_fields(&a, &b),
        vec!["event_kind_sequence".to_string(), "capability_sequence".to_string(), "event_count".to_string()]
    );
    assert!(infer_mismatch_fields(&a, &a).is_empty());
    let empty: Vec<EventEnvelope> = Vec::new();
    assert_eq!(infer_mismatch_fields(&empty, &b).last().map(|s| s.as_str()), Some("terminal_status"));
}

#[test]
fn identical_replays_give_no_locator() {
    let events = vec![
        event("task_runs", "t1", Some("x"), None, obj(vec![("decision", text("Allow"))]), 1),
        event("task_runs", "t2", Some("x"), None, obj(vec![("decision", text("Allow"))]), 2),
    ];
    let fingerprints = collect_replay_fingerprints("s", &events);
    assert_eq!(fingerprints[0].deterministic_replay_fingerprint, fingerprints[1].deterministic_replay_fingerprint);
    assert!(collect_replay_diff_locators("s", &events, &fingerprints).is_empty());
}

#[test]
fn snapshot_counts_every_view() {
    let events = replay_events();
    let scope = GovernanceTelemetryScope {
        scope_id: "gov-scope:s".into(),
        session_id: "s".into(),
        tenant_scope: "tenant:test".into(),
        risk_tier: "low".into(),
        privacy_level: "internal".into(),
        approval_required: false,
        retention_hours: 72,
        redaction_fields: vec![],
    };
    let reports = vec![report("task-replay", "done\n[delegation] peer=peer-alpha")];
    let snapshot = collect_snapshot_at("s", scope, &events, &reports, &Vec::new(), &Vec::new(), &Vec::new(), 77);
    assert_eq!(snapshot.generated_at_ms, 77);
    assert_eq!(snapshot.unified_trace.len(), 2);
    assert_eq!(snapshot.delegation_traces.len(), 1);
    assert_eq!(snapshot.replay_fingerprints.len(), 2);
    assert_eq!(snapshot.summary.get("unified_trace"), Some(&2));
    assert_eq!(snapshot.summary.get("replay_diff_locators"), Some(&snapshot.replay_diff_locators.len()));
    assert_eq!(snapshot.summary.get("breaker_trips"), Some(&0));
    assert_eq!(snapshot.summary.len(), 13);
}
