use autoloop_core::memory::json::JsonValue;
use autoloop_core::observability::event_stream::{
    complete_replay_snapshot, digest_text, order_events, policy_reject_view, session_view,
    trace_events, ArtifactDigest, DeterminismBoundary, EventEnvelope, ReplaySnapshot, SeedRecord,
};

fn event(id: &str, kind: &str, trace: &str, payload: JsonValue, at: u64) -> EventEnvelope {
    EventEnvelope {
        event_id: id.into(),
        kind: kind.into(),
        trace_id: trace.into(),
        session_id: "s".into(),
        task_id: None,
        capability_id: None,
        version: "v1".into(),
        payload,
        created_at_ms: at,
    }
}

fn reject(stage: &str, reason: &str) -> JsonValue {
    JsonValue::Object(vec![
        ("stage".into(), JsonValue::Text(stage.into())),
        ("reason".into(), JsonValue::Text(reason.into())),
    ])
}

#[test]
fn digest_text_is_stable_hex() {
    let a = digest_text("payload");
    let b = digest_text("payload");
    assert_eq!(a, b);
    assert_eq!(a.len(), 16);
    assert!(a.chars().all(|c| c.is_ascii_hexdigit() && !c.is_ascii_uppercase()));
    assert_ne!(digest_text("payload"), digest_text("other"));
}

#[test]
fn events_are_ordered_by_time_stably() {
    let events = vec![
        event("b", "k", "t1", JsonValue::Null, 5),
        event("a", "k", "t2", JsonValue::Null, 1),
        event("c", "k", "t1", JsonValue::Null, 5),
    ];
    let ordered = order_events(events);
    let ids: Vec<&str> = ordered.iter().map(|e| e.event_id.as_str()).collect();
    assert_eq!(ids, vec!["a", "b", "c"]);
    let t1 = trace_events(ordered, "t1");
    let ids: Vec<&str> = t1.iter().map(|e| e.event_id.as_str()).collect();
    assert_eq!(ids, vec!["b", "c"]);
}

#[test]
fn session_view_counts_kinds_and_finds_latest() {
    let events = vec![
        event("a", "task_runs", "t1", JsonValue::Null, 5),
        event("b", "policy_reject", "t2", JsonValue::Null, 9),
        event("c", "task_runs", "t3", JsonValue::Null, 9),
    ];
    let view = session_view("s", 4, &events);
    assert_eq!(view.total_events, 4);
    assert_eq!(view.by_kind.get("task_runs"), Some(&2));
    assert_eq!(view.by_kind.get("policy_reject"), Some(&1));
    assert_eq!(view.latest_event_ms, Some(9));
    assert_eq!(view.latest_trace_id.as_deref(), Some("t2"));
    let empty = session_view("s", 0, &vec![]);
    assert_eq!(empty.latest_event_ms, None);
}

#[test]
fn policy_reject_view_groups_by_stage_and_reason() {
    let events = vec![
        event("a", "policy_reject", "t1", reject("admission", "budget"), 3),
        event("b", "task_runs", "t2", JsonValue::Null, 4),
        event("c", "policy_reject", "t3", JsonValue::Object(vec![]), 7),
        event("d", "policy_reject", "t4", reject("admission", "budget"), 5),
    ];
    let view = policy_reject_view("s", &events);
    assert_eq!(view.total_rejects, 3);
    assert_eq!(view.by_stage.get("admission"), Some(&2));
    assert_eq!(view.by_stage.get("unknown"), Some(&1));
    assert_eq!(view.by_reason.get("budget"), Some(&2));
    assert_eq!(view.latest_reject_ms, Some(7));
    assert_eq!(view.latest_trace_id.as_deref(), Some("t3"));
    assert_eq!(view.latest_reason.as_deref(), Some("unknown"));
}

fn snapshot(id: &str, created: u64) -> ReplaySnapshot {
    ReplaySnapshot {
        snapshot_id: id.into(),
        session_id: "session-p10".into(),
        trace_id: "trace-p10".into(),
        task_id: "task-p10".into(),
        capability_id: "provider:openai-compatible".into(),
        actor_id: "runtime".into(),
        preferred_model: Some("qwen-plus".into()),
        route_model: Some("qwen-plus".into()),
        input_digest: "in".into(),
        parameters_digest: "params".into(),
        output_digest: "out".into(),
        artifacts: vec![ArtifactDigest {
            name: "provider_output".into(),
            algorithm: "siphash64".into(),
            digest: "deadbeef".into(),
        }],
        boundary: DeterminismBoundary {
            mode: "best_effort".into(),
            locked_fields: vec!["payload".into()],
            non_deterministic_steps: vec!["provider_api".into()],
            external_dependencies: vec!["openai-compatible".into()],
        },
        seed: Some(SeedRecord {
            seed_key: "routing_seed".into(),
            seed_value: "fixed:v1".into(),
            source: "runtime".into(),
        }),
        replay_input: JsonValue::Object(vec![("payload".into(), JsonValue::Text("hello".into()))]),
        created_at_ms: created,
    }
}

#[test]
fn replay_snapshot_gets_an_id_and_a_time() {
    let done = complete_replay_snapshot(snapshot("  ", 0), 7, 1234);
    assert_eq!(done.snapshot_id, "replay:session-p10:trace-p10:task-p10:7");
    assert_eq!(done.created_at_ms, 1234);
    let kept = complete_replay_snapshot(snapshot("replay:given", 55), 7, 1234);
    assert_eq!(kept.snapshot_id, "replay:given");
    assert_eq!(kept.created_at_ms, 55);
    assert_eq!(kept.session_id, "session-p10");
}
