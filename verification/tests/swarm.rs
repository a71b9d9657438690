use autoloop_core::memory::json::JsonValue;
use autoloop_core::observability::event_stream::EventEnvelope;
use autoloop_core::observability::kernel::FailureForensicsRecord;
use autoloop_core::observability::swarm::{
    open_circuit_count, product_ops_snapshot, promotion_counts, swarm_observability_keys,
    swarm_trace_level,
};

fn event(kind: &str, payload: JsonValue) -> EventEnvelope {
    EventEnvelope {
        event_id: "evt".into(),
        kind: kind.into(),
        trace_id: "t".into(),
        session_id: "s".into(),
        task_id: None,
        capability_id: None,
        version: "v1".into(),
        payload,
        created_at_ms: 1,
    }
}

#[test]
fn swarm_keys_in_write_order() {
    let keys = swarm_observability_keys(true, "s1", 42);
    assert_eq!(keys.len(), 16);
    assert_eq!(keys[0], "observability:s1:route-analytics");
    assert_eq!(keys[6], "observability:s1:business-report");
    assert_eq!(keys[14], "observability:s1:telemetry-collector");
    assert_eq!(keys[15], "observability:s1:trace:42");
    assert!(swarm_observability_keys(false, "s1", 42).is_empty());
}

#[test]
fn promotion_decisions_are_counted() {
    let approved = JsonValue::Object(vec![("approved".into(), JsonValue::Bool(true))]);
    let refused = JsonValue::Object(vec![("approved".into(), JsonValue::Bool(false))]);
    let text = JsonValue::Object(vec![("approved".into(), JsonValue::Text("true".into()))]);
    let events = vec![
        event("verifier.promotion_decision", approved),
        event("verifier.promotion_decision", refused),
        event("verifier.promotion_decision", text),
        event("runtime.execute", JsonValue::Object(vec![("approved".into(), JsonValue::Bool(true))])),
    ];
    assert_eq!(promotion_counts(&events), (3, 1));
}

#[test]
fn open_circuits_trace_level_and_product_ops() {
    let f = FailureForensicsRecord {
        session_id: "s".into(),
        failing_tasks: vec![],
        blocked_tools: vec!["a".into(), "b".into()],
        approval_gated_tools: vec!["c".into()],
        primary_failure_mode: "none".into(),
        summary: "".into(),
    };
    assert_eq!(open_circuit_count(&f), 3);
    assert_eq!(swarm_trace_level(true), "info");
    assert_eq!(swarm_trace_level(false), "warn");
    let p = product_ops_snapshot("s9", 4);
    assert_eq!(p.dashboard_endpoint_hint, "state_store://observability/s9/dashboard");
    assert_eq!(p.verifier_queue_depth, 4);
}
