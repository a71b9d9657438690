use autoloop_core::memory::json::JsonValue;
use autoloop_core::observability::views::{
    relation_explain_view, relation_graph_view, relation_status_counts, signal_explain_view,
    shadow_diff_summary, summarize_foundry_feedback, summarize_learning_signal_rejections, RelationGraphEdge,
    RelationLogEvent, ShadowReadDiff,
};
use autoloop_core::observability::whitebox::{KnowledgeEntry, StoreRecord};

fn obj(members: Vec<(&str, JsonValue)>) -> JsonValue {
    JsonValue::Object(members.into_iter().map(|(k, v)| (k.to_string(), v)).collect())
}

fn text(s: &str) -> JsonValue {
    JsonValue::Text(s.to_string())
}

fn entry(key: &str, value: &str) -> KnowledgeEntry {
    KnowledgeEntry { key: key.into(), source: "signal".into(), value: value.into() }
}

#[test]
fn signal_explain_view_filters_sorts_and_counts_reasons() {
    let entries = vec![
        entry("observability:signal-explain:s:2", "{\"trace_id\":\"t1\",\"created_at_ms\":20,\"reason_code\":\"sampled_out\"}"),
        entry("observability:signal-explain:s:latest", "{\"trace_id\":\"t1\",\"created_at_ms\":99}"),
        entry("observability:signal-explain:s:1", "{\"trace_id\":\"t1\",\"created_at_ms\":10,\"reason_code\":\"accepted\"}"),
        entry("observability:signal-explain:s:3", "not json"),
        entry("observability:signal-explain:s:4", "{\"trace_id\":\"t2\",\"reason_code\":\"accepted\"}"),
    ];
    let all = signal_explain_view(&entries, None);
    assert_eq!(all.count, 3);
    assert_eq!(all.items[0].key, "observability:signal-explain:s:4");
    assert_eq!(all.items[1].key, "observability:signal-explain:s:1");
    assert_eq!(all.items[2].key, "observability:signal-explain:s:2");
    assert_eq!(all.reason_counts.get("accepted"), Some(&2));
    assert_eq!(all.reason_counts.get("sampled_out"), Some(&1));
    let t1 = signal_explain_view(&entries, Some("t1"));
    assert_eq!(t1.count, 2);
    assert_eq!(t1.reason_counts.get("accepted"), Some(&1));
}

fn event(id: &str, trace: &str, kind: &str, payload: JsonValue, at: u64) -> RelationLogEvent {
    RelationLogEvent {
        event_id: id.into(),
        trace_id: trace.into(),
        event_type: kind.into(),
        evidence_ref: format!("evidence:{id}"),
        payload,
        created_at_ms: at,
    }
}

#[test]
fn relation_views_show_decision_reason_and_evidence_ref() {
    let events = vec![
        event(
            "e1",
            "trace-1",
            "edge_upserted",
            obj(vec![(
                "reason",
                obj(vec![
                    ("code", text("policy_allow")),
                    ("deny_reason", JsonValue::Null),
                    ("evidence_ref", text("evidence:relation:event:1")),
                ]),
            )]),
            5,
        ),
        event("e2", "trace-1", "EDGE_REJECTED", obj(vec![("reason", obj(vec![("deny_reason", text("cycle"))]))]), 3),
        event("e3", "trace-2", "node_upserted", JsonValue::Null, 4),
    ];
    let counts = relation_status_counts(&events);
    assert_eq!(counts.blocked, 1);
    assert_eq!(counts.allowed, 2);
    assert_eq!(counts.latest_event, Some(0));

    let explain = relation_explain_view(events, Some("trace-1"));
    assert_eq!(explain.count, 2);
    assert_eq!(explain.items[0].event_id, "e2");
    assert_eq!(explain.items[0].decision, "blocked");
    assert_eq!(explain.items[0].reason_code, "blocked");
    assert_eq!(explain.items[0].deny_reason.as_deref(), Some("cycle"));
    assert_eq!(explain.items[0].evidence_ref, "evidence:e2");
    assert_eq!(explain.items[1].decision, "allowed");
    assert_eq!(explain.items[1].reason_code, "policy_allow");
    assert_eq!(explain.items[1].deny_reason, None);
    assert_eq!(explain.items[1].evidence_ref, "evidence:relation:event:1");
    assert_eq!(explain.reason_counts.get("blocked"), Some(&1));
    assert_eq!(explain.reason_counts.get("policy_allow"), Some(&1));
}

fn edge(id: &str, trace: &str, from: &str, to: &str, payload: JsonValue) -> RelationGraphEdge {
    RelationGraphEdge {
        edge_id: id.into(),
        trace_id: trace.into(),
        from_node: from.into(),
        to_node: to.into(),
        edge_type: "depends_on".into(),
        evidence_ref: format!("evidence:{id}"),
        payload,
        updated_at_ms: 1,
    }
}

#[test]
fn relation_graph_view_lists_nodes_and_edge_reasons() {
    let edges = vec![
        edge("x1", "t1", "task:b", "task:a", obj(vec![("reason", obj(vec![("code", text("ok"))])), ("other", text("y"))])),
        edge("x2", "t1", "task:a", "task:c", JsonValue::Null),
        edge("x3", "t2", "task:z", "task:a", JsonValue::Null),
    ];
    let graph = relation_graph_view(edges, Some("t1"));
    assert_eq!(graph.edge_count, 2);
    assert_eq!(graph.node_count, 3);
    assert_eq!(graph.nodes, vec!["task:a".to_string(), "task:b".to_string(), "task:c".to_string()]);
    assert!(matches!(&graph.edges[0].reason, Some(JsonValue::Object(m)) if m.len() == 1));
    assert!(graph.edges[1].reason.is_none());
}

fn store(value: JsonValue) -> StoreRecord {
    StoreRecord { key: "k".into(), source: "s".into(), value }
}

#[test]
fn foundry_feedback_is_counted_by_kind() {
    let records = vec![
        store(obj(vec![("kind", text("hit"))])),
        store(obj(vec![("kind", text("hit"))])),
        store(obj(vec![("kind", text("bad_json"))])),
        store(obj(vec![("kind", text("other"))])),
        store(JsonValue::Null),
    ];
    let s = summarize_foundry_feedback(&records);
    assert_eq!(s.total, 5);
    assert_eq!(s.hit, 2);
    assert_eq!(s.bad_json, 1);
    assert_eq!(s.miss + s.failed_trigger + s.missing_script, 0);
}

#[test]
fn learning_signal_rejections_latest_first() {
    let mut records = Vec::new();
    for i in 0..20u64 {
        records.push(store(obj(vec![
            ("reason", text(if i % 2 == 0 { "learning_signal.missing_evidence_ref" } else { "learning_signal.session_id_mismatch" })),
            ("created_at_ms", JsonValue::Number((100 - i).to_string())),
        ])));
    }
    records.push(store(obj(vec![("reason", text("other.reason")), ("created_at_ms", JsonValue::Number("1".into()))])));
    let s = summarize_learning_signal_rejections(&records);
    assert_eq!(s.count, 20);
    assert_eq!(s.latest_reason.as_deref(), Some("learning_signal.missing_evidence_ref"));
    assert_eq!(s.latest_first.len(), 16);
    assert_eq!(s.latest_first[0], 0);
    assert_eq!(s.latest_first[15], 15);
}

#[test]
fn shadow_diff_summary_counts_domains_and_classes() {
    let reports = vec![
        ShadowReadDiff { domain: "knowledge".into(), mismatch: true, diff_classes: vec!["missing".into(), "stale".into()] },
        ShadowReadDiff { domain: "knowledge".into(), mismatch: false, diff_classes: vec![] },
        ShadowReadDiff { domain: "lease".into(), mismatch: true, diff_classes: vec!["stale".into()] },
    ];
    let s = shadow_diff_summary(&reports);
    assert!(s.enabled);
    assert_eq!(s.mismatch_count, 2);
    assert_eq!(s.domain_counts.get("knowledge"), Some(&2));
    assert_eq!(s.domain_counts.get("lease"), Some(&1));
    assert_eq!(s.diff_class_counts.get("stale"), Some(&2));
    assert_eq!(s.diff_class_counts.get("missing"), Some(&1));
    assert!(!shadow_diff_summary(&Vec::new()).enabled);
}
