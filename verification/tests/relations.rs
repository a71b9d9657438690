use autoloop_core::relations::{
    build_relation_repair_patch, conflicting_relations, detect_relation_cycles,
    duplicate_relations, normalize_relation_kind, relation_check, RelationEdge, RelationEvent,
    RepairOpKind,
};

fn edge(id: &str, from: &str, to: &str, kind: &str, evidence: &str) -> RelationEdge {
    RelationEdge {
        edge_id: id.into(),
        trace_id: "trace:relation".into(),
        from_node: from.into(),
        to_node: to.into(),
        edge_type: kind.into(),
        evidence_ref: evidence.into(),
        updated_at_ms: 1,
    }
}

fn event(id: &str, trace: &str, evidence: &str, edge_ref: Option<&str>) -> RelationEvent {
    RelationEvent {
        event_id: id.into(),
        trace_id: trace.into(),
        event_type: "edge_upserted".into(),
        evidence_ref: evidence.into(),
        edge_ref: edge_ref.map(|e| e.to_string()),
        created_at_ms: 1,
    }
}

#[test]
fn normalize_relation_kind_keeps_lowercase_alphanumerics() {
    assert_eq!(normalize_relation_kind("Approved_By"), "approvedby");
    assert_eq!(normalize_relation_kind("depends-on 2"), "dependson2");
}

#[test]
fn relation_check_detects_cycle_and_plans_repair() {
    let edges = vec![
        edge("edge:cycle:0", "node:a", "node:b", "depends_on", "evidence:0"),
        edge("edge:cycle:1", "node:b", "node:c", "depends_on", "evidence:1"),
        edge("edge:cycle:2", "node:c", "node:a", "depends_on", "evidence:2"),
    ];
    let report = relation_check("session", None, &edges, vec![], 100);
    assert!(!report.healthy);
    assert_eq!(report.cycle_paths.len(), 1);
    assert_eq!(report.cycle_paths[0], vec!["node:a", "node:b", "node:c"]);
    assert_eq!(report.summary, "relation checks found consistency gaps");
    assert!(report.replay_fp.starts_with("replayfp:"));
    assert_eq!(report.replay_fp.len(), "replayfp:".len() + 16);

    let plan = build_relation_repair_patch("session", &report, Some("auto-repair for cycle"));
    assert_eq!(plan.namespace, "relation:session");
    assert_eq!(plan.ops.len(), 1);
    assert_eq!(plan.ops[0].kind, RepairOpKind::Update);
    assert_eq!(plan.ops[0].target, "relation:cycle:0");
    assert_eq!(plan.ops[0].reason, "repair cycle in relation graph (auto-repair for cycle)");
}

#[test]
fn healthy_graph_needs_no_repair() {
    let edges = vec![edge("edge:1", "session:main", "query:main", "depends_on", "evidence:1")];
    let events = vec![event("event:1", "trace:a", "evidence:e", Some("edge:1"))];
    let report = relation_check("s", Some("trace:a"), &edges, events, 5);
    assert!(report.healthy);
    assert_eq!(report.summary, "relation checks passed");
    assert_eq!(report.trace_filter.as_deref(), Some("trace:a"));
    let plan = build_relation_repair_patch("s", &report, None);
    assert_eq!(plan.ops.len(), 1);
    assert_eq!(plan.ops[0].kind, RepairOpKind::NoChange);
    assert_eq!(plan.ops[0].target, "relation:session:s");
    assert_eq!(plan.ops[0].reason, "no relation consistency fix required");
}

#[test]
fn relation_check_reports_missing_evidence_orphans_and_dangling_refs() {
    let edges = vec![
        edge("edge:1", "a", "b", "depends_on", "  "),
        edge("edge:2", " ", "b", "depends_on", "evidence"),
    ];
    let events = vec![
        event("event:1", "trace:a", "", Some("edge:9")),
        event("event:2", "trace:b", "evidence", Some("edge:1")),
    ];
    let report = relation_check("s", None, &edges, events, 5);
    assert_eq!(report.missing_evidence_edges, vec!["edge:1"]);
    assert_eq!(report.missing_evidence_events, vec!["event:1"]);
    assert_eq!(report.events_with_missing_edge_ref.len(), 1);
    assert_eq!(report.events_with_missing_edge_ref[0].edge_id, "edge:9");
    assert_eq!(report.orphan_edges.len(), 1);
    assert_eq!(report.orphan_edges[0].edge_id, "edge:2");
    let plan = build_relation_repair_patch("s", &report, None);
    let targets: Vec<&str> = plan.ops.iter().map(|op| op.target.as_str()).collect();
    assert_eq!(targets, vec!["relation:edge:edge:2", "relation:event:event:1"]);
    assert_eq!(plan.ops[0].reason, "repair orphan edge endpoint (relation consistency check)");
}

#[test]
fn trace_filter_limits_events() {
    let edges = vec![edge("edge:1", "a", "b", "x", "e")];
    let events = vec![
        event("event:1", "trace:a", "", None),
        event("event:2", "trace:b", "", None),
    ];
    let report = relation_check("s", Some("trace:b"), &edges, events, 5);
    assert_eq!(report.missing_evidence_events, vec!["event:2"]);
}

#[test]
fn conflicting_and_duplicate_relations_are_found() {
    let edges = vec![
        edge("e1", "a", "b", "approved_by", "x"),
        edge("e2", " a", "b ", "Blocked-By", "x"),
        edge("e3", "a", "b", "approvedBy", "x"),
        edge("e4", "c", "d", "approved_by", "x"),
    ];
    let conflicts = conflicting_relations(&edges);
    assert_eq!(conflicts.len(), 1);
    assert_eq!(conflicts[0].from_node, "a");
    assert_eq!(conflicts[0].to_node, "b");
    assert_eq!(conflicts[0].kinds, vec!["approvedby", "blockedby"]);
    let duplicates = duplicate_relations(&edges);
    assert_eq!(duplicates.len(), 1);
    assert_eq!(duplicates[0].edge_type, "approvedby");
    assert_eq!(duplicates[0].edge_ids, vec!["e1", "e3"]);
}

#[test]
fn acyclic_graph_has_no_cycles() {
    let edges = vec![
        edge("e1", "a", "b", "x", "e"),
        edge("e2", "b", "c", "x", "e"),
        edge("e3", "a", "c", "x", "e"),
    ];
    assert!(detect_relation_cycles(&edges).is_empty());
}

#[test]
fn self_loop_is_a_cycle_of_one() {
    let edges = vec![edge("e1", "a", "a", "x", "e")];
    let cycles = detect_relation_cycles(&edges);
    assert_eq!(cycles, vec![vec!["a".to_string()]]);
}
