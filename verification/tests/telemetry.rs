use autoloop_core::observability::collector::{ExecSpanRecord, GuardHitRecord};
use autoloop_core::observability::telemetry::{
    collect_branch_collapse, collect_contradictions, collect_regressions,
};

fn span(trace: &str, task: &str, status: &str, start: u64, end: u64) -> ExecSpanRecord {
    ExecSpanRecord {
        span_id: format!("span:{trace}"),
        session_id: "s".into(),
        trace_id: trace.into(),
        task_id: task.into(),
        capability_id: None,
        status: status.into(),
        start_ms: start,
        end_ms: end,
        latency_ms: end - start,
        pool: None,
        route_variant: None,
    }
}

fn hit(trace: &str, task: &str, cap: Option<&str>, decision: &str, at: u64) -> GuardHitRecord {
    GuardHitRecord {
        session_id: "s".into(),
        trace_id: trace.into(),
        task_id: task.into(),
        capability_id: cap.map(|c| c.to_string()),
        decision: decision.into(),
        reason: "r".into(),
        created_at_ms: at,
    }
}

#[test]
fn regression_is_a_drop_in_status_rank_between_consecutive_traces() {
    let spans = vec![
        span("t2", "a", "running", 20, 30),
        span("t1", "a", "failed", 0, 10),
        span("t3", "a", "succeeded", 30, 40),
        span("u1", "b", "ready", 0, 5),
    ];
    let r = collect_regressions("s", &spans);
    assert_eq!(r.len(), 1);
    assert_eq!(r[0].task_id, "a");
    assert_eq!(r[0].previous_trace_id, "t1");
    assert_eq!(r[0].current_trace_id, "t2");
    assert_eq!(r[0].from_status, "failed");
    assert_eq!(r[0].to_status, "running");
    assert_eq!(r[0].detected_at_ms, 30);
    assert_eq!(r[0].session_id, "s");
}

#[test]
fn regressions_come_out_by_detection_time() {
    let spans = vec![
        span("a1", "a", "blocked", 0, 50),
        span("a2", "a", "ready", 50, 90),
        span("b1", "b", "succeeded", 0, 10),
        span("b2", "b", "unknown", 10, 20),
    ];
    let r = collect_regressions("s", &spans);
    assert_eq!(r.len(), 2);
    assert_eq!(r[0].current_trace_id, "b2");
    assert_eq!(r[1].current_trace_id, "a2");
}

#[test]
fn no_regression_without_a_second_trace() {
    let spans = vec![span("t1", "a", "failed", 0, 10)];
    assert!(collect_regressions("s", &spans).is_empty());
    assert!(collect_regressions("s", &Vec::new()).is_empty());
}

#[test]
fn contradiction_needs_disagreeing_normalized_decisions() {
    let hits = vec![
        hit("t1", "a", Some("tool:x"), "Allowed", 10),
        hit("t2", "a", Some("tool:x"), "allow", 20),
        hit("t3", "a", Some("tool:x"), "BLOCKED by policy", 30),
        hit("t4", "a", Some("tool:y"), "deny", 5),
    ];
    let r = collect_contradictions("s", &hits);
    assert_eq!(r.len(), 1);
    assert_eq!(r[0].left_trace_id, "t2");
    assert_eq!(r[0].right_trace_id, "t3");
    assert_eq!(r[0].left_decision, "allow");
    assert_eq!(r[0].right_decision, "BLOCKED by policy");
    assert_eq!(r[0].capability_id.as_deref(), Some("tool:x"));
    assert_eq!(r[0].detected_at_ms, 30);
}

#[test]
fn contradictions_group_missing_capability_together() {
    let hits = vec![
        hit("t2", "a", None, "reject", 20),
        hit("t1", "a", None, "ok", 10),
        hit("t3", "a", Some("capability:unknown"), "ok", 40),
    ];
    let r = collect_contradictions("s", &hits);
    // The hit named "capability:unknown" falls in the same group as the hits without one.
    assert_eq!(r.len(), 2);
    assert_eq!(r[0].left_trace_id, "t1");
    assert_eq!(r[0].right_trace_id, "t2");
    assert_eq!(r[0].capability_id, None);
    assert_eq!(r[1].left_trace_id, "t2");
    assert_eq!(r[1].right_trace_id, "t3");
}

#[test]
fn branch_collapses_to_the_highest_ranked_trace() {
    let spans = vec![
        span("t2", "a", "succeeded", 20, 35),
        span("t1", "a", "running", 0, 10),
        span("t3", "a", "succeeded", 40, 30),
        span("u1", "b", "ready", 5, 6),
    ];
    let r = collect_branch_collapse("s", &spans);
    assert_eq!(r.len(), 2);
    assert_eq!(r[0].branch_id, "branch:s:a");
    assert_eq!(r[0].task_id, "a");
    assert_eq!(r[0].candidate_trace_ids, vec!["t1".to_string(), "t2".to_string(), "t3".to_string()]);
    // Equal rank: the later end wins, so t2 (end 35) beats t3 (end 30).
    assert_eq!(r[0].selected_trace_id, "t2");
    assert_eq!(r[0].selected_status, "succeeded");
    assert_eq!(r[0].start_ms, 0);
    assert_eq!(r[0].end_ms, 30);
    assert_eq!(r[1].branch_id, "branch:s:b");
    assert_eq!(r[1].selected_trace_id, "u1");
    assert_eq!(r[1].start_ms, 5);
}

#[test]
fn branch_collapse_ties_go_to_the_last_candidate() {
    let spans = vec![span("t1", "a", "failed", 0, 10), span("t2", "a", "failed", 5, 10)];
    let r = collect_branch_collapse("s", &spans);
    assert_eq!(r.len(), 1);
    assert_eq!(r[0].selected_trace_id, "t2");
    assert!(collect_branch_collapse("s", &Vec::new()).is_empty());
}
