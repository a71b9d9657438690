use autoloop_core::config::{DeploymentConfig, ObservabilityConfig};
use autoloop_core::observability::kernel::{
    cost_report, count_non_latest_records, supermemory_metrics, CostAttribution, ObservabilityKernel,
    SpendEntry,
};
use autoloop_core::orchestration::{ExecutionReport, SwarmTask};

fn report(task_id: &str, role: &str, outcome_score: i32, guard: &str, tool: Option<&str>) -> ExecutionReport {
    ExecutionReport {
        task: SwarmTask {
            task_id: task_id.into(),
            agent_name: format!("{role}-agent"),
            role: role.into(),
            objective: format!("{role} objective"),
            depends_on: vec![],
        },
        output: "ok".into(),
        tool_used: tool.map(|t| t.to_string()),
        mcp_server: Some("local-mcp".into()),
        invocation_payload: Some("{}".into()),
        outcome_score,
        route_variant: "control".into(),
        control_score: outcome_score,
        treatment_score: outcome_score,
        guard_decision: guard.into(),
    }
}

fn kernel(enabled: bool, top_k: usize) -> ObservabilityKernel {
    ObservabilityKernel::from_config(
        &ObservabilityConfig { enabled, report_top_k: top_k },
        &DeploymentConfig::new("edge".into()),
    )
}

#[test]
fn validate_requires_top_k_when_enabled() {
    assert!(kernel(true, 3).validate().is_ok());
    assert!(kernel(false, 0).validate().is_ok());
    assert_eq!(
        kernel(true, 0).validate().unwrap_err(),
        "observability.report_top_k must be greater than 0"
    );
}

#[test]
fn failure_forensics_prefers_blocked_tools() {
    let reports = vec![
        report("t1", "Execution", 0, "Blocked", Some("mcp::a")),
        report("t2", "Security", 2, "RequiresApproval", Some("mcp::b")),
        report("t3", "Planner", -1, "Allow", None),
    ];
    let f = kernel(true, 3).failure_forensics("s", &reports);
    assert_eq!(f.failing_tasks, vec!["Execution:Execution objective", "Planner:Planner objective"]);
    assert_eq!(f.blocked_tools, vec!["mcp::a"]);
    assert_eq!(f.approval_gated_tools, vec!["mcp::b"]);
    assert_eq!(f.primary_failure_mode, "runtime-guard-blocked");
    assert_eq!(f.summary, "failure_mode=runtime-guard-blocked failing_tasks=2 blocked_tools=1 approval_gated=1");
    let clean = kernel(true, 3).failure_forensics("s", &vec![report("t", "Execution", 3, "Allow", None)]);
    assert_eq!(clean.primary_failure_mode, "none");
    assert_eq!(clean.summary, "failure_mode=none failing_tasks=0 blocked_tools=0 approval_gated=0");
}

#[test]
fn operations_report_summarises_the_run() {
    let tasks = vec![SwarmTask {
        task_id: "t1".into(),
        agent_name: "a".into(),
        role: "Execution".into(),
        objective: "ship".into(),
        depends_on: vec![],
    }];
    let lines = vec!["a".to_string(), "b".to_string(), "c".to_string()];
    let ops = kernel(true, 2).operations_report("s", true, "Pass", &tasks, &lines);
    assert_eq!(ops.session_summary, "validation_ready=true verifier=Pass tasks=1 profile=edge");
    assert_eq!(ops.task_summary, vec!["Execution -> ship"]);
    assert_eq!(ops.capability_summary, vec!["a", "b"]);
}

#[test]
fn completion_trace_level_follows_validation() {
    let t = kernel(true, 2).completion_trace("s", false, "0.50", 9);
    assert_eq!(t.span_name, "swarm.completed");
    assert_eq!(t.level, "warn");
    assert_eq!(t.detail, "validation_ready=false verifier_score=0.50 deployment_profile=edge");
    assert_eq!(t.created_at_ms, 9);
    assert_eq!(kernel(true, 2).completion_trace("s", true, "1.00", 9).level, "info");
}

#[test]
fn non_latest_records_are_counted() {
    let keys = vec![
        "memory:q:s:1".to_string(),
        "memory:q:s:latest".to_string(),
        "memory:q:s:2".to_string(),
        "memory:q:s::latest".to_string(),
    ];
    assert_eq!(count_non_latest_records(&keys), 2);
    let m = supermemory_metrics("s", &keys, &vec![], &keys, &vec!["x:latest".to_string()], 4, 10);
    assert_eq!(m.ingestion_count, 2);
    assert_eq!(m.chunk_count, 0);
    assert_eq!(m.relation_count, 0);
    assert_eq!(m.retrieval_hits, 4);
}

#[test]
fn cost_report_saturates_and_reconciles() {
    let costs = vec![
        CostAttribution { token_cost_micros: 2560, tool_cost_micros: 500, duration_cost_micros: 200, total_cost_micros: 3260 },
        CostAttribution { token_cost_micros: u64::MAX, tool_cost_micros: 1, duration_cost_micros: 0, total_cost_micros: 40 },
    ];
    let ledger = vec![
        SpendEntry { settled: true, amount_micros: 3000 },
        SpendEntry { settled: false, amount_micros: 5000 },
        SpendEntry { settled: true, amount_micros: -7 },
        SpendEntry { settled: true, amount_micros: 300 },
    ];
    let r = cost_report("s", &costs, &ledger);
    assert_eq!(r.task_count, 2);
    assert_eq!(r.token_cost_micros, u64::MAX);
    assert_eq!(r.tool_cost_micros, 501);
    assert_eq!(r.total_cost_micros, 3300);
    assert!(r.reconciliation_ok);
    let short = cost_report("s", &costs, &vec![SpendEntry { settled: true, amount_micros: 3299 }]);
    assert!(!short.reconciliation_ok);
}
