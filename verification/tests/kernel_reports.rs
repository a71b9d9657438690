use autoloop_core::cli::DegradeProfileKind;
use autoloop_core::config::{DeploymentConfig, ObservabilityConfig};
use autoloop_core::observability::kernel::{FailoverRecord, ObservabilityKernel};
use autoloop_core::orchestration::{ExecutionReport, SwarmTask};

fn report(role: &str, score: i32, guard: &str, route: &str, tool: Option<&str>, server: Option<&str>) -> ExecutionReport {
    ExecutionReport {
        task: SwarmTask {
            task_id: format!("task-{role}"),
            agent_name: "agent".into(),
            role: role.into(),
            objective: "o".into(),
            depends_on: vec![],
        },
        output: "ok".into(),
        tool_used: tool.map(|t| t.to_string()),
        mcp_server: server.map(|s| s.to_string()),
        invocation_payload: None,
        outcome_score: score,
        route_variant: route.into(),
        control_score: 0,
        treatment_score: 0,
        guard_decision: guard.into(),
    }
}

fn kernel(top_k: usize) -> ObservabilityKernel {
    ObservabilityKernel::from_config(
        &ObservabilityConfig { enabled: true, report_top_k: top_k },
        &DeploymentConfig::new("edge".into()),
    )
}

#[test]
fn route_analytics_counts_routes_guards_and_top_tools() {
    let reports = vec![
        report("Execution", 1, "Allow", "treatment", Some("tool:c"), Some("srv-b")),
        report("Planner", 0, "Blocked", "control", Some("tool:a"), Some("srv-a")),
        report("Security", 1, "ALLOW", "treatment", Some("tool:c"), None),
        report("Writer", 1, "RequiresApproval", "control", Some("tool:b"), Some("srv-b")),
        report("Reader", 1, "allow", "Treatment", None, None),
    ];
    let analytics = kernel(2).route_analytics("s", &reports);
    assert_eq!(analytics.total_reports, 5);
    assert_eq!(analytics.treatment_reports, 2);
    assert_eq!(analytics.guarded_reports, 2);
    assert_eq!(analytics.top_tools, vec!["tool:a".to_string(), "tool:b".to_string()]);
    assert_eq!(analytics.top_servers, vec!["srv-a".to_string(), "srv-b".to_string()]);
    let wide = kernel(10).route_analytics("s", &reports);
    assert_eq!(wide.top_tools.len(), 3);
}

#[test]
fn resilience_report_counts_failovers_and_key_tasks() {
    let failovers = vec![
        FailoverRecord { started_at_ms: 5, recovered: true, profile: DegradeProfileKind::ProviderFallback, mttr_ms: Some(100) },
        FailoverRecord { started_at_ms: 1, recovered: false, profile: DegradeProfileKind::ManualTakeover, mttr_ms: None },
        FailoverRecord { started_at_ms: 3, recovered: true, profile: DegradeProfileKind::ReadOnly, mttr_ms: Some(51) },
    ];
    let reports = vec![
        report("execution", 1, "Allow", "control", None, None),
        report("SECURITY", 0, "Allow", "control", None, None),
        report("planner", 1, "Allow", "control", None, None),
    ];
    let r = kernel(3).resilience_report("s", &failovers, &reports);
    assert_eq!(r.failover_events, 3);
    assert_eq!(r.recovered_events, 2);
    assert_eq!(r.manual_takeover_events, 1);
    assert_eq!(r.mttr_ms, Some(75));
    assert_eq!(r.key_tasks, 2);
    assert_eq!(r.key_task_successes, 1);
    let empty = kernel(3).resilience_report("s", &Vec::new(), &Vec::new());
    assert_eq!(empty.mttr_ms, None);
    assert_eq!(empty.failover_events, 0);
}
