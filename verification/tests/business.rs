use autoloop_core::keyed::KeyedMap;
use autoloop_core::observability::business::{
    attention_key, business_ledger, AttentionReason, WorkOrderStatus,
};
use autoloop_core::orchestration::{ExecutionReport, SwarmTask};

fn report(task: &str, role: &str, score: i32, guard: &str) -> ExecutionReport {
    ExecutionReport {
        task: SwarmTask {
            task_id: task.into(),
            agent_name: "agent".into(),
            role: role.into(),
            objective: "obj".into(),
            depends_on: vec![],
        },
        output: "out".into(),
        tool_used: None,
        mcp_server: None,
        invocation_payload: None,
        outcome_score: score,
        route_variant: "control".into(),
        control_score: 0,
        treatment_score: 0,
        guard_decision: guard.into(),
    }
}

#[test]
fn blocked_task_is_rejected_breached_and_asks_for_attention() {
    let reports = vec![report("t1", "Execution", 2, "allow"), report("t2", "research", 3, "Blocked")];
    let mut costs = KeyedMap::new();
    costs.insert("t1".to_string(), 1000u64);
    let l = business_ledger("s", &reports, &costs, true, 7);
    assert_eq!(l.work_orders[1].status, WorkOrderStatus::Rejected);
    assert_eq!(l.breach_tasks, vec!["t2".to_string()]);
    assert_eq!(l.delivered_orders + l.breached_orders, 2);
    // 12000 + 2*800 + 2000 and 6000 + 3*800 + 2000.
    assert_eq!(l.recognized_revenue_micros, 15600 + 10400);
    assert_eq!(l.allocated_cost_micros, 1000);
    assert_eq!(l.gross_profit_micros, 25000);
    assert_eq!(l.attention, Some(AttentionReason::SlaBreach));
    assert_eq!(l.risk_summary, "SLA breaches detected on 1 tasks");
    assert_eq!(AttentionReason::SlaBreach.label(), "sla_breach");
    assert_eq!(attention_key("s", 7), "business:automation:s:7");
}

#[test]
fn negative_margin_asks_for_attention() {
    let reports = vec![report("t1", "security", 5, "allow")];
    let mut costs = KeyedMap::new();
    costs.insert("t1".to_string(), 50_000u64);
    let l = business_ledger("s", &reports, &costs, false, 1);
    assert_eq!(l.breached_orders, 0);
    assert_eq!(l.gross_profit_micros, 24000 - 50_000);
    assert_eq!(l.attention, Some(AttentionReason::NegativeMargin));
    assert_eq!(l.risk_summary, "Negative gross profit detected");
    assert_eq!(AttentionReason::NegativeMargin.label(), "negative_margin");
}

#[test]
fn healthy_ledger_needs_no_attention() {
    let reports = vec![report("t1", "security", 5, "allow")];
    let l = business_ledger("s", &reports, &KeyedMap::new(), false, 1);
    assert_eq!(l.attention, None);
    assert_eq!(l.risk_summary, "business risk within target bounds");
}
