use autoloop_core::keyed::KeyedMap;
use autoloop_core::observability::collector::{
    DelegationTraceRecord, LatencySample, RetryRecord, TelemetryCollectorSnapshot,
};
use autoloop_core::observability::policy::{percentile95, policy_signal_counts};
use autoloop_core::orchestration::GovernanceTelemetryScope;

#[test]
fn percentile95_of_sorted_values() {
    assert_eq!(percentile95(&vec![]), 0);
    assert_eq!(percentile95(&vec![7]), 7);
    assert_eq!(percentile95(&vec![3, 1, 2]), 3);
    let values: Vec<u64> = (1..=20).rev().collect();
    assert_eq!(percentile95(&values), 19);
    let hundred: Vec<u64> = (1..=100).collect();
    assert_eq!(percentile95(&hundred), 95);
}

fn latency(ms: u64) -> LatencySample {
    LatencySample {
        session_id: "s".into(),
        trace_id: "t".into(),
        task_id: "task".into(),
        stage_from: "a".into(),
        stage_to: "b".into(),
        from_at_ms: 0,
        to_at_ms: ms,
        latency_ms: ms,
    }
}

fn retry(n: u32) -> RetryRecord {
    RetryRecord {
        session_id: "s".into(),
        task_id: "task".into(),
        trace_id: "t".into(),
        attempts: n + 1,
        retries: n,
        final_status: "done".into(),
        last_reason: "".into(),
    }
}

fn delegation(task: &str, delegated: bool) -> DelegationTraceRecord {
    DelegationTraceRecord {
        session_id: "s".into(),
        task_id: task.into(),
        peer: "peer".into(),
        delegated,
        source: "record".into(),
        created_at_ms: 1,
    }
}

#[test]
fn policy_counts_of_a_snapshot() {
    let snapshot = TelemetryCollectorSnapshot {
        governance_scope: GovernanceTelemetryScope {
            scope_id: "scope".into(),
            session_id: "s".into(),
            tenant_scope: "tenant".into(),
            risk_tier: "low".into(),
            privacy_level: "internal".into(),
            approval_required: false,
            retention_hours: 24,
            redaction_fields: vec![],
        },
        session_id: "s".into(),
        generated_at_ms: 1,
        exec_spans: vec![],
        latency_samples: vec![latency(100), latency(900), latency(300)],
        retries: vec![retry(2), retry(0), retry(3)],
        guard_hits: vec![],
        breaker_trips: vec![],
        token_costs: vec![],
        delegation_traces: vec![
            delegation("t1", true),
            delegation("t2", true),
            delegation("t1", true),
            delegation("t2", false),
            delegation("t3", true),
            delegation("t3", true),
            delegation("t3", true),
        ],
        unified_trace: vec![],
        branch_collapse: vec![],
        regressions: vec![],
        contradictions: vec![],
        replay_fingerprints: vec![],
        replay_diff_locators: vec![],
        summary: KeyedMap::new(),
    };
    let c = policy_signal_counts(&snapshot);
    assert_eq!(c.latency_p95_ms, 900);
    assert_eq!(c.retries_total, 5);
    assert_eq!(c.breaker_hits, 0);
    assert_eq!(c.delegation_loops, 2);
}
