//! What the swarm reports about each executed task.
use vstd::prelude::*;

verus! {

/// A task of the swarm plan.
#[derive(Debug)]
pub struct SwarmTask {
    pub task_id: String,
    pub agent_name: String,
    pub role: String,
    pub objective: String,
    pub depends_on: Vec<String>,
}

/// The outcome of one executed task: the tool it used, its score and the
/// runtime guard's decision.
#[derive(Debug)]
pub struct ExecutionReport {
    pub task: SwarmTask,
    pub output: String,
    pub tool_used: Option<String>,
    pub mcp_server: Option<String>,
    pub invocation_payload: Option<String>,
    pub outcome_score: i32,
    pub route_variant: String,
    pub control_score: i32,
    pub treatment_score: i32,
    pub guard_decision: String,
}

/// The governance scope that telemetry of a session is collected under.
#[derive(Debug)]
pub struct GovernanceTelemetryScope {
    pub scope_id: String,
    pub session_id: String,
    pub tenant_scope: String,
    pub risk_tier: String,
    pub privacy_level: String,
    pub approval_required: bool,
    pub retention_hours: u64,
    pub redaction_fields: Vec<String>,
}

} // verus!
