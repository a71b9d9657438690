//! The observability kernel: its configuration check, the failure forensics
//! and operations summary of a swarm run, the trace it closes with, and the
//! cost and supermemory counts it reports.
use vstd::prelude::*;

use crate::cli::DegradeProfileKind;
use crate::config::{DeploymentConfig, ObservabilityConfig};
use crate::lexical::{sorted_distinct, strictly_sorted};
use crate::memory::extract::eq_ignore_case;
use crate::observability::business::{eq_ignore_case_str, string_views};
use crate::observability::signal_pipeline::{bool_text, bool_text_exec};
use crate::orchestration::{ExecutionReport, SwarmTask};
use crate::text::{chars_of, decimal, ends_with, push_decimal, push_str, string_of};

verus! {

/// A trace record written when a swarm run completes.
#[derive(Debug)]
pub struct TraceEnvelope {
    pub session_id: String,
    pub span_name: String,
    pub level: String,
    pub detail: String,
    pub created_at_ms: u64,
}

/// Which tasks failed, which tools the runtime guard blocked or held for
/// approval, and the failure mode that explains the run.
#[derive(Debug)]
pub struct FailureForensicsRecord {
    pub session_id: String,
    pub failing_tasks: Vec<String>,
    pub blocked_tools: Vec<String>,
    pub approval_gated_tools: Vec<String>,
    pub primary_failure_mode: String,
    pub summary: String,
}

/// How many supermemory records a session holds, by kind.
#[derive(Debug)]
pub struct SupermemoryMetricsRecord {
    pub session_id: String,
    pub ingestion_count: usize,
    pub chunk_count: usize,
    pub atomic_count: usize,
    pub relation_count: usize,
    pub retrieval_hits: usize,
    pub generated_at_ms: u64,
}

/// A readable summary of a swarm run for operators.
#[derive(Debug)]
pub struct OperationsReport {
    pub session_id: String,
    pub session_summary: String,
    pub task_summary: Vec<String>,
    pub capability_summary: Vec<String>,
}

/// The costs attributed to a session and whether the settled spend covers them.
#[derive(Debug)]
pub struct CostReportRecord {
    pub session_id: String,
    pub task_count: usize,
    pub token_cost_micros: u64,
    pub tool_cost_micros: u64,
    pub duration_cost_micros: u64,
    pub total_cost_micros: u64,
    pub reconciliation_ok: bool,
}

/// The cost attributed to one task.
#[derive(Debug, Clone, Copy, PartialEq, Eq, Structural)]
pub struct CostAttribution {
    pub token_cost_micros: u64,
    pub tool_cost_micros: u64,
    pub duration_cost_micros: u64,
    pub total_cost_micros: u64,
}

/// One entry of an account's spend ledger; only settlements count towards
/// reconciliation.
#[derive(Debug, Clone, Copy, PartialEq, Eq, Structural)]
pub struct SpendEntry {
    pub settled: bool,
    pub amount_micros: i64,
}

/// Builds the dashboards and reports of swarm runs.
#[derive(Debug)]
pub struct ObservabilityKernel {
    config: ObservabilityConfig,
    deployment: DeploymentConfig,
}

pub open spec fn task_label(r: ExecutionReport) -> Seq<char> {
    r.task.role@ + ":"@ + r.task.objective@
}

/// Labels (`role:objective`) of the tasks whose outcome score is not positive.
pub open spec fn failing_task_labels(rs: Seq<ExecutionReport>) -> Seq<Seq<char>>
    decreases rs.len(),
{
    if rs.len() == 0 {
        Seq::empty()
    } else {
        let rest = failing_task_labels(rs.drop_last());
        if rs.last().outcome_score <= 0 {
            rest.push(task_label(rs.last()))
        } else {
            rest
        }
    }
}

/// The tools of the reports whose guard decision is `decision` (ignoring ASCII
/// case); reports without a tool are skipped.
pub open spec fn tools_with_decision(rs: Seq<ExecutionReport>, decision: Seq<char>) -> Seq<Seq<char>>
    decreases rs.len(),
{
    if rs.len() == 0 {
        Seq::empty()
    } else {
        let rest = tools_with_decision(rs.drop_last(), decision);
        let r = rs.last();
        if eq_ignore_case(r.guard_decision@, decision) && r.tool_used is Some {
            rest.push(r.tool_used->0@)
        } else {
            rest
        }
    }
}

pub open spec fn failure_mode(blocked: nat, gated: nat, failing: nat) -> Seq<char> {
    if blocked > 0 {
        "runtime-guard-blocked"@
    } else if gated > 0 {
        "approval-gated"@
    } else if failing > 0 {
        "execution-regression"@
    } else {
        "none"@
    }
}

pub open spec fn forensics_summary(mode: Seq<char>, failing: nat, blocked: nat, gated: nat) -> Seq<char> {
    "failure_mode="@ + mode + " failing_tasks="@ + decimal(failing) + " blocked_tools="@ + decimal(
        blocked,
    ) + " approval_gated="@ + decimal(gated)
}

/// The forensics record of `reports` for `session_id`.
pub open spec fn forensics_matches(
    f: FailureForensicsRecord,
    session_id: Seq<char>,
    reports: Seq<ExecutionReport>,
) -> bool {
    let failing = failing_task_labels(reports);
    let blocked = tools_with_decision(reports, "blocked"@);
    let gated = tools_with_decision(reports, "requiresapproval"@);
    let mode = failure_mode(blocked.len(), gated.len(), failing.len());
    &&& f.session_id@ == session_id
    &&& string_views(f.failing_tasks@) == failing
    &&& string_views(f.blocked_tools@) == blocked
    &&& string_views(f.approval_gated_tools@) == gated
    &&& f.primary_failure_mode@ == mode
    &&& f.summary@ == forensics_summary(mode, failing.len(), blocked.len(), gated.len())
}

pub open spec fn task_line(t: SwarmTask) -> Seq<char> {
    t.role@ + " -> "@ + t.objective@
}

pub open spec fn session_summary_text(
    validation_ready: bool,
    verdict: Seq<char>,
    task_count: nat,
    profile: Seq<char>,
) -> Seq<char> {
    "validation_ready="@ + bool_text(validation_ready) + " verifier="@ + verdict + " tasks="@
        + decimal(task_count) + " profile="@ + profile
}

pub open spec fn trace_detail(validation_ready: bool, verifier_score: Seq<char>, profile: Seq<char>) -> Seq<char> {
    "validation_ready="@ + bool_text(validation_ready) + " verifier_score="@ + verifier_score
        + " deployment_profile="@ + profile
}

/// How many of the keys are not `:latest` pointers.
pub open spec fn non_latest_count(keys: Seq<String>) -> nat
    decreases keys.len(),
{
    if keys.len() == 0 {
        0
    } else {
        non_latest_count(keys.drop_last()) + if ends_with(keys.last()@, ":latest"@) {
            0nat
        } else {
            1nat
        }
    }
}

pub open spec fn sat_add_u64(a: u64, b: u64) -> u64 {
    if a + b > u64::MAX {
        u64::MAX
    } else {
        (a + b) as u64
    }
}

/// A column of the attributed costs summed with saturation at `u64::MAX`.
pub open spec fn saturating_total(costs: Seq<CostAttribution>, column: int) -> u64
    decreases costs.len(),
{
    if costs.len() == 0 {
        0
    } else {
        let c = costs.last();
        sat_add_u64(
            saturating_total(costs.drop_last(), column),
            if column == 0 {
                c.token_cost_micros
            } else if column == 1 {
                c.tool_cost_micros
            } else if column == 2 {
                c.duration_cost_micros
            } else {
                c.total_cost_micros
            },
        )
    }
}

/// The settled spend of a ledger; negative settlements count as zero.
pub open spec fn settled_total(ledger: Seq<SpendEntry>) -> nat
    decreases ledger.len(),
{
    if ledger.len() == 0 {
        0
    } else {
        let e = ledger.last();
        settled_total(ledger.drop_last()) + if e.settled && e.amount_micros > 0 {
            e.amount_micros as nat
        } else {
            0nat
        }
    }
}

proof fn lemma_settled_prefix(ledger: Seq<SpendEntry>, i: int)
    requires
        0 <= i <= ledger.len(),
    ensures
        settled_total(ledger.subrange(0, i)) <= settled_total(ledger),
    decreases ledger.len() - i,
{
    if i < ledger.len() {
        lemma_settled_prefix(ledger, i + 1);
        assert(ledger.subrange(0, i + 1).drop_last() =~= ledger.subrange(0, i));
    } else {
        assert(ledger.subrange(0, i) =~= ledger);
    }
}

fn text(s: &str) -> (r: String)
    ensures
        r@ == s@,
{
    string_of(&chars_of(s))
}

/// Counts the keys that are not `:latest` pointers.
pub fn count_non_latest_records(keys: &Vec<String>) -> (r: usize)
    ensures
        r as nat == non_latest_count(keys@),
{
    let suffix = chars_of(":latest");
    let mut n: usize = 0;
    let mut i: usize = 0;
    while i < keys.len()
        invariant
            i <= keys@.len(),
            suffix@ == ":latest"@,
            n as nat == non_latest_count(keys@.subrange(0, i as int)),
            n <= i,
        decreases keys.len() - i,
    {
        assert(keys@.subrange(0, i + 1).drop_last() =~= keys@.subrange(0, i as int));
        let key = chars_of(keys[i].as_str());
        if !crate::text::ends_with_exec(&key, &suffix) {
            n = n + 1;
        }
        i = i + 1;
    }
    assert(keys@.subrange(0, keys.len() as int) =~= keys@);
    n
}

/// The supermemory counts of a session from the keys of its queue, chunk,
/// atomic-memory and relation records (`:latest` pointers are not counted).
pub fn supermemory_metrics(
    session_id: &str,
    queue_keys: &Vec<String>,
    chunk_keys: &Vec<String>,
    atomic_keys: &Vec<String>,
    relation_keys: &Vec<String>,
    retrieval_hits: usize,
    now: u64,
) -> (r: SupermemoryMetricsRecord)
    ensures
        r.session_id@ == session_id@,
        r.ingestion_count as nat == non_latest_count(queue_keys@),
        r.chunk_count as nat == non_latest_count(chunk_keys@),
        r.atomic_count as nat == non_latest_count(atomic_keys@),
        r.relation_count as nat == non_latest_count(relation_keys@),
        r.retrieval_hits == retrieval_hits,
        r.generated_at_ms == now,
{
    SupermemoryMetricsRecord {
        session_id: text(session_id),
        ingestion_count: count_non_latest_records(queue_keys),
        chunk_count: count_non_latest_records(chunk_keys),
        atomic_count: count_non_latest_records(atomic_keys),
        relation_count: count_non_latest_records(relation_keys),
        retrieval_hits,
        generated_at_ms: now,
    }
}

/// Sums the attributed costs column by column, saturating at `u64::MAX`, and
/// checks that the settled spend covers the total.
pub fn cost_report(session_id: &str, costs: &Vec<CostAttribution>, ledger: &Vec<SpendEntry>) -> (r: CostReportRecord)
    requires
        settled_total(ledger@) <= u64::MAX,
    ensures
        r.session_id@ == session_id@,
        r.task_count == costs@.len(),
        r.token_cost_micros == saturating_total(costs@, 0),
        r.tool_cost_micros == saturating_total(costs@, 1),
        r.duration_cost_micros == saturating_total(costs@, 2),
        r.total_cost_micros == saturating_total(costs@, 3),
        r.reconciliation_ok == (settled_total(ledger@) >= saturating_total(costs@, 3)),
{
    let mut token: u64 = 0;
    let mut tool: u64 = 0;
    let mut duration: u64 = 0;
    let mut total: u64 = 0;
    let mut i: usize = 0;
    while i < costs.len()
        invariant
            i <= costs@.len(),
            token == saturating_total(costs@.subrange(0, i as int), 0),
            tool == saturating_total(costs@.subrange(0, i as int), 1),
            duration == saturating_total(costs@.subrange(0, i as int), 2),
            total == saturating_total(costs@.subrange(0, i as int), 3),
        decreases costs.len() - i,
    {
        assert(costs@.subrange(0, i + 1).drop_last() =~= costs@.subrange(0, i as int));
        let c = costs[i];
        token = token.saturating_add(c.token_cost_micros);
        tool = tool.saturating_add(c.tool_cost_micros);
        duration = duration.saturating_add(c.duration_cost_micros);
        total = total.saturating_add(c.total_cost_micros);
        i = i + 1;
    }
    assert(costs@.subrange(0, costs.len() as int) =~= costs@);
    let mut settled: u64 = 0;
    let mut j: usize = 0;
    while j < ledger.len()
        invariant
            j <= ledger@.len(),
            settled_total(ledger@) <= u64::MAX,
            settled as nat == settled_total(ledger@.subrange(0, j as int)),
        decreases ledger.len() - j,
    {
        assert(ledger@.subrange(0, j + 1).drop_last() =~= ledger@.subrange(0, j as int));
        proof {
            lemma_settled_prefix(ledger@, j + 1);
        }
        let e = ledger[j];
        if e.settled && e.amount_micros > 0 {
            settled = settled + (e.amount_micros as u64);
        }
        j = j + 1;
    }
    assert(ledger@.subrange(0, ledger.len() as int) =~= ledger@);
    CostReportRecord {
        session_id: text(session_id),
        task_count: costs.len(),
        token_cost_micros: token,
        tool_cost_micros: tool,
        duration_cost_micros: duration,
        total_cost_micros: total,
        reconciliation_ok: settled >= total,
    }
}

impl ObservabilityKernel {
    pub closed spec fn config(self) -> ObservabilityConfig {
        self.config
    }

    pub closed spec fn profile(self) -> Seq<char> {
        self.deployment.profile@
    }

    pub fn from_config(config: &ObservabilityConfig, deployment: &DeploymentConfig) -> (r: Self)
        ensures
            r.config() == *config,
            r.profile() == deployment.profile@,
    {
        ObservabilityKernel { config: *config, deployment: deployment.duplicate() }
    }

    /// An enabled kernel must keep at least one entry per top-k list.
    pub fn validate(&self) -> (r: Result<(), String>)
        ensures
            r is Ok <==> !(self.config().enabled && self.config().report_top_k == 0),
            r matches Err(m) ==> m@ == "observability.report_top_k must be greater than 0"@,
    {
        if self.config.enabled && self.config.report_top_k == 0 {
            return Err(text("observability.report_top_k must be greater than 0"));
        }
        Ok(())
    }

    /// Failing tasks, blocked and approval-gated tools, and the failure mode
    /// of the run (see `forensics_matches`).
    pub fn failure_forensics(&self, session_id: &str, reports: &Vec<ExecutionReport>) -> (r: FailureForensicsRecord)
        ensures
            forensics_matches(r, session_id@, reports@),
    {
        let mut failing: Vec<String> = Vec::new();
        let mut blocked: Vec<String> = Vec::new();
        let mut gated: Vec<String> = Vec::new();
        let mut i: usize = 0;
        while i < reports.len()
            invariant
                i <= reports@.len(),
                string_views(failing@) == failing_task_labels(reports@.subrange(0, i as int)),
                string_views(blocked@) == tools_with_decision(reports@.subrange(0, i as int), "blocked"@),
                string_views(gated@) == tools_with_decision(
                    reports@.subrange(0, i as int),
                    "requiresapproval"@,
                ),
                failing@.len() <= i,
                blocked@.len() <= i,
                gated@.len() <= i,
            decreases reports.len() - i,
        {
            let report = &reports[i];
            assert(reports@.subrange(0, i + 1).drop_last() =~= reports@.subrange(0, i as int));
            assert(reports@.subrange(0, i + 1).last() == reports@[i as int]);
            let ghost f0 = string_views(failing@);
            let ghost b0 = string_views(blocked@);
            let ghost g0 = string_views(gated@);
            if report.outcome_score <= 0 {
                let mut label = chars_of(report.task.role.as_str());
                push_str(&mut label, ":");
                push_str(&mut label, report.task.objective.as_str());
                failing.push(string_of(&label));
                assert(string_views(failing@) =~= f0.push(task_label(*report)));
            }
            if eq_ignore_case_str(&report.guard_decision, "blocked") {
                if let Some(tool) = &report.tool_used {
                    blocked.push(tool.clone());
                    assert(string_views(blocked@) =~= b0.push(tool@));
                }
            }
            if eq_ignore_case_str(&report.guard_decision, "requiresapproval") {
                if let Some(tool) = &report.tool_used {
                    gated.push(tool.clone());
                    assert(string_views(gated@) =~= g0.push(tool@));
                }
            }
            i = i + 1;
        }
        assert(reports@.subrange(0, reports.len() as int) =~= reports@);
        let mode = if blocked.len() > 0 {
            "runtime-guard-blocked"
        } else if gated.len() > 0 {
            "approval-gated"
        } else if failing.len() > 0 {
            "execution-regression"
        } else {
            "none"
        };
        let mut summary = chars_of("failure_mode=");
        push_str(&mut summary, mode);
        push_str(&mut summary, " failing_tasks=");
        push_decimal(&mut summary, failing.len() as u64);
        push_str(&mut summary, " blocked_tools=");
        push_decimal(&mut summary, blocked.len() as u64);
        push_str(&mut summary, " approval_gated=");
        push_decimal(&mut summary, gated.len() as u64);
        FailureForensicsRecord {
            session_id: text(session_id),
            failing_tasks: failing,
            blocked_tools: blocked,
            approval_gated_tools: gated,
            primary_failure_mode: text(mode),
            summary: string_of(&summary),
        }
    }

    /// The operations summary of a run: its validation, the verifier's
    /// verdict and the task count; one line per task; and the first
    /// `report_top_k` capability lines.
    pub fn operations_report(
        &self,
        session_id: &str,
        validation_ready: bool,
        verdict: &str,
        tasks: &Vec<SwarmTask>,
        capability_lines: &Vec<String>,
    ) -> (r: OperationsReport)
        ensures
            r.session_id@ == session_id@,
            r.session_summary@ == session_summary_text(
                validation_ready,
                verdict@,
                tasks@.len(),
                self.profile(),
            ),
            r.task_summary@.len() == tasks@.len(),
            forall|i: int| 0 <= i < tasks@.len() ==> #[trigger] r.task_summary@[i]@ == task_line(tasks@[i]),
            string_views(r.capability_summary@) == string_views(capability_lines@).take(
                if capability_lines@.len() < self.config().report_top_k {
                    capability_lines@.len() as int
                } else {
                    self.config().report_top_k as int
                },
            ),
    {
        let mut summary = chars_of("validation_ready=");
        let ready = bool_text_exec(validation_ready);
        push_str(&mut summary, ready.as_str());
        push_str(&mut summary, " verifier=");
        push_str(&mut summary, verdict);
        push_str(&mut summary, " tasks=");
        push_decimal(&mut summary, tasks.len() as u64);
        push_str(&mut summary, " profile=");
        push_str(&mut summary, self.deployment.profile.as_str());
        let mut lines: Vec<String> = Vec::new();
        let mut i: usize = 0;
        while i < tasks.len()
            invariant
                i <= tasks@.len(),
                lines@.len() == i,
                forall|j: int| 0 <= j < i ==> #[trigger] lines@[j]@ == task_line(tasks@[j]),
            decreases tasks.len() - i,
        {
            let mut line = chars_of(tasks[i].role.as_str());
            push_str(&mut line, " -> ");
            push_str(&mut line, tasks[i].objective.as_str());
            lines.push(string_of(&line));
            i = i + 1;
        }
        let limit = if capability_lines.len() < self.config.report_top_k {
            capability_lines.len()
        } else {
            self.config.report_top_k
        };
        let mut caps: Vec<String> = Vec::new();
        let mut k: usize = 0;
        while k < limit
            invariant
                k <= limit,
                limit <= capability_lines@.len(),
                string_views(caps@) == string_views(capability_lines@).take(k as int),
            decreases limit - k,
        {
            let ghost c0 = string_views(caps@);
            caps.push(capability_lines[k].clone());
            assert(string_views(caps@) =~= c0.push(capability_lines@[k as int]@));
            assert(string_views(capability_lines@).take(k + 1) =~= string_views(capability_lines@).take(
                k as int,
            ).push(capability_lines@[k as int]@));
            k = k + 1;
        }
        OperationsReport {
            session_id: text(session_id),
            session_summary: string_of(&summary),
            task_summary: lines,
            capability_summary: caps,
        }
    }

    /// The trace that closes a swarm run: `info` when the run was validated,
    /// `warn` otherwise; `verifier_score` is the score already rendered with
    /// two decimals.
    pub fn completion_trace(
        &self,
        session_id: &str,
        validation_ready: bool,
        verifier_score: &str,
        now: u64,
    ) -> (r: TraceEnvelope)
        ensures
            r.session_id@ == session_id@,
            r.span_name@ == "swarm.completed"@,
            r.level@ == (if validation_ready {
                "info"@
            } else {
                "warn"@
            }),
            r.detail@ == trace_detail(validation_ready, verifier_score@, self.profile()),
            r.created_at_ms == now,
    {
        let mut detail = chars_of("validation_ready=");
        let ready = bool_text_exec(validation_ready);
        push_str(&mut detail, ready.as_str());
        push_str(&mut detail, " verifier_score=");
        push_str(&mut detail, verifier_score);
        push_str(&mut detail, " deployment_profile=");
        push_str(&mut detail, self.deployment.profile.as_str());
        TraceEnvelope {
            session_id: text(session_id),
            span_name: text("swarm.completed"),
            level: if validation_ready {
                text("info")
            } else {
                text("warn")
            },
            detail: string_of(&detail),
            created_at_ms: now,
        }
    }
}

// ---------------------------------------------------------------------------
// Route analytics and resilience.
// ---------------------------------------------------------------------------

/// How a run's reports were routed: how many there were, how many took the
/// treatment route and how many the guard did not simply allow, and the first
/// tools and MCP servers by name. The treatment share is `treatment_reports`
/// over `total_reports`.
#[derive(Debug)]
pub struct RouteAnalyticsRecord {
    pub session_id: String,
    pub total_reports: usize,
    pub treatment_reports: usize,
    pub guarded_reports: usize,
    pub top_tools: Vec<String>,
    pub top_servers: Vec<String>,
}

pub open spec fn count_treatment(rs: Seq<ExecutionReport>) -> nat
    decreases rs.len(),
{
    if rs.len() == 0 {
        0
    } else {
        count_treatment(rs.drop_last()) + if rs.last().route_variant@ == "treatment"@ {
            1nat
        } else {
            0nat
        }
    }
}

pub open spec fn count_guarded(rs: Seq<ExecutionReport>) -> nat
    decreases rs.len(),
{
    if rs.len() == 0 {
        0
    } else {
        count_guarded(rs.drop_last()) + if !eq_ignore_case(rs.last().guard_decision@, "allow"@) {
            1nat
        } else {
            0nat
        }
    }
}

pub open spec fn report_tools(rs: Seq<ExecutionReport>) -> Seq<Seq<char>>
    decreases rs.len(),
{
    if rs.len() == 0 {
        Seq::empty()
    } else {
        let r = report_tools(rs.drop_last());
        match rs.last().tool_used {
            Some(t) => r.push(t@),
            None => r,
        }
    }
}

pub open spec fn report_servers(rs: Seq<ExecutionReport>) -> Seq<Seq<char>>
    decreases rs.len(),
{
    if rs.len() == 0 {
        Seq::empty()
    } else {
        let r = report_servers(rs.drop_last());
        match rs.last().mcp_server {
            Some(t) => r.push(t@),
            None => r,
        }
    }
}

/// `r` holds the `k` first of the distinct texts of `items` in text order
/// (all of them when there are fewer).
pub open spec fn first_distinct(r: Seq<Seq<char>>, items: Seq<Seq<char>>, k: nat) -> bool {
    exists|sd: Seq<Seq<char>>|
        #![trigger strictly_sorted(sd)]
        strictly_sorted(sd) && (forall|t: Seq<char>| sd.contains(t) <==> items.contains(t)) && r == if sd.len() <= k {
            sd
        } else {
            sd.take(k as int)
        }
}

fn first_distinct_exec(items: &Vec<String>, k: usize) -> (r: Vec<String>)
    ensures
        first_distinct(string_views(r@), string_views(items@), k as nat),
{
    let mut sd = sorted_distinct(items);
    let ghost sv = string_views(sd@);
    sd.truncate(k);
    proof {
        if sv.len() <= k {
            assert(string_views(sd@) =~= sv);
        } else {
            assert(string_views(sd@) =~= sv.take(k as int));
        }
        assert(strictly_sorted(sv));
    }
    sd
}

impl ObservabilityKernel {
    /// Route analytics of a run's reports (see `RouteAnalyticsRecord`), the
    /// tool and server lists cut to the configured top-k.
    pub fn route_analytics(&self, session_id: &str, reports: &Vec<ExecutionReport>) -> (r: RouteAnalyticsRecord)
        ensures
            r.session_id@ == session_id@,
            r.total_reports == reports@.len(),
            r.treatment_reports == count_treatment(reports@),
            r.guarded_reports == count_guarded(reports@),
            first_distinct(string_views(r.top_tools@), report_tools(reports@), self.config().report_top_k as nat),
            first_distinct(string_views(r.top_servers@), report_servers(reports@), self.config().report_top_k as nat),
    {
        let mut treatment: usize = 0;
        let mut guarded: usize = 0;
        let mut tools: Vec<String> = Vec::new();
        let mut servers: Vec<String> = Vec::new();
        let mut i: usize = 0;
        while i < reports.len()
            invariant
                i <= reports@.len(),
                treatment == count_treatment(reports@.take(i as int)),
                guarded == count_guarded(reports@.take(i as int)),
                treatment <= i,
                guarded <= i,
                string_views(tools@) == report_tools(reports@.take(i as int)),
                string_views(servers@) == report_servers(reports@.take(i as int)),
            decreases reports.len() - i,
        {
            let ghost t1 = reports@.take(i + 1);
            assert(t1.drop_last() =~= reports@.take(i as int));
            assert(t1.last() == reports@[i as int]);
            let rep = &reports[i];
            if crate::text::chars_eq_str(&chars_of(rep.route_variant.as_str()), "treatment") {
                treatment = treatment + 1;
            }
            if !eq_ignore_case_str(&rep.guard_decision, "allow") {
                guarded = guarded + 1;
            }
            match &rep.tool_used {
                Some(t) => {
                    let ghost o0 = string_views(tools@);
                    tools.push(t.clone());
                    assert(string_views(tools@) =~= o0.push(t@));
                },
                None => {},
            }
            match &rep.mcp_server {
                Some(t) => {
                    let ghost o0 = string_views(servers@);
                    servers.push(t.clone());
                    assert(string_views(servers@) =~= o0.push(t@));
                },
                None => {},
            }
            i = i + 1;
        }
        assert(reports@.take(reports@.len() as int) =~= reports@);
        RouteAnalyticsRecord {
            session_id: text(session_id),
            total_reports: reports.len(),
            treatment_reports: treatment,
            guarded_reports: guarded,
            top_tools: first_distinct_exec(&tools, self.config.report_top_k),
            top_servers: first_distinct_exec(&servers, self.config.report_top_k),
        }
    }
}

/// A stored failover of the runtime: when it started, whether it recovered,
/// the degrade profile it ran under, and its time to recover.
#[derive(Debug)]
pub struct FailoverRecord {
    pub started_at_ms: u64,
    pub recovered: bool,
    pub profile: DegradeProfileKind,
    pub mttr_ms: Option<u64>,
}

/// How a run weathered failures: its failovers, how many recovered and how
/// many fell to manual takeover, the mean time to recover, and how many of
/// its execution and security tasks there were and succeeded. The degrade
/// success rate is `recovered_events` over `failover_events`; the key task
/// availability `key_task_successes` over `key_tasks`.
#[derive(Debug)]
pub struct ResilienceReport {
    pub session_id: String,
    pub mttr_ms: Option<u64>,
    pub failover_events: usize,
    pub recovered_events: usize,
    pub manual_takeover_events: usize,
    pub key_tasks: usize,
    pub key_task_successes: usize,
}

pub open spec fn count_recovered(fs: Seq<FailoverRecord>) -> nat
    decreases fs.len(),
{
    if fs.len() == 0 {
        0
    } else {
        count_recovered(fs.drop_last()) + if fs.last().recovered {
            1nat
        } else {
            0nat
        }
    }
}

pub open spec fn count_takeovers(fs: Seq<FailoverRecord>) -> nat
    decreases fs.len(),
{
    if fs.len() == 0 {
        0
    } else {
        count_takeovers(fs.drop_last()) + if fs.last().profile == DegradeProfileKind::ManualTakeover {
            1nat
        } else {
            0nat
        }
    }
}

/// The recovery times recorded, and their number.
pub open spec fn mttr_sum(fs: Seq<FailoverRecord>) -> nat
    decreases fs.len(),
{
    if fs.len() == 0 {
        0
    } else {
        mttr_sum(fs.drop_last()) + match fs.last().mttr_ms {
            Some(m) => m as nat,
            None => 0nat,
        }
    }
}

pub open spec fn mttr_count(fs: Seq<FailoverRecord>) -> nat
    decreases fs.len(),
{
    if fs.len() == 0 {
        0
    } else {
        mttr_count(fs.drop_last()) + if fs.last().mttr_ms is Some {
            1nat
        } else {
            0nat
        }
    }
}

pub open spec fn is_key_task(r: ExecutionReport) -> bool {
    eq_ignore_case(r.task.role@, "execution"@) || eq_ignore_case(r.task.role@, "security"@)
}

pub open spec fn count_key(rs: Seq<ExecutionReport>, successes: bool) -> nat
    decreases rs.len(),
{
    if rs.len() == 0 {
        0
    } else {
        count_key(rs.drop_last(), successes) + if is_key_task(rs.last()) && (!successes || rs.last().outcome_score
            > 0) {
            1nat
        } else {
            0nat
        }
    }
}

proof fn lemma_mttr_bounds(fs: Seq<FailoverRecord>)
    ensures
        mttr_count(fs) <= fs.len(),
        count_recovered(fs) <= fs.len(),
        count_takeovers(fs) <= fs.len(),
    decreases fs.len(),
{
    if fs.len() > 0 {
        lemma_mttr_bounds(fs.drop_last());
    }
}

proof fn lemma_mttr_sum_mono(fs: Seq<FailoverRecord>, i: int)
    requires
        0 <= i <= fs.len(),
    ensures
        mttr_sum(fs.take(i)) <= mttr_sum(fs),
    decreases fs.len() - i,
{
    if i < fs.len() {
        lemma_mttr_sum_mono(fs, i + 1);
        assert(fs.take(i + 1).drop_last() =~= fs.take(i));
    } else {
        assert(fs.take(i) =~= fs);
    }
}

proof fn lemma_key_bounds(rs: Seq<ExecutionReport>, s: bool)
    ensures
        count_key(rs, s) <= rs.len(),
    decreases rs.len(),
{
    if rs.len() > 0 {
        lemma_key_bounds(rs.drop_last(), s);
    }
}

impl ObservabilityKernel {
    /// The resilience of a run (see `ResilienceReport`): `failovers` are the
    /// failovers stored for the session, as read. The mean time to recover is
    /// the floor of the mean of the recorded times, none when none is recorded.
    pub fn resilience_report(
        &self,
        session_id: &str,
        failovers: &Vec<FailoverRecord>,
        reports: &Vec<ExecutionReport>,
    ) -> (r: ResilienceReport)
        requires
            mttr_sum(failovers@) <= u64::MAX,
        ensures
            r.session_id@ == session_id@,
            r.failover_events == failovers@.len(),
            r.recovered_events == count_recovered(failovers@),
            r.manual_takeover_events == count_takeovers(failovers@),
            r.mttr_ms == if mttr_count(failovers@) == 0 {
                None::<u64>
            } else {
                Some((mttr_sum(failovers@) / mttr_count(failovers@)) as u64)
            },
            r.key_tasks == count_key(reports@, false),
            r.key_task_successes == count_key(reports@, true),
    {
        let mut recovered: usize = 0;
        let mut takeovers: usize = 0;
        let mut sum: u64 = 0;
        let mut count: u64 = 0;
        let mut i: usize = 0;
        while i < failovers.len()
            invariant
                i <= failovers@.len(),
                mttr_sum(failovers@) <= u64::MAX,
                recovered == count_recovered(failovers@.take(i as int)),
                takeovers == count_takeovers(failovers@.take(i as int)),
                sum == mttr_sum(failovers@.take(i as int)),
                count == mttr_count(failovers@.take(i as int)),
            decreases failovers.len() - i,
        {
            let ghost t1 = failovers@.take(i + 1);
            assert(t1.drop_last() =~= failovers@.take(i as int));
            assert(t1.last() == failovers@[i as int]);
            proof {
                lemma_mttr_bounds(failovers@.take(i as int));
                lemma_mttr_sum_mono(failovers@, i + 1);
            }
            let f = &failovers[i];
            if f.recovered {
                recovered = recovered + 1;
            }
            match f.profile {
                DegradeProfileKind::ManualTakeover => {
                    takeovers = takeovers + 1;
                },
                _ => {},
            }
            match f.mttr_ms {
                Some(m) => {
                    sum = sum + m;
                    count = count + 1;
                },
                None => {},
            }
            i = i + 1;
        }
        assert(failovers@.take(failovers@.len() as int) =~= failovers@);
        let mttr = if count == 0 {
            None
        } else {
            Some(sum / count)
        };
        let mut key_tasks: usize = 0;
        let mut key_successes: usize = 0;
        let mut j: usize = 0;
        while j < reports.len()
            invariant
                j <= reports@.len(),
                key_tasks == count_key(reports@.take(j as int), false),
                key_successes == count_key(reports@.take(j as int), true),
            decreases reports.len() - j,
        {
            let ghost t1 = reports@.take(j + 1);
            assert(t1.drop_last() =~= reports@.take(j as int));
            assert(t1.last() == reports@[j as int]);
            proof {
                lemma_key_bounds(reports@.take(j as int), false);
                lemma_key_bounds(reports@.take(j as int), true);
            }
            let rep = &reports[j];
            let key = eq_ignore_case_str(&rep.task.role, "execution") || eq_ignore_case_str(&rep.task.role, "security");
            if key {
                key_tasks = key_tasks + 1;
                if rep.outcome_score > 0 {
                    key_successes = key_successes + 1;
                }
            }
            j = j + 1;
        }
        assert(reports@.take(reports@.len() as int) =~= reports@);
        ResilienceReport {
            session_id: text(session_id),
            mttr_ms: mttr,
            failover_events: failovers.len(),
            recovered_events: recovered,
            manual_takeover_events: takeovers,
            key_tasks,
            key_task_successes: key_successes,
        }
    }
}

} // verus!
