//! Work orders, revenue recognition, margins and SLA outcomes derived from
//! execution reports.
use vstd::prelude::*;

use crate::keyed::KeyedMap;
use crate::memory::extract::eq_ignore_case;
use crate::orchestration::ExecutionReport;
use crate::text::{chars_of, decimal, lower, push_decimal, push_str, string_of, to_lower};

verus! {

#[derive(Debug, Clone, Copy, PartialEq, Eq, Structural)]
pub enum ServiceTier {
    Basic,
    Standard,
    Premium,
}

#[derive(Debug, Clone, Copy, PartialEq, Eq, Structural)]
pub enum WorkOrderStatus {
    Accepted,
    Delivered,
    Rejected,
    SlaBreached,
}

#[derive(Debug)]
pub struct WorkOrder {
    pub work_order_id: String,
    pub session_id: String,
    pub trace_id: String,
    pub task_id: String,
    pub task_role: String,
    pub capability_id: Option<String>,
    pub service_tier: ServiceTier,
    pub status: WorkOrderStatus,
    pub accepted_at_ms: u64,
    pub delivered_at_ms: Option<u64>,
    pub acceptance_note: String,
}

#[derive(Debug)]
pub struct RevenueEvent {
    pub revenue_event_id: String,
    pub work_order_id: String,
    pub session_id: String,
    pub task_id: String,
    pub service_tier: ServiceTier,
    pub revenue_micros: u64,
    pub cost_micros: u64,
    pub profit_micros: i64,
    pub recognized_at_ms: u64,
    pub source: String,
}

/// Security tasks are premium, execution tasks standard, the rest basic
/// (roles compared without regard to ASCII case).
pub open spec fn service_tier_spec(role: Seq<char>) -> ServiceTier {
    if eq_ignore_case(role, "security"@) {
        ServiceTier::Premium
    } else if eq_ignore_case(role, "execution"@) {
        ServiceTier::Standard
    } else {
        ServiceTier::Basic
    }
}

pub(crate) fn eq_ignore_case_str(a: &String, b: &str) -> (r: bool)
    ensures
        r == eq_ignore_case(a@, b@),
{
    let av = chars_of(a.as_str());
    let la = to_lower(&av);
    let bv = chars_of(b);
    let lb = to_lower(&bv);
    crate::text::chars_eq(&la, &lb)
}

pub fn service_tier_for_report(report: &ExecutionReport) -> (r: ServiceTier)
    ensures
        r == service_tier_spec(report.task.role@),
{
    if eq_ignore_case_str(&report.task.role, "security") {
        ServiceTier::Premium
    } else if eq_ignore_case_str(&report.task.role, "execution") {
        ServiceTier::Standard
    } else {
        ServiceTier::Basic
    }
}

pub open spec fn tier_base_micros(tier: ServiceTier) -> nat {
    match tier {
        ServiceTier::Basic => 6000,
        ServiceTier::Standard => 12000,
        ServiceTier::Premium => 20000,
    }
}

/// Revenue of a task: the tier's base, 800 per positive outcome point, and
/// 2000 more when the run was validated.
pub open spec fn revenue_spec(outcome_score: i32, tier: ServiceTier, validation_ready: bool) -> nat {
    tier_base_micros(tier) + (if outcome_score > 0 {
        outcome_score as nat
    } else {
        0
    }) * 800 + if validation_ready {
        2000nat
    } else {
        0nat
    }
}

pub fn estimate_revenue_micros(report: &ExecutionReport, tier: &ServiceTier, validation_ready: bool) -> (r: u64)
    ensures
        r as nat == revenue_spec(report.outcome_score, *tier, validation_ready),
        r <= 20000 + 2147483647 * 800 + 2000,
{
    let base: u64 = match tier {
        ServiceTier::Basic => 6000,
        ServiceTier::Standard => 12000,
        ServiceTier::Premium => 20000,
    };
    let score: u64 = if report.outcome_score > 0 { report.outcome_score as u64 } else { 0 };
    let outcome_bonus = score * 800;
    let validation_bonus: u64 = if validation_ready { 2000 } else { 0 };
    base + outcome_bonus + validation_bonus
}

/// A blocked or approval-gated task breaches its SLA, as does one whose score
/// is at most the tier's threshold (-1, 0, 1 from basic to premium).
pub open spec fn sla_breach_spec(guard_decision: Seq<char>, outcome_score: i32, tier: ServiceTier) -> bool {
    if eq_ignore_case(guard_decision, "blocked"@) || eq_ignore_case(guard_decision, "requiresapproval"@) {
        true
    } else {
        outcome_score <= match tier {
            ServiceTier::Basic => -1int,
            ServiceTier::Standard => 0int,
            ServiceTier::Premium => 1int,
        }
    }
}

pub fn is_sla_breach(report: &ExecutionReport, tier: &ServiceTier) -> (r: bool)
    ensures
        r == sla_breach_spec(report.guard_decision@, report.outcome_score, *tier),
{
    if eq_ignore_case_str(&report.guard_decision, "blocked") || eq_ignore_case_str(
        &report.guard_decision,
        "requiresapproval",
    ) {
        return true;
    }
    let threshold: i32 = match tier {
        ServiceTier::Basic => -1,
        ServiceTier::Standard => 0,
        ServiceTier::Premium => 1,
    };
    report.outcome_score <= threshold
}

pub fn gross_margin_micros_below_zero(value: i64) -> (r: bool)
    ensures
        r == (value < 0),
{
    value < 0
}

/// The status of a task's work order: rejected when blocked, breached when
/// its SLA is, delivered otherwise.
pub open spec fn work_order_status_spec(guard_decision: Seq<char>, outcome_score: i32, tier: ServiceTier) -> WorkOrderStatus {
    if eq_ignore_case(guard_decision, "blocked"@) {
        WorkOrderStatus::Rejected
    } else if sla_breach_spec(guard_decision, outcome_score, tier) {
        WorkOrderStatus::SlaBreached
    } else {
        WorkOrderStatus::Delivered
    }
}

// ---------------------------------------------------------------------------
// Cost attribution
// ---------------------------------------------------------------------------

/// Total cost charged to `task` in a list of `(task_id, cost)` entries.
pub open spec fn task_cost_sum(costs: Seq<(String, u64)>, task: Seq<char>) -> nat
    decreases costs.len(),
{
    if costs.len() == 0 {
        0
    } else {
        task_cost_sum(costs.drop_last(), task) + if costs.last().0@ == task {
            costs.last().1 as nat
        } else {
            0
        }
    }
}

pub open spec fn has_task(costs: Seq<(String, u64)>, task: Seq<char>) -> bool {
    exists|i: int| 0 <= i < costs.len() && costs[i].0@ == task
}

proof fn lemma_task_cost_sum_prefix(costs: Seq<(String, u64)>, task: Seq<char>, i: int)
    requires
        0 <= i <= costs.len(),
    ensures
        task_cost_sum(costs.subrange(0, i), task) <= task_cost_sum(costs, task),
    decreases costs.len() - i,
{
    if i < costs.len() {
        lemma_task_cost_sum_prefix(costs, task, i + 1);
        assert(costs.subrange(0, i + 1).drop_last() =~= costs.subrange(0, i));
    } else {
        assert(costs.subrange(0, i) =~= costs);
    }
}

/// Sums the costs by task, as the attribution records are summed per task.
pub fn cost_by_task(costs: &Vec<(String, u64)>) -> (r: KeyedMap<u64>)
    requires
        forall|i: int| 0 <= i < costs@.len() ==> task_cost_sum(costs@, #[trigger] costs@[i].0@)
            <= u64::MAX,
    ensures
        forall|k: Seq<char>| #[trigger] r@.contains_key(k) <==> has_task(costs@, k),
        forall|k: Seq<char>| r@.contains_key(k) ==> #[trigger] r@[k] as nat == task_cost_sum(costs@, k),
{
    let mut totals: KeyedMap<u64> = KeyedMap::new();
    let mut i: usize = 0;
    while i < costs.len()
        invariant
            i <= costs.len(),
            forall|j: int| 0 <= j < costs@.len() ==> task_cost_sum(costs@, #[trigger] costs@[j].0@)
                <= u64::MAX,
            forall|k: Seq<char>| #[trigger] totals@.contains_key(k) <==> has_task(
                costs@.subrange(0, i as int),
                k,
            ),
            forall|k: Seq<char>| totals@.contains_key(k) ==> #[trigger] totals@[k] as nat
                == task_cost_sum(costs@.subrange(0, i as int), k),
        decreases costs.len() - i,
    {
        let key = &costs[i].0;
        let amount = costs[i].1;
        let ghost k = key@;
        let ghost pre = costs@.subrange(0, i as int);
        let ghost post = costs@.subrange(0, i + 1);
        assert(post.drop_last() =~= pre);
        proof {
            lemma_task_cost_sum_prefix(costs@, k, i + 1);
            assert(task_cost_sum(post, k) == task_cost_sum(pre, k) + amount);
            if !has_task(pre, k) {
                lemma_no_task_zero(pre, k);
            }
        }
        let previous: u64 = match totals.get(key.as_str()) {
            Some(v) => *v,
            None => 0,
        };
        let next = previous + amount;
        let ghost before = totals@;
        totals.insert(key.clone(), next);
        proof {
            assert forall|q: Seq<char>| #[trigger] totals@.contains_key(q) <==> has_task(post, q) by {
                if has_task(post, q) && q != k {
                    let j = choose|j: int| 0 <= j < post.len() && post[j].0@ == q;
                    assert(j < i);
                    assert(pre[j].0@ == q);
                }
                if has_task(pre, q) {
                    let j = choose|j: int| 0 <= j < pre.len() && pre[j].0@ == q;
                    assert(post[j].0@ == q);
                }
                assert(post[i as int].0@ == k);
            }
            assert forall|q: Seq<char>| totals@.contains_key(q) implies #[trigger] totals@[q] as nat
                == task_cost_sum(post, q) by {
                if q != k {
                    assert(task_cost_sum(post, q) == task_cost_sum(pre, q));
                }
            }
        }
        i = i + 1;
    }
    assert(costs@.subrange(0, costs.len() as int) =~= costs@);
    totals
}

proof fn lemma_no_task_zero(costs: Seq<(String, u64)>, task: Seq<char>)
    requires
        !has_task(costs, task),
    ensures
        task_cost_sum(costs, task) == 0,
    decreases costs.len(),
{
    if costs.len() > 0 {
        assert(!has_task(costs.drop_last(), task)) by {
            if has_task(costs.drop_last(), task) {
                let j = choose|j: int| 0 <= j < costs.drop_last().len() && costs.drop_last()[j].0@ == task;
                assert(costs[j].0@ == task);
            }
        }
        lemma_no_task_zero(costs.drop_last(), task);
        assert(costs.last().0@ != task) by {
            assert(costs[costs.len() - 1].0@ == costs.last().0@);
        }
    }
}

// ---------------------------------------------------------------------------
// The business ledger of a session
// ---------------------------------------------------------------------------

/// Cost charged to a task: its attributed total, else 0.
pub open spec fn charged_cost(costs: Map<Seq<char>, u64>, task: Seq<char>) -> nat {
    if costs.contains_key(task) {
        costs[task] as nat
    } else {
        0
    }
}

pub open spec fn report_tier(r: ExecutionReport) -> ServiceTier {
    service_tier_spec(r.task.role@)
}

pub open spec fn report_revenue(r: ExecutionReport, ready: bool) -> nat {
    revenue_spec(r.outcome_score, report_tier(r), ready)
}

pub open spec fn report_status(r: ExecutionReport) -> WorkOrderStatus {
    work_order_status_spec(r.guard_decision@, r.outcome_score, report_tier(r))
}

pub open spec fn total_revenue(reports: Seq<ExecutionReport>, ready: bool) -> nat
    decreases reports.len(),
{
    if reports.len() == 0 {
        0
    } else {
        total_revenue(reports.drop_last(), ready) + report_revenue(reports.last(), ready)
    }
}

pub open spec fn total_cost(reports: Seq<ExecutionReport>, costs: Map<Seq<char>, u64>) -> nat
    decreases reports.len(),
{
    if reports.len() == 0 {
        0
    } else {
        total_cost(reports.drop_last(), costs) + charged_cost(costs, reports.last().task.task_id@)
    }
}

/// Ids of the tasks whose work order was not delivered, in report order.
pub open spec fn breach_task_ids(reports: Seq<ExecutionReport>) -> Seq<Seq<char>>
    decreases reports.len(),
{
    if reports.len() == 0 {
        Seq::empty()
    } else {
        let rest = breach_task_ids(reports.drop_last());
        if report_status(reports.last()) != WorkOrderStatus::Delivered {
            rest.push(reports.last().task.task_id@)
        } else {
            rest
        }
    }
}

/// Ids of the tasks that cost more than they earned, in report order.
pub open spec fn negative_margin_ids(
    reports: Seq<ExecutionReport>,
    costs: Map<Seq<char>, u64>,
    ready: bool,
) -> Seq<Seq<char>>
    decreases reports.len(),
{
    if reports.len() == 0 {
        Seq::empty()
    } else {
        let rest = negative_margin_ids(reports.drop_last(), costs, ready);
        let r = reports.last();
        if report_revenue(r, ready) < charged_cost(costs, r.task.task_id@) {
            rest.push(r.task.task_id@)
        } else {
            rest
        }
    }
}

pub open spec fn delivered_count(reports: Seq<ExecutionReport>) -> nat
    decreases reports.len(),
{
    if reports.len() == 0 {
        0
    } else {
        delivered_count(reports.drop_last()) + if report_status(reports.last())
            == WorkOrderStatus::Delivered {
            1nat
        } else {
            0nat
        }
    }
}

pub open spec fn opt_text_view(o: Option<String>) -> Option<Seq<char>> {
    match o {
        Some(s) => Some(s@),
        None => None,
    }
}

/// The work order opened and delivered for report `r` at `now`.
pub open spec fn work_order_matches(wo: WorkOrder, session_id: Seq<char>, r: ExecutionReport, now: u64) -> bool {
    &&& wo.work_order_id@ == "wo:"@ + session_id + ":"@ + r.task.task_id@
    &&& wo.session_id@ == session_id
    &&& wo.trace_id@ == "trace:"@ + session_id + ":"@ + r.task.task_id@
    &&& wo.task_id@ == r.task.task_id@
    &&& wo.task_role@ == r.task.role@
    &&& opt_text_view(wo.capability_id) == opt_text_view(r.tool_used)
    &&& wo.service_tier == report_tier(r)
    &&& wo.status == report_status(r)
    &&& wo.accepted_at_ms == now
    &&& wo.delivered_at_ms == Some(now)
    &&& wo.acceptance_note@ == r.guard_decision@
}

/// The revenue recognised for report `r` at `now`: its revenue, its charged
/// cost and their difference.
pub open spec fn revenue_event_matches(
    ev: RevenueEvent,
    session_id: Seq<char>,
    r: ExecutionReport,
    costs: Map<Seq<char>, u64>,
    ready: bool,
    now: u64,
) -> bool {
    &&& ev.revenue_event_id@ == "rev:"@ + session_id + ":"@ + r.task.task_id@
    &&& ev.work_order_id@ == "wo:"@ + session_id + ":"@ + r.task.task_id@
    &&& ev.session_id@ == session_id
    &&& ev.task_id@ == r.task.task_id@
    &&& ev.service_tier == report_tier(r)
    &&& ev.revenue_micros as nat == report_revenue(r, ready)
    &&& ev.cost_micros as nat == charged_cost(costs, r.task.task_id@)
    &&& ev.profit_micros as int == report_revenue(r, ready) - charged_cost(costs, r.task.task_id@)
    &&& ev.recognized_at_ms == now
    &&& ev.source@ == match r.tool_used {
        Some(t) => t@,
        None => "provider"@,
    }
}

/// Every work order ends delivered or breached: the two counts add up to the
/// number of reports.
pub proof fn law_orders_delivered_or_breached(reports: Seq<ExecutionReport>)
    ensures
        delivered_count(reports) + breach_task_ids(reports).len() == reports.len(),
    decreases reports.len(),
{
    if reports.len() > 0 {
        law_orders_delivered_or_breached(reports.drop_last());
    }
}

/// Gross profit is recognised revenue less allocated cost, report by report
/// and in total.
pub proof fn law_profit_is_revenue_less_cost(reports: Seq<ExecutionReport>, costs: Map<Seq<char>, u64>, ready: bool)
    ensures
        total_revenue(reports, ready) - total_cost(reports, costs) == sum_profit(reports, costs, ready),
    decreases reports.len(),
{
    if reports.len() > 0 {
        law_profit_is_revenue_less_cost(reports.drop_last(), costs, ready);
    }
}

/// The sum of the reports' profits (revenue less charged cost).
pub open spec fn sum_profit(reports: Seq<ExecutionReport>, costs: Map<Seq<char>, u64>, ready: bool) -> int
    decreases reports.len(),
{
    if reports.len() == 0 {
        0
    } else {
        sum_profit(reports.drop_last(), costs, ready) + report_revenue(reports.last(), ready) - charged_cost(
            costs,
            reports.last().task.task_id@,
        )
    }
}

/// The revenue of a list of revenue events, added up.
pub open spec fn events_revenue(evs: Seq<RevenueEvent>) -> nat
    decreases evs.len(),
{
    if evs.len() == 0 {
        0
    } else {
        events_revenue(evs.drop_last()) + evs.last().revenue_micros as nat
    }
}

/// The cost of a list of revenue events, added up.
pub open spec fn events_cost(evs: Seq<RevenueEvent>) -> nat
    decreases evs.len(),
{
    if evs.len() == 0 {
        0
    } else {
        events_cost(evs.drop_last()) + evs.last().cost_micros as nat
    }
}

/// Revenue events that match the reports one for one add up to the reports'
/// totals.
proof fn lemma_event_sums(
    evs: Seq<RevenueEvent>,
    session_id: Seq<char>,
    reports: Seq<ExecutionReport>,
    costs: Map<Seq<char>, u64>,
    ready: bool,
    now: u64,
)
    requires
        evs.len() == reports.len(),
        forall|i: int| 0 <= i < reports.len() ==> revenue_event_matches(
            #[trigger] evs[i],
            session_id,
            reports[i],
            costs,
            ready,
            now,
        ),
    ensures
        events_revenue(evs) == total_revenue(reports, ready),
        events_cost(evs) == total_cost(reports, costs),
    decreases reports.len(),
{
    if reports.len() > 0 {
        let n = reports.len() - 1;
        assert forall|i: int| 0 <= i < n implies revenue_event_matches(
            #[trigger] evs.drop_last()[i],
            session_id,
            reports.drop_last()[i],
            costs,
            ready,
            now,
        ) by {
            assert(evs.drop_last()[i] == evs[i]);
            assert(reports.drop_last()[i] == reports[i]);
        }
        lemma_event_sums(evs.drop_last(), session_id, reports.drop_last(), costs, ready, now);
        assert(revenue_event_matches(evs[n], session_id, reports[n], costs, ready, now));
    }
}

/// A blocked task's work order is rejected, and its task is listed among
/// the breaches.
pub proof fn law_blocked_task_is_rejected_and_breached(reports: Seq<ExecutionReport>, i: int)
    requires
        0 <= i < reports.len(),
        eq_ignore_case(reports[i].guard_decision@, "blocked"@),
    ensures
        report_status(reports[i]) == WorkOrderStatus::Rejected,
        breach_task_ids(reports).contains(reports[i].task.task_id@),
    decreases reports.len(),
{
    if i < reports.len() - 1 {
        assert(reports.drop_last()[i] == reports[i]);
        law_blocked_task_is_rejected_and_breached(reports.drop_last(), i);
        let rest = breach_task_ids(reports.drop_last());
        let k = choose|k: int| 0 <= k < rest.len() && rest[k] == reports[i].task.task_id@;
        assert(breach_task_ids(reports)[k] == reports[i].task.task_id@);
    } else {
        assert(reports.last() == reports[i]);
        let b = breach_task_ids(reports);
        assert(b[b.len() - 1] == reports[i].task.task_id@);
    }
}

/// A task that was blocked or held for approval (in any ASCII case)
/// breaches its SLA, whatever its score and tier.
pub proof fn law_blocked_or_gated_task_breaches(guard_decision: Seq<char>, outcome_score: i32, tier: ServiceTier)
    requires
        lower(guard_decision) == "blocked"@ || lower(guard_decision) == "requiresapproval"@,
    ensures
        sla_breach_spec(guard_decision, outcome_score, tier),
{
    reveal_strlit("blocked");
    reveal_strlit("requiresapproval");
    assert(lower("blocked"@) =~= "blocked"@);
    assert(lower("requiresapproval"@) =~= "requiresapproval"@);
}

/// A task neither blocked nor held for approval meets its SLA exactly when
/// its score passes its tier's threshold: above -1 for basic, 0 for
/// standard, 1 for premium.
pub proof fn law_sla_met_above_threshold(guard_decision: Seq<char>, outcome_score: i32, tier: ServiceTier)
    requires
        lower(guard_decision) != "blocked"@,
        lower(guard_decision) != "requiresapproval"@,
    ensures
        !sla_breach_spec(guard_decision, outcome_score, tier) <==> match tier {
            ServiceTier::Basic => outcome_score > -1,
            ServiceTier::Standard => outcome_score > 0,
            ServiceTier::Premium => outcome_score > 1,
        },
{
    reveal_strlit("blocked");
    reveal_strlit("requiresapproval");
    assert(lower("blocked"@) =~= "blocked"@);
    assert(lower("requiresapproval"@) =~= "requiresapproval"@);
}

/// A task held for approval (in any ASCII case) gets a breached work order
/// and is listed among the breaches.
pub proof fn law_gated_task_is_breached(reports: Seq<ExecutionReport>, i: int)
    requires
        0 <= i < reports.len(),
        lower(reports[i].guard_decision@) == "requiresapproval"@,
    ensures
        report_status(reports[i]) == WorkOrderStatus::SlaBreached,
        breach_task_ids(reports).contains(reports[i].task.task_id@),
    decreases reports.len(),
{
    reveal_strlit("blocked");
    reveal_strlit("requiresapproval");
    assert(lower("blocked"@) =~= "blocked"@);
    assert(lower("requiresapproval"@) =~= "requiresapproval"@);
    assert("blocked"@.len() != "requiresapproval"@.len());
    law_blocked_or_gated_task_breaches(reports[i].guard_decision@, reports[i].outcome_score, report_tier(reports[i]));
    if i < reports.len() - 1 {
        assert(reports.drop_last()[i] == reports[i]);
        law_gated_task_is_breached(reports.drop_last(), i);
        let rest = breach_task_ids(reports.drop_last());
        let k = choose|k: int| 0 <= k < rest.len() && rest[k] == reports[i].task.task_id@;
        assert(breach_task_ids(reports)[k] == reports[i].task.task_id@);
    } else {
        assert(reports.last() == reports[i]);
        let b = breach_task_ids(reports);
        assert(b[b.len() - 1] == reports[i].task.task_id@);
    }
}

/// Work orders and revenue of a session, with the totals they add up to.
pub struct BusinessLedger {
    pub work_orders: Vec<WorkOrder>,
    pub revenue_events: Vec<RevenueEvent>,
    pub breach_tasks: Vec<String>,
    pub negative_margin_tasks: Vec<String>,
    pub recognized_revenue_micros: u64,
    pub allocated_cost_micros: u64,
    pub gross_profit_micros: i64,
    pub delivered_orders: usize,
    pub breached_orders: usize,
    /// One line on the session's business risk.
    pub risk_summary: String,
    /// Why an operator's attention is recorded, when it is.
    pub attention: Option<AttentionReason>,
}

/// Why a session's business report asks for an operator's attention.
#[derive(Debug, Clone, Copy, PartialEq, Eq, Structural)]
pub enum AttentionReason {
    /// Some order breached its SLA (or was rejected).
    SlaBreach,
    /// Revenue was recognised at a negative gross margin.
    NegativeMargin,
}

impl AttentionReason {
    /// The reason as the attention record names it.
    pub fn label(&self) -> (r: String)
        ensures
            r@ == match *self {
                AttentionReason::SlaBreach => "sla_breach"@,
                AttentionReason::NegativeMargin => "negative_margin"@,
            },
    {
        match self {
            AttentionReason::SlaBreach => string_of(&chars_of("sla_breach")),
            AttentionReason::NegativeMargin => string_of(&chars_of("negative_margin")),
        }
    }
}

/// An operator's attention is asked for when an order breached, else when
/// the gross margin is negative (revenue recognised and profit below zero).
pub open spec fn attention_spec(breached: nat, revenue: nat, profit: int) -> Option<AttentionReason> {
    if breached > 0 {
        Some(AttentionReason::SlaBreach)
    } else if revenue > 0 && profit < 0 {
        Some(AttentionReason::NegativeMargin)
    } else {
        None
    }
}

/// The risk line: the breaches when there are any, else a negative gross
/// profit, else that risk is within bounds.
pub open spec fn risk_summary_spec(breached: nat, profit: int) -> Seq<char> {
    if breached > 0 {
        "SLA breaches detected on "@ + decimal(breached) + " tasks"@
    } else if profit < 0 {
        "Negative gross profit detected"@
    } else {
        "business risk within target bounds"@
    }
}

/// The key of the operator-attention record written at `now`.
pub open spec fn attention_key_spec(session_id: Seq<char>, now: u64) -> Seq<char> {
    "business:automation:"@ + session_id + ":"@ + decimal(now as nat)
}

/// The key under which the attention record of `session_id` is written at `now`.
pub fn attention_key(session_id: &str, now: u64) -> (r: String)
    ensures
        r@ == attention_key_spec(session_id@, now),
{
    let mut k = chars_of("business:automation:");
    push_str(&mut k, session_id);
    push_str(&mut k, ":");
    push_decimal(&mut k, now);
    string_of(&k)
}

fn risk_summary_exec(breached: usize, profit: i64) -> (r: String)
    ensures
        r@ == risk_summary_spec(breached as nat, profit as int),
{
    if breached > 0 {
        let mut t = chars_of("SLA breaches detected on ");
        push_decimal(&mut t, breached as u64);
        push_str(&mut t, " tasks");
        string_of(&t)
    } else if profit < 0 {
        string_of(&chars_of("Negative gross profit detected"))
    } else {
        string_of(&chars_of("business risk within target bounds"))
    }
}

pub open spec fn string_views(v: Seq<String>) -> Seq<Seq<char>> {
    v.map_values(|s: String| s@)
}

proof fn lemma_cost_le_total(reports: Seq<ExecutionReport>, costs: Map<Seq<char>, u64>, i: int)
    requires
        0 <= i < reports.len(),
    ensures
        charged_cost(costs, reports[i].task.task_id@) <= total_cost(reports, costs),
        total_cost(reports.subrange(0, i), costs) + charged_cost(costs, reports[i].task.task_id@)
            <= total_cost(reports, costs),
    decreases reports.len(),
{
    if i < reports.len() - 1 {
        lemma_cost_le_total(reports.drop_last(), costs, i);
        assert(reports.drop_last().subrange(0, i) =~= reports.subrange(0, i));
    } else {
        assert(reports.drop_last() =~= reports.subrange(0, i));
    }
}

proof fn lemma_revenue_le_total(reports: Seq<ExecutionReport>, ready: bool, i: int)
    requires
        0 <= i < reports.len(),
    ensures
        total_revenue(reports.subrange(0, i), ready) + report_revenue(reports[i], ready)
            <= total_revenue(reports, ready),
    decreases reports.len(),
{
    if i < reports.len() - 1 {
        lemma_revenue_le_total(reports.drop_last(), ready, i);
        assert(reports.drop_last().subrange(0, i) =~= reports.subrange(0, i));
    } else {
        assert(reports.drop_last() =~= reports.subrange(0, i));
    }
}

fn id_text(prefix: &str, session_id: &str, task_id: &String) -> (r: String)
    ensures
        r@ == prefix@ + session_id@ + ":"@ + task_id@,
{
    let mut v = chars_of(prefix);
    push_str(&mut v, session_id);
    push_str(&mut v, ":");
    push_str(&mut v, task_id.as_str());
    string_of(&v)
}

fn copy_opt(o: &Option<String>) -> (r: Option<String>)
    ensures
        opt_text_view(r) == opt_text_view(*o),
{
    match o {
        Some(s) => Some(s.clone()),
        None => None,
    }
}

/// Opens, delivers and prices a work order for every report (see
/// `work_order_matches` and `revenue_event_matches`), and totals them.
pub fn business_ledger(
    session_id: &str,
    reports: &Vec<ExecutionReport>,
    costs: &KeyedMap<u64>,
    validation_ready: bool,
    now: u64,
) -> (r: BusinessLedger)
    requires
        total_revenue(reports@, validation_ready) <= i64::MAX,
        total_cost(reports@, costs@) <= i64::MAX,
    ensures
        r.work_orders@.len() == reports@.len(),
        r.revenue_events@.len() == reports@.len(),
        forall|i: int| 0 <= i < reports@.len() ==> work_order_matches(
            #[trigger] r.work_orders@[i],
            session_id@,
            reports@[i],
            now,
        ),
        forall|i: int| 0 <= i < reports@.len() ==> revenue_event_matches(
            #[trigger] r.revenue_events@[i],
            session_id@,
            reports@[i],
            costs@,
            validation_ready,
            now,
        ),
        string_views(r.breach_tasks@) == breach_task_ids(reports@),
        string_views(r.negative_margin_tasks@) == negative_margin_ids(reports@, costs@, validation_ready),
        r.recognized_revenue_micros as nat == total_revenue(reports@, validation_ready),
        r.allocated_cost_micros as nat == total_cost(reports@, costs@),
        r.gross_profit_micros as int == total_revenue(reports@, validation_ready) - total_cost(
            reports@,
            costs@,
        ),
        r.delivered_orders as nat == delivered_count(reports@),
        r.breached_orders as nat == breach_task_ids(reports@).len(),
        r.delivered_orders + r.breached_orders == reports@.len(),
        r.recognized_revenue_micros as nat == events_revenue(r.revenue_events@),
        r.allocated_cost_micros as nat == events_cost(r.revenue_events@),
        r.gross_profit_micros as int == events_revenue(r.revenue_events@) - events_cost(r.revenue_events@),
        r.risk_summary@ == risk_summary_spec(breach_task_ids(reports@).len(), r.gross_profit_micros as int),
        r.attention == attention_spec(
            breach_task_ids(reports@).len(),
            total_revenue(reports@, validation_ready),
            r.gross_profit_micros as int,
        ),
{
    let mut work_orders: Vec<WorkOrder> = Vec::new();
    let mut revenue_events: Vec<RevenueEvent> = Vec::new();
    let mut breach_tasks: Vec<String> = Vec::new();
    let mut negative_margin_tasks: Vec<String> = Vec::new();
    let mut revenue_total: u64 = 0;
    let mut cost_total: u64 = 0;
    let mut delivered: usize = 0;
    let mut breached: usize = 0;
    let mut i: usize = 0;
    while i < reports.len()
        invariant
            i <= reports@.len(),
            total_revenue(reports@, validation_ready) <= i64::MAX,
            total_cost(reports@, costs@) <= i64::MAX,
            work_orders@.len() == i,
            revenue_events@.len() == i,
            forall|j: int| 0 <= j < i ==> work_order_matches(
                #[trigger] work_orders@[j],
                session_id@,
                reports@[j],
                now,
            ),
            forall|j: int| 0 <= j < i ==> revenue_event_matches(
                #[trigger] revenue_events@[j],
                session_id@,
                reports@[j],
                costs@,
                validation_ready,
                now,
            ),
            string_views(breach_tasks@) == breach_task_ids(reports@.subrange(0, i as int)),
            string_views(negative_margin_tasks@) == negative_margin_ids(
                reports@.subrange(0, i as int),
                costs@,
                validation_ready,
            ),
            revenue_total as nat == total_revenue(reports@.subrange(0, i as int), validation_ready),
            cost_total as nat == total_cost(reports@.subrange(0, i as int), costs@),
            delivered as nat == delivered_count(reports@.subrange(0, i as int)),
            breached as nat == breach_task_ids(reports@.subrange(0, i as int)).len(),
            delivered + breached == i,
        decreases reports.len() - i,
    {
        let report = &reports[i];
        let ghost pre = reports@.subrange(0, i as int);
        let ghost post = reports@.subrange(0, i + 1);
        assert(post.drop_last() =~= pre);
        proof {
            lemma_cost_le_total(reports@, costs@, i as int);
            lemma_revenue_le_total(reports@, validation_ready, i as int);
        }
        let tier = service_tier_for_report(report);
        let cost: u64 = match costs.get(report.task.task_id.as_str()) {
            Some(c) => *c,
            None => 0,
        };
        let revenue = estimate_revenue_micros(report, &tier, validation_ready);
        let profit: i64 = (revenue as i64) - (cost as i64);
        let status = if eq_ignore_case_str(&report.guard_decision, "blocked") {
            WorkOrderStatus::Rejected
        } else if is_sla_breach(report, &tier) {
            WorkOrderStatus::SlaBreached
        } else {
            WorkOrderStatus::Delivered
        };
        let ghost bt = string_views(breach_tasks@);
        let ghost nt = string_views(negative_margin_tasks@);
        if status != WorkOrderStatus::Delivered {
            breach_tasks.push(report.task.task_id.clone());
            breached = breached + 1;
            assert(string_views(breach_tasks@) =~= bt.push(report.task.task_id@));
        } else {
            delivered = delivered + 1;
        }
        if profit < 0 {
            negative_margin_tasks.push(report.task.task_id.clone());
            assert(string_views(negative_margin_tasks@) =~= nt.push(report.task.task_id@));
        }
        let source = match &report.tool_used {
            Some(t) => t.clone(),
            None => string_of(&chars_of("provider")),
        };
        work_orders.push(
            WorkOrder {
                work_order_id: id_text("wo:", session_id, &report.task.task_id),
                session_id: string_of(&chars_of(session_id)),
                trace_id: id_text("trace:", session_id, &report.task.task_id),
                task_id: report.task.task_id.clone(),
                task_role: report.task.role.clone(),
                capability_id: copy_opt(&report.tool_used),
                service_tier: tier,
                status,
                accepted_at_ms: now,
                delivered_at_ms: Some(now),
                acceptance_note: report.guard_decision.clone(),
            },
        );
        revenue_events.push(
            RevenueEvent {
                revenue_event_id: id_text("rev:", session_id, &report.task.task_id),
                work_order_id: id_text("wo:", session_id, &report.task.task_id),
                session_id: string_of(&chars_of(session_id)),
                task_id: report.task.task_id.clone(),
                service_tier: tier,
                revenue_micros: revenue,
                cost_micros: cost,
                profit_micros: profit,
                recognized_at_ms: now,
                source,
            },
        );
        revenue_total = revenue_total + revenue;
        cost_total = cost_total + cost;
        i = i + 1;
    }
    assert(reports@.subrange(0, reports.len() as int) =~= reports@);
    proof {
        lemma_event_sums(revenue_events@, session_id@, reports@, costs@, validation_ready, now);
        law_orders_delivered_or_breached(reports@);
    }
    let gross_profit: i64 = (revenue_total as i64) - (cost_total as i64);
    let risk_summary = risk_summary_exec(breached, gross_profit);
    let attention = if breached > 0 {
        Some(AttentionReason::SlaBreach)
    } else if revenue_total > 0 && gross_profit < 0 {
        Some(AttentionReason::NegativeMargin)
    } else {
        None
    };
    BusinessLedger {
        work_orders,
        revenue_events,
        breach_tasks,
        negative_margin_tasks,
        recognized_revenue_micros: revenue_total,
        allocated_cost_micros: cost_total,
        gross_profit_micros: gross_profit,
        delivered_orders: delivered,
        breached_orders: breached,
        risk_summary,
        attention,
    }
}

} // verus!
