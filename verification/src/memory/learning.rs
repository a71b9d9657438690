//! The learning loop's rules: which learning signals may write to memory,
//! how a proposal is drafted, how a skill is promoted behind a gate verdict
//! and rolled back, and which strategy-memory tier each step lands in.
//! Confidences are `f32` values held as their IEEE-754 bits.
use vstd::prelude::*;

use crate::keyed::KeyedMap;
use crate::memory::context::{normalize, normalize_spec, MemorySubsystem};
use crate::text::{chars_of, contains, contains_str, decimal, lower, push_decimal, push_str, replace_all,
    replace_all_exec, string_of, to_lower, trim, trimmed, chars_eq};

verus! {

/// `0.45_f32`, the least confidence a promoted skill keeps.
pub const CANARY_FLOOR_BITS: u32 = 0x3ee6_6666;

/// `0.82_f32`, the most confidence a promoted skill keeps.
pub const CANARY_CEILING_BITS: u32 = 0x3f51_eb85;

/// `0.72_f32`, the confidence of a proposal drafted from a confident answer.
pub const DRAFT_CONFIDENCE_BITS: u32 = 0x3f38_51ec;

/// `1.0_f32`.
pub const ONE_BITS: u32 = 0x3f80_0000;

// ---------------------------------------------------------------------------
// Confidences as f32 bits.
// ---------------------------------------------------------------------------

/// The bits are those of a NaN.
pub open spec fn is_nan_bits(b: u32) -> bool {
    (b / 0x80_0000) % 0x100 == 0xff && b % 0x80_0000 != 0
}

/// The position of a non-NaN `f32` in the number order: its magnitude bits,
/// negated for a negative sign (so both zeros sit at 0).
pub open spec fn order_key(b: u32) -> int {
    if b < 0x8000_0000 {
        b as int
    } else {
        -((b - 0x8000_0000) as int)
    }
}

/// `f32::clamp(x, lo, hi)` on bits, for `lo <= hi` not NaN: a NaN stays,
/// below `lo` gives `lo`, above `hi` gives `hi`, anything else stays.
pub open spec fn clamp_bits(x: u32, lo: u32, hi: u32) -> u32 {
    if is_nan_bits(x) {
        x
    } else if order_key(x) < order_key(lo) {
        lo
    } else if order_key(x) > order_key(hi) {
        hi
    } else {
        x
    }
}

fn is_nan_exec(b: u32) -> (r: bool)
    ensures
        r == is_nan_bits(b),
{
    (b / 0x80_0000) % 0x100 == 0xff && b % 0x80_0000 != 0
}

/// Compares two non-NaN `f32`s given as bits: `a < b`.
fn less_bits(a: u32, b: u32) -> (r: bool)
    ensures
        r == (order_key(a) < order_key(b)),
{
    let an = a >= 0x8000_0000;
    let bn = b >= 0x8000_0000;
    if !an && !bn {
        a < b
    } else if an && bn {
        a - 0x8000_0000 > b - 0x8000_0000
    } else if an {
        !(a == 0x8000_0000 && b == 0)
    } else {
        false
    }
}

/// `f32::clamp` on bits (see `clamp_bits`).
pub fn clamp_confidence(x: u32, lo: u32, hi: u32) -> (r: u32)
    requires
        !is_nan_bits(lo),
        !is_nan_bits(hi),
        order_key(lo) <= order_key(hi),
    ensures
        r == clamp_bits(x, lo, hi),
{
    if is_nan_exec(x) {
        x
    } else if less_bits(x, lo) {
        lo
    } else if less_bits(hi, x) {
        hi
    } else {
        x
    }
}

// ---------------------------------------------------------------------------
// Learning signals.
// ---------------------------------------------------------------------------

/// What licenses a write to learning memory: the session and trace it comes
/// from, its source, and a reference to the evidence behind it.
#[derive(Debug)]
pub struct LearningSignal {
    pub signal_id: String,
    pub session_id: String,
    pub trace_id: String,
    pub source: String,
    pub evidence_ref: String,
    pub metadata: KeyedMap<String>,
}

/// Why a learning signal was refused.
#[derive(Debug, Clone, Copy, PartialEq, Eq, Structural)]
pub enum SignalRejectReason {
    SessionMismatch,
    MissingEvidenceRef,
}

/// The audit record of a refused learning signal.
#[derive(Debug)]
pub struct LearningSignalRejectRecord {
    pub reject_id: String,
    pub session_id: String,
    pub trace_id: String,
    pub source: String,
    pub target: String,
    pub reason: String,
    pub evidence_ref: Option<String>,
    pub created_at_ms: u64,
}

/// A refused learning signal: why, the audit record to store under `key`,
/// and the error the write fails with.
#[derive(Debug)]
pub struct SignalRejection {
    pub reason: SignalRejectReason,
    pub key: String,
    pub record: LearningSignalRejectRecord,
    pub message: String,
}

pub open spec fn reason_code(r: SignalRejectReason) -> Seq<char> {
    match r {
        SignalRejectReason::SessionMismatch => "learning_signal.session_id_mismatch"@,
        SignalRejectReason::MissingEvidenceRef => "learning_signal.missing_evidence_ref"@,
    }
}

/// The reason a signal is refused for a write in session `expected`, if it is:
/// its session differs (both trimmed), else its evidence reference is blank.
pub open spec fn signal_verdict(s: LearningSignal, expected: Seq<char>) -> Option<SignalRejectReason> {
    if trim(s.session_id@) != trim(expected) {
        Some(SignalRejectReason::SessionMismatch)
    } else if trim(s.evidence_ref@).len() == 0 {
        Some(SignalRejectReason::MissingEvidenceRef)
    } else {
        None
    }
}

/// The id of an audit record made at `now` for a write to `target`.
pub open spec fn reject_id_spec(session: Seq<char>, now: u64, target: Seq<char>) -> Seq<char> {
    "learning-signal-reject:"@ + session + ":"@ + decimal(now as nat) + ":"@ + normalize_spec(target)
}

/// The error a refused write fails with.
pub open spec fn reject_message(reason: SignalRejectReason, s: LearningSignal, expected: Seq<char>, target: Seq<char>) -> Seq<char> {
    match reason {
        SignalRejectReason::SessionMismatch => "learning signal rejected for `"@ + target
            + "`: session mismatch (expected="@ + expected + ", actual="@ + s.session_id@ + ")"@,
        SignalRejectReason::MissingEvidenceRef => "learning signal rejected for `"@ + target
            + "`: evidence_ref is required"@,
    }
}

/// The refusal of signal `s` for a write to `target` in session `expected` at `now`.
pub open spec fn rejection_matches(
    j: SignalRejection,
    reason: SignalRejectReason,
    s: LearningSignal,
    expected: Seq<char>,
    target: Seq<char>,
    now: u64,
) -> bool {
    let id = reject_id_spec(expected, now, target);
    &&& j.reason == reason
    &&& j.record.reject_id@ == id
    &&& j.key@ == "evidence:memory:"@ + expected + ":learning-signal-reject:"@ + id
    &&& j.record.session_id@ == expected
    &&& j.record.trace_id@ == s.trace_id@
    &&& j.record.source@ == s.source@
    &&& j.record.target@ == target
    &&& j.record.reason@ == reason_code(reason)
    &&& crate::observability::signal::opt_view(j.record.evidence_ref) == match reason {
        SignalRejectReason::SessionMismatch => Some(s.evidence_ref@),
        SignalRejectReason::MissingEvidenceRef => None,
    }
    &&& j.record.created_at_ms == now
    &&& j.message@ == reject_message(reason, s, expected, target)
}

fn text(s: &str) -> (r: String)
    ensures
        r@ == s@,
{
    string_of(&chars_of(s))
}

/// Checks a learning signal before a write to `target` in session
/// `expected_session_id` (see `signal_verdict`); a refusal carries the audit
/// record stamped `now` and the error message.
pub fn validate_learning_signal_at(
    signal: &LearningSignal,
    expected_session_id: &str,
    target: &str,
    now: u64,
) -> (r: Result<(), SignalRejection>)
    ensures
        r is Ok <==> signal_verdict(*signal, expected_session_id@) is None,
        r matches Err(j) ==> rejection_matches(
            j,
            signal_verdict(*signal, expected_session_id@).unwrap(),
            *signal,
            expected_session_id@,
            target@,
            now,
        ),
{
    let a = trimmed(&chars_of(signal.session_id.as_str()));
    let b = trimmed(&chars_of(expected_session_id));
    let reason = if !chars_eq(&a, &b) {
        SignalRejectReason::SessionMismatch
    } else if trimmed(&chars_of(signal.evidence_ref.as_str())).len() == 0 {
        SignalRejectReason::MissingEvidenceRef
    } else {
        return Ok(());
    };
    let mut id = chars_of("learning-signal-reject:");
    push_str(&mut id, expected_session_id);
    push_str(&mut id, ":");
    push_decimal(&mut id, now);
    push_str(&mut id, ":");
    let nt = normalize(target);
    push_str(&mut id, nt.as_str());
    let mut key = chars_of("evidence:memory:");
    push_str(&mut key, expected_session_id);
    push_str(&mut key, ":learning-signal-reject:");
    crate::text::push_all(&mut key, &id);
    let (code, evidence, message) = match reason {
        SignalRejectReason::SessionMismatch => {
            let mut m = chars_of("learning signal rejected for `");
            push_str(&mut m, target);
            push_str(&mut m, "`: session mismatch (expected=");
            push_str(&mut m, expected_session_id);
            push_str(&mut m, ", actual=");
            push_str(&mut m, signal.session_id.as_str());
            push_str(&mut m, ")");
            (text("learning_signal.session_id_mismatch"), Some(signal.evidence_ref.clone()), string_of(&m))
        },
        SignalRejectReason::MissingEvidenceRef => {
            let mut m = chars_of("learning signal rejected for `");
            push_str(&mut m, target);
            push_str(&mut m, "`: evidence_ref is required");
            (text("learning_signal.missing_evidence_ref"), None, string_of(&m))
        },
    };
    Err(
        SignalRejection {
            reason,
            key: string_of(&key),
            record: LearningSignalRejectRecord {
                reject_id: string_of(&id),
                session_id: text(expected_session_id),
                trace_id: signal.trace_id.clone(),
                source: signal.source.clone(),
                target: text(target),
                reason: code,
                evidence_ref: evidence,
                created_at_ms: now,
            },
            message,
        },
    )
}

// ---------------------------------------------------------------------------
// Strategy memory tiers.
// ---------------------------------------------------------------------------

/// How settled a piece of strategy memory is.
#[derive(Debug, Clone, Copy, PartialEq, Eq, Structural)]
pub enum StrategyMemoryTier {
    HotSession,
    WarmValidated,
    ColdArchive,
}

pub open spec fn tier_name(t: StrategyMemoryTier) -> Seq<char> {
    match t {
        StrategyMemoryTier::HotSession => "hot"@,
        StrategyMemoryTier::WarmValidated => "warm"@,
        StrategyMemoryTier::ColdArchive => "cold"@,
    }
}

/// Where strategy memory of a tier is stored for `key`.
pub open spec fn strategy_key_spec(t: StrategyMemoryTier, session: Seq<char>, key: Seq<char>) -> Seq<char> {
    "memory:strategy:"@ + tier_name(t) + ":"@ + session + ":"@ + normalize_spec(key)
}

/// The store key of strategy memory of tier `tier` for `key`.
pub fn strategy_memory_key(tier: StrategyMemoryTier, session_id: &str, key: &str) -> (r: String)
    ensures
        r@ == strategy_key_spec(tier, session_id@, key@),
{
    let mut out = chars_of("memory:strategy:");
    match tier {
        StrategyMemoryTier::HotSession => push_str(&mut out, "hot"),
        StrategyMemoryTier::WarmValidated => push_str(&mut out, "warm"),
        StrategyMemoryTier::ColdArchive => push_str(&mut out, "cold"),
    }
    push_str(&mut out, ":");
    push_str(&mut out, session_id);
    push_str(&mut out, ":");
    let n = normalize(key);
    push_str(&mut out, n.as_str());
    string_of(&out)
}

/// Checks the signal for a strategy-memory write and gives the key to write
/// under (see `strategy_key_spec`).
pub fn plan_strategy_memory_write_at(
    session_id: &str,
    tier: StrategyMemoryTier,
    key: &str,
    signal: &LearningSignal,
    now: u64,
) -> (r: Result<String, SignalRejection>)
    ensures
        r is Ok <==> signal_verdict(*signal, session_id@) is None,
        r matches Ok(k) ==> k@ == strategy_key_spec(tier, session_id@, key@),
        r matches Err(j) ==> rejection_matches(
            j,
            signal_verdict(*signal, session_id@).unwrap(),
            *signal,
            session_id@,
            "mutable_memory_ledger.persist_strategy_memory_tier"@,
            now,
        ),
{
    match validate_learning_signal_at(signal, session_id, "mutable_memory_ledger.persist_strategy_memory_tier", now) {
        Err(j) => Err(j),
        Ok(()) => Ok(strategy_memory_key(tier, session_id, key)),
    }
}

// ---------------------------------------------------------------------------
// Proposals and skill promotion.
// ---------------------------------------------------------------------------

/// A learned procedure and how far it is trusted.
#[derive(Debug)]
pub struct SkillRecord {
    pub name: String,
    pub trigger: String,
    pub procedure: String,
    pub confidence_bits: u32,
}

/// A proposal to learn a skill from an anchor.
#[derive(Debug)]
pub struct LearningProposal {
    pub proposal_id: String,
    pub session_id: String,
    pub anchor: String,
    pub hypothesis: String,
    pub reason: String,
    pub proposed_skill_name: String,
    pub proposed_confidence_bits: u32,
    pub created_at_ms: u64,
}

/// The learning gate's verdict on a proposal.
#[derive(Debug)]
pub struct LearningGateVerdict {
    pub approved: bool,
    pub reason: String,
    pub canary_ratio_bits: u32,
    pub rollback_window_ms: u64,
    pub risk_tags: Vec<String>,
    pub created_at_ms: u64,
}

/// Where a skill stands in its promotion.
#[derive(Debug, Clone, Copy, PartialEq, Eq, Structural)]
pub enum SkillPromotionStage {
    Canary,
    Promoted,
    Rejected,
    RolledBack,
}

/// One step of a skill's promotion.
#[derive(Debug)]
pub struct SkillPromotionRecord {
    pub promotion_id: String,
    pub proposal_id: String,
    pub session_id: String,
    pub skill_name: String,
    pub stage: SkillPromotionStage,
    pub reason: String,
    pub confidence_bits: u32,
    pub created_at_ms: u64,
}

/// The writes a promotion step makes: the skill to store (if any), the
/// promotion record and its key, and the strategy-memory tier it lands in.
#[derive(Debug)]
pub struct PromotionPlan {
    pub skill: Option<SkillRecord>,
    pub record: SkillPromotionRecord,
    pub record_key: String,
    pub tier: StrategyMemoryTier,
    pub tier_key: String,
}

/// The key a proposal's anchor is filed under: normalised, spaces as dashes.
pub open spec fn anchor_key_spec(anchor: Seq<char>) -> Seq<char> {
    replace_all(normalize_spec(anchor), " "@, "-"@)
}

/// The proposal drafted at `now` for `anchor`; an answer that says it is
/// "not sure" proposes confidence 0.45, any other 0.72.
pub open spec fn proposal_matches(
    p: LearningProposal,
    session: Seq<char>,
    anchor: Seq<char>,
    reason: Seq<char>,
    response: Seq<char>,
    now: u64,
) -> bool {
    let k = anchor_key_spec(anchor);
    &&& p.proposal_id@ == session + ":"@ + k + ":"@ + decimal(now as nat)
    &&& p.session_id@ == session
    &&& p.anchor@ == anchor
    &&& p.hypothesis@ == "If we improve '"@ + anchor
        + "' using anchored evidence, response quality should increase without violating safety."@
    &&& p.reason@ == reason
    &&& p.proposed_skill_name@ == "skill-"@ + k
    &&& p.proposed_confidence_bits == if contains(lower(response), "not sure"@) {
        CANARY_FLOOR_BITS
    } else {
        DRAFT_CONFIDENCE_BITS
    }
    &&& p.created_at_ms == now
}

/// Drafts the proposal to learn from `anchor` (see `proposal_matches`).
pub fn draft_learning_proposal_at(
    session_id: &str,
    anchor: &str,
    reason: &str,
    assistant_response: &str,
    now: u64,
) -> (r: LearningProposal)
    ensures
        proposal_matches(r, session_id@, anchor@, reason@, assistant_response@, now),
{
    let n = normalize(anchor);
    let k = replace_all_exec(&chars_of(n.as_str()), " ", "-");
    let mut id = chars_of(session_id);
    push_str(&mut id, ":");
    crate::text::push_all(&mut id, &k);
    push_str(&mut id, ":");
    push_decimal(&mut id, now);
    let mut hypothesis = chars_of("If we improve '");
    push_str(&mut hypothesis, anchor);
    push_str(&mut hypothesis, "' using anchored evidence, response quality should increase without violating safety.");
    let mut skill = chars_of("skill-");
    crate::text::push_all(&mut skill, &k);
    let unsure = contains_str(&to_lower(&chars_of(assistant_response)), "not sure");
    LearningProposal {
        proposal_id: string_of(&id),
        session_id: text(session_id),
        anchor: text(anchor),
        hypothesis: string_of(&hypothesis),
        reason: text(reason),
        proposed_skill_name: string_of(&skill),
        proposed_confidence_bits: if unsure {
            CANARY_FLOOR_BITS
        } else {
            DRAFT_CONFIDENCE_BITS
        },
        created_at_ms: now,
    }
}

/// The key a promotion record is stored under.
pub open spec fn promotion_key_spec(session: Seq<char>, promotion_id: Seq<char>) -> Seq<char> {
    "memory:"@ + session + ":skill-promotion:"@ + promotion_id
}

/// The promotion step a verdict gives at `now`: an approved candidate goes to
/// canary with its confidence clamped to [0.45, 0.82] and is stored; a
/// refused one is rejected with confidence 0 and not stored. Canary lands in
/// warm strategy memory, rejection in cold.
pub open spec fn promotion_matches(
    r: PromotionPlan,
    p: LearningProposal,
    v: LearningGateVerdict,
    c: SkillRecord,
    now: u64,
) -> bool {
    let id = "promotion:"@ + p.session_id@ + ":"@ + normalize_spec(c.name@) + ":"@ + decimal(now as nat);
    let conf = if v.approved {
        clamp_bits(c.confidence_bits, CANARY_FLOOR_BITS, CANARY_CEILING_BITS)
    } else {
        0
    };
    let stage = if v.approved {
        SkillPromotionStage::Canary
    } else {
        SkillPromotionStage::Rejected
    };
    let tier = if v.approved {
        StrategyMemoryTier::WarmValidated
    } else {
        StrategyMemoryTier::ColdArchive
    };
    &&& r.record.promotion_id@ == id
    &&& r.record.proposal_id@ == p.proposal_id@
    &&& r.record.session_id@ == p.session_id@
    &&& r.record.skill_name@ == c.name@
    &&& r.record.stage == stage
    &&& r.record.reason@ == v.reason@
    &&& r.record.confidence_bits == conf
    &&& r.record.created_at_ms == now
    &&& r.record_key@ == promotion_key_spec(p.session_id@, id)
    &&& r.tier == tier
    &&& r.tier_key@ == strategy_key_spec(tier, p.session_id@, id)
    &&& (r.skill is Some <==> v.approved)
    &&& r.skill matches Some(k) ==> k.name@ == c.name@ && k.trigger@ == c.trigger@ && k.procedure@ == c.procedure@
        && k.confidence_bits == conf
}

/// Plans the promotion of `candidate` behind `verdict` at `now` (see
/// `promotion_matches`), after checking the learning signal for the
/// proposal's session; the later writes of the step check the same signal
/// for the same session, so they pass with it.
pub fn promote_skill_with_verdict_at(
    proposal: &LearningProposal,
    verdict: &LearningGateVerdict,
    candidate: &SkillRecord,
    signal: &LearningSignal,
    now: u64,
) -> (r: Result<PromotionPlan, SignalRejection>)
    ensures
        r is Ok <==> signal_verdict(*signal, proposal.session_id@) is None,
        r matches Ok(plan) ==> promotion_matches(plan, *proposal, *verdict, *candidate, now),
        r matches Err(j) ==> rejection_matches(
            j,
            signal_verdict(*signal, proposal.session_id@).unwrap(),
            *signal,
            proposal.session_id@,
            "skill_registry.promote_skill_with_verdict"@,
            now,
        ),
{
    match validate_learning_signal_at(
        signal,
        proposal.session_id.as_str(),
        "skill_registry.promote_skill_with_verdict",
        now,
    ) {
        Err(j) => {
            return Err(j);
        },
        Ok(()) => {},
    }
    let stage = if verdict.approved {
        SkillPromotionStage::Canary
    } else {
        SkillPromotionStage::Rejected
    };
    let confidence = if verdict.approved {
        clamp_confidence(candidate.confidence_bits, CANARY_FLOOR_BITS, CANARY_CEILING_BITS)
    } else {
        0
    };
    let skill = if verdict.approved {
        Some(
            SkillRecord {
                name: candidate.name.clone(),
                trigger: candidate.trigger.clone(),
                procedure: candidate.procedure.clone(),
                confidence_bits: confidence,
            },
        )
    } else {
        None
    };
    let mut id = chars_of("promotion:");
    push_str(&mut id, proposal.session_id.as_str());
    push_str(&mut id, ":");
    let nn = normalize(candidate.name.as_str());
    push_str(&mut id, nn.as_str());
    push_str(&mut id, ":");
    push_decimal(&mut id, now);
    let promotion_id = string_of(&id);
    let mut key = chars_of("memory:");
    push_str(&mut key, proposal.session_id.as_str());
    push_str(&mut key, ":skill-promotion:");
    push_str(&mut key, promotion_id.as_str());
    let tier = if verdict.approved {
        StrategyMemoryTier::WarmValidated
    } else {
        StrategyMemoryTier::ColdArchive
    };
    let tier_key = strategy_memory_key(tier, proposal.session_id.as_str(), promotion_id.as_str());
    Ok(
        PromotionPlan {
            skill,
            record: SkillPromotionRecord {
                promotion_id,
                proposal_id: proposal.proposal_id.clone(),
                session_id: proposal.session_id.clone(),
                skill_name: candidate.name.clone(),
                stage,
                reason: verdict.reason.clone(),
                confidence_bits: confidence,
                created_at_ms: now,
            },
            record_key: string_of(&key),
            tier,
            tier_key,
        },
    )
}

/// The rollback of promotion `p` at `now`: the same promotion, rolled back
/// with the given reason and confidence 0, archived cold, and its skill
/// stored as retired (trigger `rolled-back`, confidence 0).
pub open spec fn rollback_matches(
    r: PromotionPlan,
    session: Seq<char>,
    p: SkillPromotionRecord,
    reason: Seq<char>,
    now: u64,
) -> bool {
    &&& r.record.promotion_id@ == p.promotion_id@
    &&& r.record.proposal_id@ == p.proposal_id@
    &&& r.record.session_id@ == p.session_id@
    &&& r.record.skill_name@ == p.skill_name@
    &&& r.record.stage == SkillPromotionStage::RolledBack
    &&& r.record.reason@ == reason
    &&& r.record.confidence_bits == 0
    &&& r.record.created_at_ms == now
    &&& r.record_key@ == promotion_key_spec(session, p.promotion_id@)
    &&& r.tier == StrategyMemoryTier::ColdArchive
    &&& r.tier_key@ == strategy_key_spec(StrategyMemoryTier::ColdArchive, session, p.promotion_id@)
    &&& r.skill matches Some(k) && k.name@ == p.skill_name@ && k.trigger@ == "rolled-back"@ && k.procedure@
        == "rolled_back:"@ + reason && k.confidence_bits == 0
}

/// Plans the rollback of a promotion (see `rollback_matches`) after checking
/// the learning signal for session `session_id`.
pub fn rollback_skill_promotion_at(
    session_id: &str,
    promotion: &SkillPromotionRecord,
    reason: &str,
    signal: &LearningSignal,
    now: u64,
) -> (r: Result<PromotionPlan, SignalRejection>)
    ensures
        r is Ok <==> signal_verdict(*signal, session_id@) is None,
        r matches Ok(plan) ==> rollback_matches(plan, session_id@, *promotion, reason@, now),
        r matches Err(j) ==> rejection_matches(
            j,
            signal_verdict(*signal, session_id@).unwrap(),
            *signal,
            session_id@,
            "skill_registry.rollback_skill_promotion"@,
            now,
        ),
{
    match validate_learning_signal_at(signal, session_id, "skill_registry.rollback_skill_promotion", now) {
        Err(j) => {
            return Err(j);
        },
        Ok(()) => {},
    }
    let mut key = chars_of("memory:");
    push_str(&mut key, session_id);
    push_str(&mut key, ":skill-promotion:");
    push_str(&mut key, promotion.promotion_id.as_str());
    let mut procedure = chars_of("rolled_back:");
    push_str(&mut procedure, reason);
    Ok(
        PromotionPlan {
            skill: Some(
                SkillRecord {
                    name: promotion.skill_name.clone(),
                    trigger: text("rolled-back"),
                    procedure: string_of(&procedure),
                    confidence_bits: 0,
                },
            ),
            record: SkillPromotionRecord {
                promotion_id: promotion.promotion_id.clone(),
                proposal_id: promotion.proposal_id.clone(),
                session_id: promotion.session_id.clone(),
                skill_name: promotion.skill_name.clone(),
                stage: SkillPromotionStage::RolledBack,
                reason: text(reason),
                confidence_bits: 0,
                created_at_ms: now,
            },
            record_key: string_of(&key),
            tier: StrategyMemoryTier::ColdArchive,
            tier_key: strategy_memory_key(StrategyMemoryTier::ColdArchive, session_id, promotion.promotion_id.as_str()),
        },
    )
}

/// The writes of a reviewed proposal: the key it is stored under and the
/// strategy-memory tier it lands in (warm when approved, else hot).
#[derive(Debug)]
pub struct ProposalPlan {
    pub key: String,
    pub tier: StrategyMemoryTier,
    pub tier_key: String,
}

/// Plans the storing of a reviewed proposal after checking the learning
/// signal for the proposal's session.
pub fn plan_learning_proposal_at(
    proposal: &LearningProposal,
    verdict: &LearningGateVerdict,
    signal: &LearningSignal,
    now: u64,
) -> (r: Result<ProposalPlan, SignalRejection>)
    ensures
        r is Ok <==> signal_verdict(*signal, proposal.session_id@) is None,
        r matches Ok(plan) ==> {
            let tier = if verdict.approved {
                StrategyMemoryTier::WarmValidated
            } else {
                StrategyMemoryTier::HotSession
            };
            &&& plan.key@ == "memory:"@ + proposal.session_id@ + ":learning-proposal:"@ + proposal.proposal_id@
            &&& plan.tier == tier
            &&& plan.tier_key@ == strategy_key_spec(tier, proposal.session_id@, proposal.proposal_id@)
        },
        r matches Err(j) ==> rejection_matches(
            j,
            signal_verdict(*signal, proposal.session_id@).unwrap(),
            *signal,
            proposal.session_id@,
            "mutable_memory_ledger.persist_learning_proposal"@,
            now,
        ),
{
    match validate_learning_signal_at(
        signal,
        proposal.session_id.as_str(),
        "mutable_memory_ledger.persist_learning_proposal",
        now,
    ) {
        Err(j) => {
            return Err(j);
        },
        Ok(()) => {},
    }
    let mut key = chars_of("memory:");
    push_str(&mut key, proposal.session_id.as_str());
    push_str(&mut key, ":learning-proposal:");
    push_str(&mut key, proposal.proposal_id.as_str());
    let tier = if verdict.approved {
        StrategyMemoryTier::WarmValidated
    } else {
        StrategyMemoryTier::HotSession
    };
    Ok(
        ProposalPlan {
            key: string_of(&key),
            tier,
            tier_key: strategy_memory_key(tier, proposal.session_id.as_str(), proposal.proposal_id.as_str()),
        },
    )
}

// ---------------------------------------------------------------------------
// Reflexion episodes.
// ---------------------------------------------------------------------------

/// What was tried for a proposal, what came of it, and the lesson.
#[derive(Debug)]
pub struct ReflexionEpisode {
    pub proposal_id: String,
    pub hypothesis: String,
    pub outcome: String,
    pub lesson: String,
}

/// A reflexion episode as stored: a success when its outcome says "ready"
/// (in any case), with score 1, else a failure with score 0.
#[derive(Debug)]
pub struct ReflexionEpisodeEntry {
    pub id: String,
    pub session_id: String,
    pub objective: String,
    pub hypothesis: String,
    pub outcome: String,
    pub lesson: String,
    pub status: String,
    pub score_bits: u32,
    pub created_at_ms: u64,
}

pub open spec fn episode_ready(outcome: Seq<char>) -> bool {
    contains(lower(outcome), "ready"@)
}

/// The stored form of an episode of session `session_id`, stamped `now`.
pub fn reflexion_episode_entry_at(session_id: &str, episode: &ReflexionEpisode, now: u64) -> (r: ReflexionEpisodeEntry)
    ensures
        r.id@ == session_id@ + ":"@ + episode.proposal_id@,
        r.session_id@ == session_id@,
        r.objective@ == episode.hypothesis@,
        r.hypothesis@ == episode.hypothesis@,
        r.outcome@ == episode.outcome@,
        r.lesson@ == episode.lesson@,
        r.status@ == if episode_ready(episode.outcome@) {
            "success"@
        } else {
            "failure"@
        },
        r.score_bits == if episode_ready(episode.outcome@) {
            ONE_BITS
        } else {
            0
        },
        r.created_at_ms == now,
{
    let ready = contains_str(&to_lower(&chars_of(episode.outcome.as_str())), "ready");
    let mut id = chars_of(session_id);
    push_str(&mut id, ":");
    push_str(&mut id, episode.proposal_id.as_str());
    ReflexionEpisodeEntry {
        id: string_of(&id),
        session_id: text(session_id),
        objective: episode.hypothesis.clone(),
        hypothesis: episode.hypothesis.clone(),
        outcome: episode.outcome.clone(),
        lesson: episode.lesson.clone(),
        status: if ready {
            text("success")
        } else {
            text("failure")
        },
        score_bits: if ready {
            ONE_BITS
        } else {
            0
        },
        created_at_ms: now,
    }
}

// ---------------------------------------------------------------------------
// The memory subsystem's learning steps, stamped with the current time.
// ---------------------------------------------------------------------------

impl MemorySubsystem {
    /// Drafts a learning proposal (see `draft_learning_proposal_at`).
    pub fn draft_learning_proposal(
        &self,
        session_id: &str,
        anchor: &str,
        reason: &str,
        assistant_response: &str,
    ) -> (r: LearningProposal)
        ensures
            exists|now: u64| #[trigger] proposal_matches(r, session_id@, anchor@, reason@, assistant_response@, now),
    {
        let now = crate::clock::current_time_ms();
        draft_learning_proposal_at(session_id, anchor, reason, assistant_response, now)
    }

    /// Plans a skill promotion (see `promote_skill_with_verdict_at`).
    pub fn promote_skill_with_verdict(
        &self,
        proposal: &LearningProposal,
        verdict: &LearningGateVerdict,
        candidate: &SkillRecord,
        signal: &LearningSignal,
    ) -> (r: Result<PromotionPlan, SignalRejection>)
        ensures
            r is Ok <==> signal_verdict(*signal, proposal.session_id@) is None,
            r matches Ok(plan) ==> exists|now: u64| #[trigger] promotion_matches(plan, *proposal, *verdict, *candidate, now),
    {
        let now = crate::clock::current_time_ms();
        promote_skill_with_verdict_at(proposal, verdict, candidate, signal, now)
    }

    /// Plans the rollback of a promotion (see `rollback_skill_promotion_at`).
    pub fn rollback_skill_promotion(
        &self,
        session_id: &str,
        promotion: &SkillPromotionRecord,
        reason: &str,
        signal: &LearningSignal,
    ) -> (r: Result<PromotionPlan, SignalRejection>)
        ensures
            r is Ok <==> signal_verdict(*signal, session_id@) is None,
            r matches Ok(plan) ==> exists|now: u64| #[trigger] rollback_matches(plan, session_id@, *promotion, reason@, now),
    {
        let now = crate::clock::current_time_ms();
        rollback_skill_promotion_at(session_id, promotion, reason, signal, now)
    }
}

/// A skill promoted behind an approving verdict enters canary in warm
/// strategy memory with a confidence between 0.45 and 0.82 (a candidate
/// confidence that is not NaN); rolling that promotion back keeps its id and
/// record key, sets it rolled back with confidence 0, archives it cold, and
/// stores its skill retired with confidence 0.
pub proof fn law_promotion_then_rollback(
    promoted: PromotionPlan,
    rolled: PromotionPlan,
    proposal: LearningProposal,
    verdict: LearningGateVerdict,
    candidate: SkillRecord,
    reason: Seq<char>,
    promoted_at: u64,
    rolled_at: u64,
)
    requires
        verdict.approved,
        !is_nan_bits(candidate.confidence_bits),
        promotion_matches(promoted, proposal, verdict, candidate, promoted_at),
        rollback_matches(rolled, proposal.session_id@, promoted.record, reason, rolled_at),
    ensures
        promoted.record.stage == SkillPromotionStage::Canary,
        promoted.tier == StrategyMemoryTier::WarmValidated,
        order_key(CANARY_FLOOR_BITS) <= order_key(promoted.record.confidence_bits) <= order_key(CANARY_CEILING_BITS),
        promoted.skill is Some,
        rolled.record.promotion_id@ == promoted.record.promotion_id@,
        rolled.record_key@ == promoted.record_key@,
        rolled.record.stage == SkillPromotionStage::RolledBack,
        rolled.record.confidence_bits == 0,
        rolled.tier == StrategyMemoryTier::ColdArchive,
        rolled.skill matches Some(k) && k.confidence_bits == 0,
{
}

} // verus!
