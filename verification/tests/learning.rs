use autoloop_core::config::{LearningConfig, MemoryConfig};
use autoloop_core::keyed::KeyedMap;
use autoloop_core::memory::context::MemorySubsystem;
use autoloop_core::memory::learning::{
    clamp_confidence, draft_learning_proposal_at, plan_learning_proposal_at, plan_strategy_memory_write_at,
    promote_skill_with_verdict_at, reflexion_episode_entry_at, rollback_skill_promotion_at, strategy_memory_key,
    validate_learning_signal_at, LearningGateVerdict, LearningSignal, ReflexionEpisode, SignalRejectReason,
    SkillPromotionStage, SkillRecord, StrategyMemoryTier, CANARY_CEILING_BITS, CANARY_FLOOR_BITS,
};

fn signal(session: &str, evidence: &str) -> LearningSignal {
    LearningSignal {
        signal_id: format!("learning-signal:{session}:test"),
        session_id: session.to_string(),
        trace_id: format!("trace:{session}:learning:test"),
        source: "memory.tests".to_string(),
        evidence_ref: evidence.to_string(),
        metadata: KeyedMap::new(),
    }
}

fn verdict(approved: bool) -> LearningGateVerdict {
    LearningGateVerdict {
        approved,
        reason: if approved { "quality gate passed".into() } else { "insufficient evidence".into() },
        canary_ratio_bits: 0.1f32.to_bits(),
        rollback_window_ms: 60_000,
        risk_tags: vec![],
        created_at_ms: 1,
    }
}

fn skill(confidence: f32) -> SkillRecord {
    SkillRecord {
        name: "Anchor  Recall".into(),
        trigger: "anchor".into(),
        procedure: "recall anchors first".into(),
        confidence_bits: confidence.to_bits(),
    }
}

#[test]
fn learning_signal_without_evidence_ref_is_rejected_with_an_audit_record() {
    let s = signal("session-a", "   ");
    let err = validate_learning_signal_at(&s, "session-a", "skill_registry.persist_skill", 42).unwrap_err();
    assert_eq!(err.reason, SignalRejectReason::MissingEvidenceRef);
    assert_eq!(err.record.reason, "learning_signal.missing_evidence_ref");
    assert_eq!(err.record.evidence_ref, None);
    assert_eq!(err.record.reject_id, "learning-signal-reject:session-a:42:skill_registry.persist_skill");
    assert_eq!(
        err.key,
        "evidence:memory:session-a:learning-signal-reject:learning-signal-reject:session-a:42:skill_registry.persist_skill"
    );
    assert_eq!(err.message, "learning signal rejected for `skill_registry.persist_skill`: evidence_ref is required");
}

#[test]
fn learning_signal_from_another_session_is_rejected() {
    let s = signal("session-b", "eventlog:session-b:1");
    let err = validate_learning_signal_at(&s, " session-a ", "Target X", 7).unwrap_err();
    assert_eq!(err.reason, SignalRejectReason::SessionMismatch);
    assert_eq!(err.record.reason, "learning_signal.session_id_mismatch");
    assert_eq!(err.record.evidence_ref.as_deref(), Some("eventlog:session-b:1"));
    assert_eq!(err.record.target, "Target X");
    assert!(err.record.reject_id.ends_with(":7:target x"));
    assert_eq!(
        err.message,
        "learning signal rejected for `Target X`: session mismatch (expected= session-a , actual=session-b)"
    );
    assert!(validate_learning_signal_at(&signal(" session-a", "ev"), "session-a ", "t", 7).is_ok());
}

#[test]
fn clamp_confidence_follows_f32_clamp() {
    for x in [0.1f32, 0.45, 0.5, 0.82, 0.9, -0.0, -3.0, f32::INFINITY, f32::NEG_INFINITY] {
        let got = clamp_confidence(x.to_bits(), CANARY_FLOOR_BITS, CANARY_CEILING_BITS);
        assert_eq!(f32::from_bits(got), x.clamp(0.45, 0.82));
    }
    assert!(f32::from_bits(clamp_confidence(f32::NAN.to_bits(), CANARY_FLOOR_BITS, CANARY_CEILING_BITS)).is_nan());
    assert_eq!(f32::from_bits(CANARY_FLOOR_BITS), 0.45f32);
    assert_eq!(f32::from_bits(CANARY_CEILING_BITS), 0.82f32);
}

#[test]
fn p12_promotion_supports_canary_and_rollback_with_strategy_tiers() {
    let proposal = draft_learning_proposal_at("s", "Anchor  Recall", "why", "I am Not Sure yet", 100);
    assert_eq!(proposal.proposal_id, "s:anchor-recall:100");
    assert_eq!(proposal.proposed_skill_name, "skill-anchor-recall");
    assert_eq!(f32::from_bits(proposal.proposed_confidence_bits), 0.45f32);
    let sig = signal("s", "eventlog:s:1");

    let promoted = promote_skill_with_verdict_at(&proposal, &verdict(true), &skill(0.95), &sig, 200).unwrap();
    assert_eq!(promoted.record.stage, SkillPromotionStage::Canary);
    assert_eq!(promoted.record.promotion_id, "promotion:s:anchor recall:200");
    assert_eq!(f32::from_bits(promoted.record.confidence_bits), 0.82f32);
    assert_eq!(promoted.tier, StrategyMemoryTier::WarmValidated);
    assert_eq!(promoted.tier_key, "memory:strategy:warm:s:promotion:s:anchor recall:200");
    assert_eq!(promoted.record_key, "memory:s:skill-promotion:promotion:s:anchor recall:200");
    assert!(promoted.skill.is_some());

    let rolled = rollback_skill_promotion_at("s", &promoted.record, "regressed", &sig, 300).unwrap();
    assert_eq!(rolled.record.stage, SkillPromotionStage::RolledBack);
    assert_eq!(rolled.record.confidence_bits, 0);
    assert_eq!(rolled.record.promotion_id, promoted.record.promotion_id);
    assert_eq!(rolled.record_key, promoted.record_key);
    assert_eq!(rolled.tier, StrategyMemoryTier::ColdArchive);
    let retired = rolled.skill.unwrap();
    assert_eq!(retired.trigger, "rolled-back");
    assert_eq!(retired.procedure, "rolled_back:regressed");

    let rejected = promote_skill_with_verdict_at(&proposal, &verdict(false), &skill(0.6), &sig, 400).unwrap();
    assert_eq!(rejected.record.stage, SkillPromotionStage::Rejected);
    assert_eq!(rejected.record.confidence_bits, 0);
    assert_eq!(rejected.tier, StrategyMemoryTier::ColdArchive);
    assert!(rejected.skill.is_none());

    assert!(promote_skill_with_verdict_at(&proposal, &verdict(true), &skill(0.6), &signal("other", "e"), 500).is_err());
}

#[test]
fn proposal_plans_and_strategy_keys() {
    let proposal = draft_learning_proposal_at("s", "graph rag", "r", "sure", 5);
    assert_eq!(f32::from_bits(proposal.proposed_confidence_bits), 0.72f32);
    let sig = signal("s", "ev");
    let approved = plan_learning_proposal_at(&proposal, &verdict(true), &sig, 6).unwrap();
    assert_eq!(approved.key, "memory:s:learning-proposal:s:graph-rag:5");
    assert_eq!(approved.tier, StrategyMemoryTier::WarmValidated);
    let held = plan_learning_proposal_at(&proposal, &verdict(false), &sig, 6).unwrap();
    assert_eq!(held.tier, StrategyMemoryTier::HotSession);
    assert_eq!(held.tier_key, "memory:strategy:hot:s:s:graph-rag:5");
    assert_eq!(strategy_memory_key(StrategyMemoryTier::ColdArchive, "s", " Key  A "), "memory:strategy:cold:s:key a");
    assert_eq!(
        plan_strategy_memory_write_at("s", StrategyMemoryTier::HotSession, "k", &sig, 1).unwrap(),
        "memory:strategy:hot:s:k"
    );
    assert!(plan_strategy_memory_write_at("t", StrategyMemoryTier::HotSession, "k", &sig, 1).is_err());
}

#[test]
fn reflexion_episode_success_depends_on_ready_outcome() {
    let episode = ReflexionEpisode {
        proposal_id: "p1".into(),
        hypothesis: "h".into(),
        outcome: "Canary READY".into(),
        lesson: "l".into(),
    };
    let entry = reflexion_episode_entry_at("s", &episode, 9);
    assert_eq!(entry.id, "s:p1");
    assert_eq!(entry.status, "success");
    assert_eq!(f32::from_bits(entry.score_bits), 1.0f32);
    let failed = ReflexionEpisode { outcome: "blocked".into(), ..episode };
    let entry = reflexion_episode_entry_at("s", &failed, 9);
    assert_eq!(entry.status, "failure");
    assert_eq!(entry.score_bits, 0);
}

#[test]
fn memory_subsystem_drafts_and_promotes_with_current_time() {
    let memory = MemorySubsystem::from_config(
        &MemoryConfig { load_identity: true, load_memory_md: false, load_history_md: false },
        &LearningConfig { enabled: false, sidecar_enabled: false, embedding_dimensions: 8, top_k: 2 },
    );
    let proposal = memory.draft_learning_proposal("s", "a", "r", "ok");
    assert!(proposal.proposal_id.starts_with("s:a:"));
    let plan = memory.promote_skill_with_verdict(&proposal, &verdict(true), &skill(0.5), &signal("s", "e")).unwrap();
    assert_eq!(f32::from_bits(plan.record.confidence_bits), 0.5f32);
    let rolled = memory.rollback_skill_promotion("s", &plan.record, "why", &signal("s", "e")).unwrap();
    assert_eq!(rolled.record.stage, SkillPromotionStage::RolledBack);
}
