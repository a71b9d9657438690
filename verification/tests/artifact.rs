use autoloop_core::artifact::{
    artifact_proof, ArtifactFile, artifact_decision_hits, artifact_proof_status, artifact_sha256, hex_text, is_artifact_decision, ArtifactProofStatus,
};
use autoloop_core::memory::json::JsonValue;
use autoloop_core::observability::whitebox::KnowledgeEntry;

#[test]
fn sha256_of_known_inputs() {
    assert_eq!(
        artifact_sha256(&b"abc".to_vec()),
        "ba7816bf8f01cfea414140de5dae2223b00361a396177a9cb410ff61f20015ad"
    );
    assert_eq!(
        artifact_sha256(&Vec::new()),
        "e3b0c44298fc1c149afbf4c8996fb92427ae41e4649b934ca495991b7852b855"
    );
    assert_eq!(hex_text(&vec![0, 15, 16, 255]), "000f10ff");
}

#[test]
fn artifact_decisions_and_status() {
    let hit = JsonValue::Object(vec![(
        "reasons".into(),
        JsonValue::Array(vec![JsonValue::Text("policy".into()), JsonValue::Text("artifact_unsigned".into())]),
    )]);
    let miss = JsonValue::Object(vec![("reasons".into(), JsonValue::Array(vec![JsonValue::Text("policy".into())]))]);
    assert!(is_artifact_decision(&hit));
    assert!(!is_artifact_decision(&miss));
    assert!(!is_artifact_decision(&JsonValue::Null));
    assert_eq!(artifact_proof_status(Some(false), 2), ArtifactProofStatus::Blocked);
    assert_eq!(artifact_proof_status(Some(true), 1), ArtifactProofStatus::RequiresAttention);
    assert_eq!(artifact_proof_status(None, 0), ArtifactProofStatus::InOrder);
    assert_eq!(artifact_proof_status(None, 0).label(), "ok");
    assert_eq!(ArtifactProofStatus::RequiresAttention.label(), "requires_attention");
}

fn decision(id: &str, trace: &str, at: u64, reason: &str) -> JsonValue {
    JsonValue::Object(vec![
        ("id".into(), JsonValue::Text(id.into())),
        ("trace_id".into(), JsonValue::Text(trace.into())),
        ("decision_at_ms".into(), JsonValue::Number(at.to_string())),
        ("reasons".into(), JsonValue::Array(vec![JsonValue::Text(reason.into())])),
    ])
}

fn ids(v: &[JsonValue]) -> Vec<String> {
    v.iter()
        .map(|d| match d {
            JsonValue::Object(m) => match &m[0].1 {
                JsonValue::Text(t) => t.clone(),
                _ => String::new(),
            },
            _ => String::new(),
        })
        .collect()
}

#[test]
fn artifact_hits_are_the_newest_decisions_of_the_trace() {
    let all = || {
        vec![
            decision("d1", "t1", 10, "artifact_x"),
            decision("d2", "t1", 30, "policy"),
            decision("d3", "t2", 20, "artifact_z"),
            decision("d4", "t1", 20, "artifact_y"),
        ]
    };
    assert_eq!(ids(&artifact_decision_hits(all(), Some("t1"), 2)), vec!["d4"]);
    assert_eq!(ids(&artifact_decision_hits(all(), None, 10)), vec!["d4", "d3", "d1"]);
    assert!(artifact_decision_hits(all(), Some("t9"), 10).is_empty());
    assert!(artifact_decision_hits(all(), None, 0).is_empty());
}

#[test]
fn artifact_proof_composes_file_decisions_and_write_proofs() {
    let entry = |k: &str, v: &str| KnowledgeEntry { key: k.into(), source: "s".into(), value: v.into() };
    let proofs = vec![entry("p1", "{\"a\":1}"), entry("p2", "not json"), entry("p3", "[]")];
    let p = artifact_proof(
        Some(ArtifactFile::Present(b"abc".to_vec())),
        vec![decision("d1", "t1", 10, "artifact_x")],
        proofs,
        None,
        2,
    );
    assert_eq!(p.status, ArtifactProofStatus::RequiresAttention);
    assert_eq!(
        p.file_sha256.as_deref(),
        Some("ba7816bf8f01cfea414140de5dae2223b00361a396177a9cb410ff61f20015ad")
    );
    assert_eq!(p.size_bytes, Some(3));
    assert_eq!(p.decision_reasons.len(), 1);
    assert_eq!(p.relation_write_proofs.len(), 2);
    assert_eq!(p.relation_write_proofs[0].key, "p3");
    assert_eq!(p.relation_write_proofs[1].key, "p2");
    assert!(matches!(&p.relation_write_proofs[1].value, JsonValue::Object(m) if m[0].0 == "raw"));
    let missing = artifact_proof(Some(ArtifactFile::Missing), vec![], vec![], None, 5);
    assert_eq!(missing.status, ArtifactProofStatus::Blocked);
    assert!(missing.file_sha256.is_none());
    let none = artifact_proof(None, vec![decision("d1", "t1", 10, "policy")], vec![], None, 5);
    assert_eq!(none.status, ArtifactProofStatus::InOrder);
}
