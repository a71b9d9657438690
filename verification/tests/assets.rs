use autoloop_core::keyed::KeyedMap;
use autoloop_core::memory::assets::{
    matches_filter, HashEmbeddingProvider, LearningAssetKind, LearningFilter, SidecarQuery,
};

#[test]
fn filter_by_session_kind_and_metadata() {
    let mut meta = KeyedMap::new();
    meta.insert("status".to_string(), "done".to_string());
    meta.insert("lane".to_string(), "a".to_string());
    let mut want = KeyedMap::new();
    want.insert("status".to_string(), "done".to_string());
    let filter = LearningFilter {
        session_id: Some("s1".into()),
        asset_kinds: vec![LearningAssetKind::Skill],
        metadata: want,
    };
    assert!(matches_filter(&filter, "s1", LearningAssetKind::Skill, &meta));
    assert!(matches_filter(&filter, "global", LearningAssetKind::Skill, &meta));
    assert!(!matches_filter(&filter, "s2", LearningAssetKind::Skill, &meta));
    assert!(!matches_filter(&filter, "s1", LearningAssetKind::CausalEdge, &meta));
    let empty = KeyedMap::new();
    assert!(!matches_filter(&filter, "s1", LearningAssetKind::Skill, &empty));
    let query = SidecarQuery { query: "q".into(), filter: LearningFilter::any(), top_k: 3 };
    assert!(matches_filter(&query.filter, "other", LearningAssetKind::WitnessLog, &empty));
}

#[test]
fn hash_embedding_counts_words() {
    let small = HashEmbeddingProvider::new(2);
    assert_eq!(small.dimensions(), 2);
    let counts = small.word_counts("Alpha beta, ALPHA! --");
    assert_eq!(counts.len(), 8);
    assert_eq!(counts.iter().sum::<usize>(), 3);
    assert!(counts.iter().any(|c| *c >= 2));
    let wide = HashEmbeddingProvider::new(64);
    assert_eq!(wide.word_counts("").len(), 64);
    assert_eq!(wide.word_counts("").iter().sum::<usize>(), 0);
}
