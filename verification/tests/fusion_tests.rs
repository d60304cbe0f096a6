use osint_core::fusion::{
    CorrelationType, DataFusionEngine, FusionRule, FusionStrategy, ConfidenceModel,
};
use osint_core::models::{EntityType, GeoPoint, IntelEntity};

fn entity(id: u128, name: &str, source: &str, confidence: u64, created_at: i64) -> IntelEntity {
    IntelEntity {
        id,
        entity_type: EntityType::IpAddress,
        name: name.to_owned(),
        description: None,
        confidence,
        source: source.to_owned(),
        created_at,
        updated_at: created_at,
        tags: Vec::new(),
        attributes: Vec::new(),
        location: None,
        relationships: Vec::new(),
    }
}

fn no_distances(n: usize) -> Vec<Vec<Option<u64>>> {
    vec![vec![None; n]; n]
}

#[test]
fn test_identical_pair_correlation() {
    let engine = DataFusionEngine::new();
    let e1 = entity(1, "192.168.1.1", "source1", 500_000, 1000);
    let e2 = entity(2, "192.168.1.1", "source2", 500_000, 1000);
    let m = engine.calculate_entity_correlation(&e1, &e2, None, 1000);
    // Exact name, same type, zero temporal gap: (0.95 + 0.2 + 1.0) / 3.
    assert_eq!(m.confidence, 716_666);
    assert_eq!(m.correlation_type, CorrelationType::RelatedEntity);
    assert_eq!(m.entity1_id, 1);
    assert_eq!(m.entity2_id, 2);
}

#[test]
fn test_fuzzy_boundary_correlation() {
    let engine = DataFusionEngine::new();
    let e1 = entity(1, "hello", "source1", 500_000, 1000);
    let e2 = entity(2, "hallo", "source2", 500_000, 1000);
    let m = engine.calculate_entity_correlation(&e1, &e2, None, 1000);
    // Similarity 0.8 is not strictly above the fuzzy threshold, so only
    // the type bonus and the temporal factor contribute.
    assert_eq!(m.confidence, 600_000);
}

#[test]
fn test_geo_evidence() {
    let engine = DataFusionEngine::new();
    let mut e1 = entity(1, "alpha", "source1", 500_000, 0);
    let mut e2 = entity(2, "omega", "source2", 500_000, 1_000_000);
    e1.location = Some(GeoPoint { lat_micro: 48_858_000, lon_micro: 2_294_000 });
    e2.location = Some(GeoPoint { lat_micro: 48_858_100, lon_micro: 2_294_100 });
    // 250 m apart: geo factor (1.0 - 0.25), type factor 0.2, no others.
    let m = engine.calculate_entity_correlation(&e1, &e2, Some(250_000), 0);
    assert_eq!(m.confidence, (750_000 + 200_000) / 2);
}

#[test]
fn test_entity_fusion() {
    let mut engine = DataFusionEngine::new();

    engine.add_fusion_rule(FusionRule {
        id: 7,
        name: "Test Rule".to_owned(),
        description: "Test".to_owned(),
        source_types: vec!["test".to_owned()],
        entity_types: vec![EntityType::IpAddress],
        fusion_strategy: FusionStrategy::AverageConfidence,
        confidence_threshold: 500_000,
        enabled: true,
        created_at: 0,
    });

    let e1 = entity(1, "192.168.1.1", "source1", 800_000, 1000);
    let e2 = entity(2, "192.168.1.1", "source2", 600_000, 1000);
    let entities = vec![e1, e2];
    let results = engine.fuse_entities_at(&entities, &no_distances(2), 1000).unwrap();
    assert!(!results.is_empty());

    let fused = &results[0];
    // Average of 0.8 and 0.6.
    assert_eq!(fused.fused_entity.confidence, 700_000);
    assert_eq!(fused.fusion_method, FusionStrategy::AverageConfidence);
}

#[test]
fn test_default_rule_fusion() {
    // No configured rules: the built-in default averages confidences.
    let engine = DataFusionEngine::new();
    let e1 = entity(10, "192.168.1.1", "A", 800_000, 1000);
    let e2 = entity(20, "192.168.1.1", "B", 600_000, 1000);
    let entities = vec![e1, e2];
    let results = engine.fuse_entities_at(&entities, &no_distances(2), 1000).unwrap();
    assert_eq!(results.len(), 1);
    assert_eq!(results[0].fused_entity.confidence, 700_000);
    assert!(results[0].source_entities.contains(&10));
    assert!(results[0].source_entities.contains(&20));
    assert_ne!(results[0].fused_entity.id, 10);
    assert_ne!(results[0].fused_entity.id, 20);
}

#[test]
fn test_transitive_chain_grouping() {
    // A-B and B-C correlate via fuzzy name similarity 0.9; A-C alone
    // lands at similarity 0.8, which does not count.  Union-find still
    // groups all three transitively.
    let engine = DataFusionEngine::new();
    let a = entity(1, "aaaaaaaaaa", "s1", 500_000, 1000);
    let b = entity(2, "aaaaaaaaab", "s2", 500_000, 1000);
    let c = entity(3, "aaaaaaaabb", "s3", 500_000, 1000);
    let entities = vec![a, b, c];
    let results = engine.fuse_entities_at(&entities, &no_distances(3), 1000).unwrap();
    assert_eq!(results.len(), 1);
    assert_eq!(results[0].source_entities, vec![1, 2, 3]);
}

#[test]
fn test_singletons_produce_no_result() {
    let engine = DataFusionEngine::new();
    let e1 = entity(1, "alpha", "s1", 500_000, 0);
    let e2 = entity(2, "omega", "s2", 500_000, 1_000_000_000);
    let entities = vec![e1, e2];
    let results = engine.fuse_entities_at(&entities, &no_distances(2), 1_000_000_000).unwrap();
    assert!(results.is_empty());
}

#[test]
fn test_fused_tags_are_deduplicated_union() {
    let engine = DataFusionEngine::new();
    let mut e1 = entity(1, "192.168.1.1", "A", 800_000, 1000);
    let mut e2 = entity(2, "192.168.1.1", "B", 600_000, 1000);
    e1.tags = vec!["a".to_owned(), "b".to_owned()];
    e2.tags = vec!["a".to_owned(), "b".to_owned(), "c".to_owned()];
    let entities = vec![e1, e2];
    let results = engine.fuse_entities_at(&entities, &no_distances(2), 1000).unwrap();
    assert_eq!(results.len(), 1);
    let tags = &results[0].fused_entity.tags;
    assert_eq!(tags.len(), 3);
    for t in ["a", "b", "c"] {
        assert!(tags.iter().any(|x| x == t));
    }
}

#[test]
fn test_attribute_merge_first_writer_wins() {
    let engine = DataFusionEngine::new();
    let mut e1 = entity(1, "192.168.1.1", "A", 800_000, 1000);
    let mut e2 = entity(2, "192.168.1.1", "B", 600_000, 1000);
    e1.attributes = vec![("asn".to_owned(), "64500".to_owned())];
    e2.attributes = vec![
        ("asn".to_owned(), "64501".to_owned()),
        ("country".to_owned(), "ZZ".to_owned()),
    ];
    let entities = vec![e1, e2];
    let results = engine.fuse_entities_at(&entities, &no_distances(2), 1000).unwrap();
    let attrs = &results[0].fused_entity.attributes;
    assert_eq!(attrs.len(), 2);
    assert!(attrs.contains(&("asn".to_owned(), "64500".to_owned())));
    assert!(attrs.contains(&("country".to_owned(), "ZZ".to_owned())));
}

#[test]
fn test_highest_confidence_strategy() {
    let mut engine = DataFusionEngine::new();
    engine.add_fusion_rule(FusionRule {
        id: 1,
        name: "Best".to_owned(),
        description: String::new(),
        source_types: Vec::new(),
        entity_types: vec![EntityType::IpAddress],
        fusion_strategy: FusionStrategy::HighestConfidence,
        confidence_threshold: 500_000,
        enabled: true,
        created_at: 0,
    });
    let e1 = entity(1, "192.168.1.1", "A", 600_000, 1000);
    let e2 = entity(2, "192.168.1.1", "B", 800_000, 1000);
    let entities = vec![e1, e2];
    let results = engine.fuse_entities_at(&entities, &no_distances(2), 1000).unwrap();
    assert_eq!(results[0].fused_entity.confidence, 800_000);
    assert_eq!(results[0].confidence_delta, 800_000 - 600_000);
}

#[test]
fn test_weighted_average_equal_weights_matches_average() {
    let mut engine = DataFusionEngine::new();
    engine.add_confidence_model(ConfidenceModel {
        source_name: "A".to_owned(),
        base_confidence: 500_000,
        reliability_score: 2_000_000,
        decay_rate: 100_000,
        quality_factors: Vec::new(),
    });
    engine.add_confidence_model(ConfidenceModel {
        source_name: "B".to_owned(),
        base_confidence: 500_000,
        reliability_score: 2_000_000,
        decay_rate: 100_000,
        quality_factors: Vec::new(),
    });
    engine.add_fusion_rule(FusionRule {
        id: 1,
        name: "Weighted".to_owned(),
        description: String::new(),
        source_types: Vec::new(),
        entity_types: vec![EntityType::IpAddress],
        fusion_strategy: FusionStrategy::WeightedAverage,
        confidence_threshold: 500_000,
        enabled: true,
        created_at: 0,
    });
    let e1 = entity(1, "192.168.1.1", "A", 800_000, 1000);
    let e2 = entity(2, "192.168.1.1", "B", 600_000, 1000);
    let entities = vec![e1, e2];
    let results = engine.fuse_entities_at(&entities, &no_distances(2), 1000).unwrap();
    // Equal weights cancel: same as the plain average.
    assert_eq!(results[0].fused_entity.confidence, 700_000);
}

#[test]
fn test_temporal_decay_fresh_matches_average() {
    let mut engine = DataFusionEngine::new();
    engine.add_fusion_rule(FusionRule {
        id: 1,
        name: "Decay".to_owned(),
        description: String::new(),
        source_types: Vec::new(),
        entity_types: vec![EntityType::IpAddress],
        fusion_strategy: FusionStrategy::TemporalDecay,
        confidence_threshold: 500_000,
        enabled: true,
        created_at: 0,
    });
    let e1 = entity(1, "192.168.1.1", "A", 800_000, 1000);
    let e2 = entity(2, "192.168.1.1", "B", 600_000, 1000);
    let entities = vec![e1, e2];
    // Fusing at the creation instant: every member is zero days old.
    let results = engine.fuse_entities_at(&entities, &no_distances(2), 1000).unwrap();
    assert_eq!(results[0].fused_entity.confidence, 700_000);
}

#[test]
fn test_quality_score_exact() {
    let engine = DataFusionEngine::new();
    let e1 = entity(1, "192.168.1.1", "A", 800_000, 1000);
    let e2 = entity(2, "192.168.1.1", "B", 600_000, 1000);
    let entities = vec![e1, e2];
    let results = engine.fuse_entities_at(&entities, &no_distances(2), 1000).unwrap();
    // Diversity 1.0; consistency 1 - sqrt(var) with deviations of 0.1
    // each; freshness 1.0 at age zero: (1.0 + 0.9 + 1.0) / 3.
    assert_eq!(results[0].quality_score, (1_000_000 + 900_000 + 1_000_000) / 3);
}

#[test]
fn test_source_weight_lookup() {
    let mut engine = DataFusionEngine::new();
    assert_eq!(engine.get_source_weight(&"missing".to_owned()), 1_000_000);
    engine.add_confidence_model(ConfidenceModel {
        source_name: "osint-feed".to_owned(),
        base_confidence: 700_000,
        reliability_score: 450_000,
        decay_rate: 100_000,
        quality_factors: Vec::new(),
    });
    assert_eq!(engine.get_source_weight(&"osint-feed".to_owned()), 450_000);
    // Registering a model again replaces it.
    engine.add_confidence_model(ConfidenceModel {
        source_name: "osint-feed".to_owned(),
        base_confidence: 700_000,
        reliability_score: 890_000,
        decay_rate: 100_000,
        quality_factors: Vec::new(),
    });
    assert_eq!(engine.get_source_weight(&"osint-feed".to_owned()), 890_000);
}
