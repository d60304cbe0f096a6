use osint_core::intel::{DataType, EntityQuery, IntelligenceData, IntelligenceEngine, TextProcessor};
use osint_core::models::{EntityType, IntelEntity, SessionStatus};

fn named_entity(id: u128, name: &str, confidence: u64) -> IntelEntity {
    let mut e = IntelEntity::new(EntityType::IpAddress, name, "test");
    e.id = id;
    e.confidence = confidence;
    e
}

#[test]
fn test_session_management() {
    let mut engine = IntelligenceEngine::new();
    let analyst_id: u128 = 31337;

    let session = engine.create_session("Test Session".to_string(), analyst_id).unwrap();
    assert_eq!(session.name, "Test Session");
    assert_eq!(session.status, SessionStatus::Draft);

    let retrieved = engine.get_session(session.id);
    assert!(retrieved.is_some());
}

#[test]
fn test_update_session_status() {
    let mut engine = IntelligenceEngine::new();
    let session = engine.create_session("s".to_string(), 1).unwrap();
    assert!(engine.update_session_status(session.id, SessionStatus::Active).is_ok());
    assert_eq!(engine.get_session(session.id).unwrap().status, SessionStatus::Active);
    assert!(engine.update_session_status(999_999, SessionStatus::Paused).is_err());
}

#[test]
fn test_entity_query_matches() {
    let mut e = named_entity(1, "MALWARE.example.com", 800_000);
    e.tags = vec!["botnet".to_owned()];

    let q = EntityQuery {
        entity_types: Some(vec![EntityType::IpAddress, EntityType::Domain]),
        name_pattern: Some("malware".to_owned()),
        tags: Some(vec!["botnet".to_owned(), "apt".to_owned()]),
        min_confidence: Some(500_000),
        source: Some("test".to_owned()),
        date_range: None,
    };
    assert!(q.matches(&e));

    let too_confident = EntityQuery { min_confidence: Some(900_000), ..q.clone() };
    assert!(!too_confident.matches(&e));
}

#[test]
fn test_search_entities_sorted() {
    let mut engine = IntelligenceEngine::new();
    engine.entities.push(named_entity(1, "a.example.com", 300_000));
    engine.entities.push(named_entity(2, "b.example.com", 900_000));
    engine.entities.push(named_entity(3, "c.example.com", 600_000));

    let q = EntityQuery {
        entity_types: None,
        name_pattern: Some("example".to_owned()),
        tags: None,
        min_confidence: None,
        source: None,
        date_range: None,
    };
    let found = engine.search_entities(&q);
    assert_eq!(found.len(), 3);
    assert_eq!(found[0].id, 2);
    assert_eq!(found[1].id, 3);
    assert_eq!(found[2].id, 1);
}

#[test]
fn test_get_entity() {
    let mut engine = IntelligenceEngine::new();
    engine.entities.push(named_entity(5, "host.example.com", 700_000));
    assert!(engine.get_entity(5).is_some());
    assert!(engine.get_entity(6).is_none());
}

#[test]
fn test_text_processor_dispatch() {
    let p = TextProcessor;
    let data = IntelligenceData {
        id: 1,
        data_type: DataType::Text,
        content: "Suspicious IP 192.168.1.1 contacted malware.example.com".to_owned(),
        source: "test".to_owned(),
        confidence: 900_000,
        collected_at: 0,
        metadata: Vec::new(),
    };
    assert!(p.can_process(&data));
    let binary = IntelligenceData { data_type: DataType::Binary, ..data };
    assert!(!p.can_process(&binary));
}

#[test]
fn test_statistics_totals() {
    let mut engine = IntelligenceEngine::new();
    engine.entities.push(named_entity(1, "a", 1));
    engine.entities.push(named_entity(2, "b", 2));
    let _ = engine.create_session("s".to_string(), 1).unwrap();
    let stats = engine.get_statistics();
    assert_eq!(stats.total_entities, 2);
    assert_eq!(stats.total_indicators, 0);
    assert_eq!(stats.total_sessions, 1);
}
