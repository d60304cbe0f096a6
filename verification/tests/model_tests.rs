use osint_core::clamp_confidence;
use osint_core::error::{Error, ErrorSeverity};
use osint_core::models::{EntityType, IntelEntity, RelationshipType};
use osint_core::numeric::{decay_weight, isqrt};
use osint_core::platform::PlatformConfig;

#[test]
fn test_entity_creation() {
    let entity = IntelEntity::new(EntityType::IpAddress, "192.168.1.1", "manual_entry");
    assert_eq!(entity.entity_type, EntityType::IpAddress);
    assert_eq!(entity.name, "192.168.1.1");
    assert_eq!(entity.confidence, 500_000);
}

#[test]
fn test_add_relationship() {
    let mut entity1 = IntelEntity::new(EntityType::IpAddress, "1.1.1.1", "test");
    let entity2_id: u128 = 424242;

    entity1.add_relationship(entity2_id, RelationshipType::Communicates, 800_000, "test".to_string());

    assert_eq!(entity1.relationships.len(), 1);
    assert_eq!(entity1.relationships[0].target_entity_id, entity2_id);
}

#[test]
fn test_update_confidence_clamps() {
    let mut entity = IntelEntity::new(EntityType::Domain, "example.com", "test");
    entity.update_confidence(2_000_000);
    assert_eq!(entity.confidence, 1_000_000);
    entity.update_confidence(250_000);
    assert_eq!(entity.confidence, 250_000);
}

#[test]
fn test_clamp_confidence() {
    assert_eq!(clamp_confidence(0), 0);
    assert_eq!(clamp_confidence(1_000_000), 1_000_000);
    assert_eq!(clamp_confidence(1_000_001), 1_000_000);
}

#[test]
fn test_error_severity() {
    assert_eq!(Error::InitializationFailed(String::new()).severity(), ErrorSeverity::Critical);
    assert_eq!(Error::Configuration(String::new()).severity(), ErrorSeverity::High);
    assert_eq!(Error::Network(String::new()).severity(), ErrorSeverity::Medium);
    assert_eq!(Error::Parsing(String::new()).severity(), ErrorSeverity::Low);
    assert_eq!(Error::NotFound(String::new()).severity(), ErrorSeverity::Medium);
}

#[test]
fn test_error_retriability() {
    assert!(Error::Network(String::new()).is_retriable());
    assert!(Error::Database(String::new()).is_retriable());
    assert!(Error::Internal(String::new()).is_retriable());
    assert!(!Error::InvalidInput(String::new()).is_retriable());
}

#[test]
fn test_decay_weight() {
    assert_eq!(decay_weight(0), 1_000_000);
    assert_eq!(decay_weight(1), 904_837);
    // One more day multiplies by the same factor again.
    assert_eq!(decay_weight(2), 904_837u64 * 904_837 / 1_000_000);
}

#[test]
fn test_isqrt() {
    assert_eq!(isqrt(0), 0);
    assert_eq!(isqrt(1), 1);
    assert_eq!(isqrt(99), 9);
    assert_eq!(isqrt(100), 10);
    assert_eq!(isqrt(1_000_000_000_000), 1_000_000);
}

#[test]
fn test_platform_default_config() {
    let config = PlatformConfig::default();
    assert!(config.max_threads > 0);
    assert_eq!(config.retention_days, 365);
    assert!(config.ml_enabled);
    assert_eq!(config.threat_sources.len(), 3);
    assert_eq!(config.geo_config.precision, 6);
}
