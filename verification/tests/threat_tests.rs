use osint_core::models::{
    IndicatorType, ThreatIndicator, ThreatSeverity, ThreatType, TrafficLightProtocol,
};
use osint_core::threat::{
    ConditionOperator, ConditionValue, CorrelationCondition, CorrelationRule, CorrelationType,
    ThreatIntelEngine, ThreatQuery,
};

fn indicator(id: u128, value: &str, threat_type: ThreatType, confidence: u64) -> ThreatIndicator {
    ThreatIndicator {
        id,
        indicator_type: IndicatorType::IpAddress,
        value: value.to_owned(),
        threat_type,
        severity: ThreatSeverity::High,
        confidence,
        tlp: TrafficLightProtocol::Green,
        source: "test".to_owned(),
        first_seen: 1000,
        last_seen: 1000,
        valid_until: None,
        context: None,
        mitre_tactics: vec!["initial-access".to_owned()],
        mitre_techniques: vec!["T1566".to_owned()],
    }
}

#[test]
fn test_threat_intel_engine_creation() {
    let engine = ThreatIntelEngine::new();
    assert_eq!(engine.indicators.len(), 0);
    assert_eq!(engine.correlation_rules.len(), 0);
}

#[test]
fn test_correlation_condition_evaluation() {
    let engine = ThreatIntelEngine::new();
    let ind = indicator(1, "1.1.1.1", ThreatType::Malware, 900_000);

    let condition = CorrelationCondition {
        field: "threat_type".to_owned(),
        operator: ConditionOperator::Equals,
        value: ConditionValue::Threat(ThreatType::Malware),
        weight: 1_000_000,
    };

    assert!(engine.evaluate_condition(&condition, &ind));
}

#[test]
fn test_condition_severity_and_tactics() {
    let engine = ThreatIntelEngine::new();
    let ind = indicator(1, "1.1.1.1", ThreatType::Malware, 900_000);

    let severity_eq = CorrelationCondition {
        field: "severity".to_owned(),
        operator: ConditionOperator::Equals,
        value: ConditionValue::Severity(ThreatSeverity::High),
        weight: 1_000_000,
    };
    assert!(engine.evaluate_condition(&severity_eq, &ind));

    let tactic = CorrelationCondition {
        field: "mitre_tactics".to_owned(),
        operator: ConditionOperator::Contains,
        value: ConditionValue::Text("initial-access".to_owned()),
        weight: 1_000_000,
    };
    assert!(engine.evaluate_condition(&tactic, &ind));

    let wrong_field = CorrelationCondition {
        field: "nonexistent".to_owned(),
        operator: ConditionOperator::Equals,
        value: ConditionValue::Text("x".to_owned()),
        weight: 1_000_000,
    };
    assert!(!engine.evaluate_condition(&wrong_field, &ind));
}

#[test]
fn test_correlate_threats_emits_result() {
    let mut engine = ThreatIntelEngine::new();
    engine.add_indicator(indicator(1, "1.1.1.1", ThreatType::Malware, 900_000));
    engine.add_indicator(indicator(2, "2.2.2.2", ThreatType::Malware, 900_000));
    engine.add_correlation_rule(CorrelationRule {
        id: 77,
        name: "actor overlap".to_owned(),
        description: String::new(),
        rule_type: CorrelationType::Attribution,
        conditions: vec![CorrelationCondition {
            field: "threat_type".to_owned(),
            operator: ConditionOperator::Equals,
            value: ConditionValue::Threat(ThreatType::Malware),
            weight: 1_000_000,
        }],
        actions: Vec::new(),
        enabled: true,
        created_at: 0,
    });

    let results = engine.correlate_threats(5000).unwrap();
    assert_eq!(results.len(), 1);
    assert_eq!(results[0].rule_id, 77);
    assert_eq!(results[0].matched_indicators, vec![1, 2]);
    // Base 0.2 for the second indicator + 0.3 attribution bonus
    // + 0.3 * 0.9 average confidence.
    assert_eq!(results[0].correlation_score, 200_000 + 300_000 + 270_000);
}

#[test]
fn test_correlate_threats_disabled_rule() {
    let mut engine = ThreatIntelEngine::new();
    engine.add_indicator(indicator(1, "1.1.1.1", ThreatType::Malware, 900_000));
    engine.add_indicator(indicator(2, "2.2.2.2", ThreatType::Malware, 900_000));
    engine.add_correlation_rule(CorrelationRule {
        id: 77,
        name: "off".to_owned(),
        description: String::new(),
        rule_type: CorrelationType::Attribution,
        conditions: vec![CorrelationCondition {
            field: "threat_type".to_owned(),
            operator: ConditionOperator::Equals,
            value: ConditionValue::Threat(ThreatType::Malware),
            weight: 1_000_000,
        }],
        actions: Vec::new(),
        enabled: false,
        created_at: 0,
    });
    let results = engine.correlate_threats(5000).unwrap();
    assert!(results.is_empty());
}

#[test]
fn test_search_indicators() {
    let mut engine = ThreatIntelEngine::new();
    engine.add_indicator(indicator(1, "malware.example.com", ThreatType::Malware, 900_000));
    engine.add_indicator(indicator(2, "benign.example.org", ThreatType::Phishing, 400_000));

    let query = ThreatQuery {
        threat_types: Some(vec![ThreatType::Malware]),
        severities: None,
        sources: None,
        value_pattern: Some("EXAMPLE.COM".to_owned()),
        date_range: None,
        min_confidence: Some(500_000),
    };
    let found = engine.search_indicators(&query);
    assert_eq!(found.len(), 1);
    assert_eq!(found[0].id, 1);

    let all = ThreatQuery {
        threat_types: None,
        severities: None,
        sources: None,
        value_pattern: None,
        date_range: None,
        min_confidence: None,
    };
    assert_eq!(engine.search_indicators(&all).len(), 2);
}

#[test]
fn test_threat_stats() {
    let mut engine = ThreatIntelEngine::new();
    engine.add_indicator(indicator(1, "1.1.1.1", ThreatType::Malware, 900_000));
    engine.add_indicator(indicator(2, "2.2.2.2", ThreatType::Phishing, 400_000));
    // first_seen is 1000; only a "now" within a day of it counts as recent.
    let stats = engine.get_threat_stats(1000);
    assert_eq!(stats.total_indicators, 2);
    assert_eq!(stats.recent_indicators, 2);
    let later = engine.get_threat_stats(1000 + 2 * 86400);
    assert_eq!(later.recent_indicators, 0);
    assert_eq!(stats.threat_types.len(), 2);
    assert!(stats.threat_types.contains(&(ThreatType::Malware, 1)));
    assert!(stats.threat_types.contains(&(ThreatType::Phishing, 1)));
    assert_eq!(stats.severities, vec![(ThreatSeverity::High, 2)]);
    assert_eq!(stats.sources.len(), 1);
    assert_eq!(stats.sources[0].1, 2);
}
