use gateway_core::privacy::PrivacyAuditLog;
use gateway_core::privacy::PrivacyConfig;
use gateway_core::privacy::PrivacyLevel;
use gateway_core::privacy::PrivacyScanner;
use gateway_core::privacy::ZdrMap;
use gateway_core::privacy::default_strict_patterns;
use gateway_core::privacy::filter_zdr_backends;
use gateway_core::privacy::get_zdr_backends;

#[test]
fn test_privacy_level_parsing() {
    assert_eq!(PrivacyLevel::from_str("standard"), Some(PrivacyLevel::Standard));
    assert_eq!(PrivacyLevel::from_str("SENSITIVE"), Some(PrivacyLevel::Sensitive));
    assert_eq!(PrivacyLevel::from_str("strict"), Some(PrivacyLevel::Strict));
    assert_eq!(PrivacyLevel::from_str("invalid"), None);
}

#[test]
fn test_privacy_level_zdr_requirements() {
    assert!(!PrivacyLevel::Standard.requires_zdr());
    assert!(!PrivacyLevel::Sensitive.requires_zdr());
    assert!(PrivacyLevel::Strict.requires_zdr());

    assert!(!PrivacyLevel::Standard.prefers_zdr());
    assert!(PrivacyLevel::Sensitive.prefers_zdr());
    assert!(PrivacyLevel::Strict.prefers_zdr());
}

#[test]
fn test_privacy_level_as_str() {
    assert_eq!(PrivacyLevel::Standard.as_str(), "standard");
    assert_eq!(PrivacyLevel::Sensitive.as_str(), "sensitive");
    assert_eq!(PrivacyLevel::Strict.as_str(), "strict");
}

#[test]
fn test_scan_clean_prompt() {
    let scanner = PrivacyScanner::new(PrivacyConfig::default());
    let result = scanner.scan("Please refactor this function");

    assert!(!result.sensitive_detected);
    assert!(result.matched_patterns.is_empty());
    assert!(!result.escalated);
}

#[test]
fn test_scan_sensitive_prompt() {
    let scanner = PrivacyScanner::new(PrivacyConfig::default());
    let result = scanner.scan("Store the API_KEY in the config");

    assert!(result.sensitive_detected);
    assert!(!result.matched_patterns.is_empty());
    assert!(result.escalated);
    assert_eq!(result.level, PrivacyLevel::Strict);
}

#[test]
fn test_scan_password_prompt() {
    let scanner = PrivacyScanner::new(PrivacyConfig::default());
    let result = scanner.scan("Please update the password field");

    assert!(result.sensitive_detected);
    assert!(result.escalated);
    assert_eq!(result.level, PrivacyLevel::Strict);
}

#[test]
fn test_scan_records_matched_pattern() {
    let scanner = PrivacyScanner::new(PrivacyConfig::default());
    let result = scanner.scan("Please update the password field");
    assert!(result.matched_patterns.contains(&"password".to_string()));
}

#[test]
fn test_scan_strict_default_not_escalated() {
    let config = PrivacyConfig {
        default_level: PrivacyLevel::Strict,
        strict_patterns: default_strict_patterns(),
        audit_zdr_violations: true,
        prefer_local_for_sensitive: true,
    };
    let scanner = PrivacyScanner::new(config);
    let result = scanner.scan("rotate the password now");
    assert!(result.sensitive_detected);
    assert_eq!(result.level, PrivacyLevel::Strict);
    assert!(!result.escalated);
}

#[test]
fn test_backend_acceptability() {
    let scanner = PrivacyScanner::new(PrivacyConfig::default());

    // Standard accepts all
    assert!(scanner.is_backend_acceptable(true, PrivacyLevel::Standard));
    assert!(scanner.is_backend_acceptable(false, PrivacyLevel::Standard));

    // Sensitive accepts all (warns but allows)
    assert!(scanner.is_backend_acceptable(true, PrivacyLevel::Sensitive));
    assert!(scanner.is_backend_acceptable(false, PrivacyLevel::Sensitive));

    // Strict requires ZDR
    assert!(scanner.is_backend_acceptable(true, PrivacyLevel::Strict));
    assert!(!scanner.is_backend_acceptable(false, PrivacyLevel::Strict));
}

#[test]
fn test_filter_zdr_backends() {
    let mut zdr_map = ZdrMap::new();
    zdr_map.insert("mistral", true);
    zdr_map.insert("chatgpt", false);
    zdr_map.insert("ollama", true);

    let backends = vec![
        "mistral".to_string(),
        "chatgpt".to_string(),
        "ollama".to_string(),
    ];

    let filtered = filter_zdr_backends(&backends, &zdr_map, true);
    assert_eq!(filtered.len(), 2);
    assert!(filtered.contains(&"mistral".to_string()));
    assert!(filtered.contains(&"ollama".to_string()));
    assert!(!filtered.contains(&"chatgpt".to_string()));

    // Without ZDR requirement, all pass
    let all = filter_zdr_backends(&backends, &zdr_map, false);
    assert_eq!(all.len(), 3);
}

#[test]
fn test_filter_zdr_preserves_order_and_duplicates() {
    let mut zdr_map = ZdrMap::new();
    zdr_map.insert("a", true);
    zdr_map.insert("b", false);
    let backends = vec![
        "a".to_string(),
        "b".to_string(),
        "a".to_string(),
        "missing".to_string(),
    ];
    let filtered = filter_zdr_backends(&backends, &zdr_map, true);
    assert_eq!(filtered, vec!["a".to_string(), "a".to_string()]);
    let verbatim = filter_zdr_backends(&backends, &zdr_map, false);
    assert_eq!(verbatim, backends);
}

#[test]
fn test_zdr_map_insert_overwrites() {
    let mut zdr_map = ZdrMap::new();
    zdr_map.insert("mistral", false);
    zdr_map.insert("mistral", true);
    assert!(zdr_map.zdr("mistral"));
    assert!(!zdr_map.zdr("unknown"));
}

#[test]
fn test_get_zdr_backends() {
    let mut zdr_map = ZdrMap::new();
    zdr_map.insert("mistral", true);
    zdr_map.insert("chatgpt", false);
    let backends = vec!["mistral".to_string(), "chatgpt".to_string()];
    let zdr = get_zdr_backends(&backends, &zdr_map);
    assert_eq!(zdr, vec!["mistral".to_string()]);
}

#[test]
fn test_audit_log() {
    let mut audit = PrivacyAuditLog::default();

    // Standard level doesn't record
    audit.record_violation(PrivacyLevel::Standard, "chatgpt", false, vec![]);
    assert!(audit.violations().is_empty());

    // Sensitive level records when non-ZDR
    audit.record_violation(
        PrivacyLevel::Sensitive,
        "chatgpt",
        false,
        vec!["password".to_string()],
    );
    assert_eq!(audit.violations().len(), 1);

    // ZDR backend doesn't record
    audit.record_violation(PrivacyLevel::Strict, "mistral", true, vec![]);
    assert_eq!(audit.violations().len(), 1);
}

#[test]
fn test_audit_log_recent() {
    let mut audit = PrivacyAuditLog::default();
    audit.record_violation(PrivacyLevel::Sensitive, "one", false, vec![]);
    audit.record_violation(PrivacyLevel::Strict, "two", false, vec![]);
    audit.record_violation(PrivacyLevel::Strict, "three", false, vec![]);
    assert_eq!(audit.recent(10).len(), 3);
    let last_two = audit.recent(2);
    assert_eq!(last_two.len(), 2);
    assert_eq!(last_two[0].backend, "two");
    assert_eq!(last_two[1].backend, "three");
    assert_eq!(audit.recent(0).len(), 0);
}

#[test]
fn test_default_patterns_list() {
    let patterns = default_strict_patterns();
    assert_eq!(patterns.len(), 12);
    assert!(patterns.contains(&"password".to_string()));
    assert!(patterns.contains(&"-----BEGIN".to_string()));
}
