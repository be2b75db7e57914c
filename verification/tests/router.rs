use gateway_core::privacy::PrivacyAuditLog;
use gateway_core::privacy::PrivacyConfig;
use gateway_core::privacy::PrivacyLevel;
use gateway_core::privacy::PrivacyScanner;
use gateway_core::privacy::ZdrMap;
use gateway_core::provider_health::HealthConfig;
use gateway_core::provider_health::ProviderHealthRegistry;
use gateway_core::router::RouteError;
use gateway_core::router::plan_route;
use gateway_core::router::record_route_outcome;

fn zdr_map() -> ZdrMap {
    let mut m = ZdrMap::new();
    m.insert("mistral", true);
    m.insert("chatgpt", false);
    m.insert("ollama", true);
    m
}

fn candidates() -> Vec<String> {
    vec!["mistral".to_string(), "chatgpt".to_string(), "ollama".to_string()]
}

#[test]
fn test_plan_route_standard_keeps_all() {
    let scanner = PrivacyScanner::new(PrivacyConfig::default());
    let health = ProviderHealthRegistry::default();
    let plan = plan_route(&scanner, &health, "summarize the report", &candidates(), &zdr_map())
        .expect("all backends healthy");
    assert_eq!(plan.scan.level, PrivacyLevel::Standard);
    assert_eq!(plan.candidates, candidates());
}

#[test]
fn test_plan_route_sensitive_prompt_filters_non_zdr() {
    let scanner = PrivacyScanner::new(PrivacyConfig::default());
    let health = ProviderHealthRegistry::default();
    let plan = plan_route(
        &scanner,
        &health,
        "update the password field in the form",
        &candidates(),
        &zdr_map(),
    )
        .expect("ZDR backends remain");
    assert_eq!(plan.scan.level, PrivacyLevel::Strict);
    assert!(plan.scan.escalated);
    assert_eq!(plan.candidates, vec!["mistral".to_string(), "ollama".to_string()]);
}

#[test]
fn test_plan_route_no_eligible_backend() {
    let scanner = PrivacyScanner::new(PrivacyConfig::default());
    let health = ProviderHealthRegistry::default();
    let only_non_zdr = vec!["chatgpt".to_string()];
    let err = plan_route(&scanner, &health, "rotate the password", &only_non_zdr, &zdr_map())
        .expect_err("no ZDR backend among the candidates");
    assert_eq!(err, RouteError::NoEligibleBackend);
}

#[test]
fn test_plan_route_drops_unavailable() {
    let scanner = PrivacyScanner::new(PrivacyConfig::default());
    let config = HealthConfig {
        unhealthy_failure_count: 1,
        cooldown_secs: 60,
        ..HealthConfig::default()
    };
    let mut health = ProviderHealthRegistry::new(config);
    health.record_failure("mistral");
    let plan = plan_route(&scanner, &health, "summarize the report", &candidates(), &zdr_map())
        .expect("other backends remain");
    assert_eq!(plan.candidates, vec!["chatgpt".to_string(), "ollama".to_string()]);
}

#[test]
fn test_record_route_outcome_success_audits_sensitive() {
    let config = PrivacyConfig {
        default_level: PrivacyLevel::Sensitive,
        ..PrivacyConfig::default()
    };
    let scanner = PrivacyScanner::new(config);
    let mut health = ProviderHealthRegistry::default();
    let mut audit = PrivacyAuditLog::default();
    let scan = scanner.scan("summarize the report");
    assert_eq!(scan.level, PrivacyLevel::Sensitive);

    // Success on a non-ZDR backend at Sensitive level: recorded and audited
    record_route_outcome(&mut health, &mut audit, &scan, "chatgpt", false, true, 120);
    assert_eq!(audit.violations().len(), 1);
    assert_eq!(audit.violations()[0].backend, "chatgpt");
    let info = health.get_health_info("chatgpt");
    assert_eq!(info.successful_requests, 1);

    // Success on a ZDR backend: recorded, not audited
    record_route_outcome(&mut health, &mut audit, &scan, "mistral", true, true, 80);
    assert_eq!(audit.violations().len(), 1);
}

#[test]
fn test_record_route_outcome_failure() {
    let scanner = PrivacyScanner::new(PrivacyConfig::default());
    let mut health = ProviderHealthRegistry::default();
    let mut audit = PrivacyAuditLog::default();
    let scan = scanner.scan("summarize the report");

    record_route_outcome(&mut health, &mut audit, &scan, "ollama", true, false, 0);
    assert!(audit.violations().is_empty());
    let info = health.get_health_info("ollama");
    assert_eq!(info.failed_requests, 1);
    assert_eq!(info.consecutive_failures, 1);
}
