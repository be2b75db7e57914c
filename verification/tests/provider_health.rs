use gateway_core::circuit_breaker::CircuitBreakerConfig;
use gateway_core::circuit_breaker::CircuitBreakerDecision;
use gateway_core::circuit_breaker::CircuitBreakerRegistry;
use gateway_core::circuit_breaker::CircuitState;
use gateway_core::provider_health::HealthConfig;
use gateway_core::provider_health::HealthState;
use gateway_core::provider_health::ProviderHealthRegistry;

#[test]
fn test_starts_healthy() {
    let registry = ProviderHealthRegistry::default();
    assert_eq!(registry.get_health("test"), HealthState::Healthy);
    assert!(registry.is_available("test"));
}

#[test]
fn test_success_tracking() {
    let mut registry = ProviderHealthRegistry::default();
    registry.record_success("test", 100);
    registry.record_success("test", 200);

    let info = registry.get_health_info("test");
    assert_eq!(info.total_requests, 2);
    assert_eq!(info.successful_requests, 2);
    assert_eq!(info.failed_requests, 0);
    assert_eq!(info.avg_latency_ms, 150);
}

#[test]
fn test_degraded_on_failures() {
    let config = HealthConfig {
        degraded_failure_count: 2,
        unhealthy_failure_count: 5,
        ..HealthConfig::default()
    };
    let mut registry = ProviderHealthRegistry::new(config);

    registry.record_failure("test");
    assert_eq!(registry.get_health("test"), HealthState::Healthy);

    registry.record_failure("test");
    assert_eq!(registry.get_health("test"), HealthState::Degraded);

    // Success resets
    registry.record_success("test", 100);
    assert_eq!(registry.get_health("test"), HealthState::Healthy);
}

#[test]
fn test_unhealthy_on_many_failures() {
    let config = HealthConfig {
        degraded_failure_count: 2,
        unhealthy_failure_count: 4,
        cooldown_secs: 60,
        ..HealthConfig::default()
    };
    let mut registry = ProviderHealthRegistry::new(config);

    for _ in 0..4 {
        registry.record_failure("test");
    }

    assert_eq!(registry.get_health("test"), HealthState::Unhealthy);
    assert!(!registry.is_available("test"));
}

#[test]
fn test_degraded_on_high_latency() {
    let config = HealthConfig {
        degraded_latency_ms: 1000, // 1 second
        latency_window: 3,
        ..HealthConfig::default()
    };
    let mut registry = ProviderHealthRegistry::new(config);

    // High latency requests
    registry.record_success("test", 2000);
    registry.record_success("test", 2000);
    registry.record_success("test", 2000);

    assert_eq!(registry.get_health("test"), HealthState::Degraded);
}

#[test]
fn test_latency_window_overwrites_oldest() {
    let config = HealthConfig {
        degraded_latency_ms: 1000,
        latency_window: 3,
        ..HealthConfig::default()
    };
    let mut registry = ProviderHealthRegistry::new(config);

    registry.record_success("test", 4000);
    registry.record_success("test", 4000);
    registry.record_success("test", 4000);
    assert_eq!(registry.get_health("test"), HealthState::Degraded);

    // Three fast samples push the slow ones out of the window of 3
    registry.record_success("test", 10);
    registry.record_success("test", 10);
    registry.record_success("test", 10);
    assert_eq!(registry.get_health("test"), HealthState::Healthy);
    assert_eq!(registry.get_health_info("test").avg_latency_ms, 10);
}

#[test]
fn test_filter_available() {
    let config = HealthConfig {
        unhealthy_failure_count: 2,
        cooldown_secs: 60,
        ..HealthConfig::default()
    };
    let mut registry = ProviderHealthRegistry::new(config);

    // Make backend2 unhealthy
    registry.record_failure("backend2");
    registry.record_failure("backend2");

    let backends = vec![
        "backend1".to_string(),
        "backend2".to_string(),
        "backend3".to_string(),
    ];
    let available = registry.filter_available(&backends);

    assert!(available.contains(&"backend1".to_string()));
    assert!(!available.contains(&"backend2".to_string()));
    assert!(available.contains(&"backend3".to_string()));
}

#[test]
fn test_cooldown_blocks_availability() {
    let config = HealthConfig {
        unhealthy_failure_count: 2,
        cooldown_secs: 60,
        ..HealthConfig::default()
    };
    let mut registry = ProviderHealthRegistry::new(config);

    registry.record_failure("test");
    assert!(registry.is_available("test"));
    registry.record_failure("test");
    assert!(!registry.is_available("test"));

    // A subsequent success clears the cooldown and the failure streak
    registry.record_success("test", 50);
    assert!(registry.is_available("test"));
    let info = registry.get_health_info("test");
    assert_eq!(info.consecutive_failures, 0);
    assert!(info.cooldown_until.is_none());
}

#[test]
fn test_success_clears_failure_streak_and_cooldown() {
    let mut registry = ProviderHealthRegistry::default();
    for _ in 0..5 {
        registry.record_failure("test");
    }
    let before = registry.get_health_info("test");
    assert_eq!(before.consecutive_failures, 5);
    assert!(before.cooldown_until.is_some());

    registry.record_success("test", 42);
    let after = registry.get_health_info("test");
    assert_eq!(after.consecutive_failures, 0);
    assert!(after.cooldown_until.is_none());
    assert!(after.last_success.is_some());
}

#[test]
fn test_breaker_mirroring_and_status() {
    let cb_config = CircuitBreakerConfig {
        failure_threshold: 2,
        recovery_timeout_secs: 3600,
        half_open_probes: 1,
        enabled: true,
    };
    let breakers = CircuitBreakerRegistry::new(cb_config);
    let mut registry = ProviderHealthRegistry::default().with_circuit_breakers(breakers);

    registry.record_failure("api");
    registry.record_failure("api");

    let status = registry.get_status("api");
    assert_eq!(status.backend, "api");
    assert_eq!(status.circuit_state, CircuitState::Open);
    assert!(!status.available);

    // The breaker is open, so the backend is unavailable even though the
    // health side alone (2 < 5 failures) would still admit it
    assert_eq!(registry.get_health("api"), HealthState::Degraded);
    assert!(!registry.is_available("api"));
}

#[test]
fn test_check_breaker_gates_after_failures() {
    let cb_config = CircuitBreakerConfig {
        failure_threshold: 2,
        recovery_timeout_secs: 3600,
        half_open_probes: 1,
        enabled: true,
    };
    let breakers = CircuitBreakerRegistry::new(cb_config);
    let mut registry = ProviderHealthRegistry::default().with_circuit_breakers(breakers);

    assert_eq!(registry.check_breaker("api"), CircuitBreakerDecision::Allow);
    registry.record_failure("api");
    registry.record_failure("api");
    assert_eq!(registry.check_breaker("api"), CircuitBreakerDecision::Reject);

    // A success closes the circuit again
    registry.record_success("api", 25);
    assert_eq!(registry.check_breaker("api"), CircuitBreakerDecision::Allow);

    // Without an attached registry everything is allowed
    let mut bare = ProviderHealthRegistry::default();
    assert_eq!(bare.check_breaker("api"), CircuitBreakerDecision::Allow);
}

#[test]
fn test_all_health_info() {
    let mut registry = ProviderHealthRegistry::default();
    registry.record_success("a", 10);
    registry.record_failure("b");
    let infos = registry.all_health_info();
    assert_eq!(infos.len(), 2);
    assert_eq!(infos[0].backend, "a");
    assert_eq!(infos[0].successful_requests, 1);
    assert_eq!(infos[1].backend, "b");
    assert_eq!(infos[1].failed_requests, 1);
}
