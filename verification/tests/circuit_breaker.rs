use gateway_core::circuit_breaker::CircuitBreaker;
use gateway_core::circuit_breaker::CircuitBreakerConfig;
use gateway_core::circuit_breaker::CircuitBreakerDecision;
use gateway_core::circuit_breaker::CircuitBreakerRegistry;
use gateway_core::circuit_breaker::CircuitState;

#[test]
fn test_circuit_breaker_starts_closed() {
    let mut cb = CircuitBreaker::new("test", CircuitBreakerConfig::default());
    assert_eq!(cb.state(), CircuitState::Closed);
    assert_eq!(cb.check(), CircuitBreakerDecision::Allow);
}

#[test]
fn test_circuit_opens_after_failures() {
    let config = CircuitBreakerConfig {
        failure_threshold: 3,
        recovery_timeout_secs: 30,
        half_open_probes: 2,
        enabled: true,
    };
    let mut cb = CircuitBreaker::new("test", config);

    // First two failures keep circuit closed
    cb.record_failure();
    assert_eq!(cb.state(), CircuitState::Closed);
    cb.record_failure();
    assert_eq!(cb.state(), CircuitState::Closed);

    // Third failure opens circuit
    cb.record_failure();
    assert_eq!(cb.state(), CircuitState::Open);
    assert_eq!(cb.check(), CircuitBreakerDecision::Reject);
}

#[test]
fn test_success_resets_failure_count() {
    let config = CircuitBreakerConfig {
        failure_threshold: 3,
        recovery_timeout_secs: 30,
        half_open_probes: 2,
        enabled: true,
    };
    let mut cb = CircuitBreaker::new("test", config);

    cb.record_failure();
    cb.record_failure();
    cb.record_success(); // Resets consecutive failures
    cb.record_failure();
    cb.record_failure();

    // Still closed because success reset the count
    assert_eq!(cb.state(), CircuitState::Closed);
}

#[test]
fn test_circuit_breaker_disabled() {
    let config = CircuitBreakerConfig { enabled: false, ..CircuitBreakerConfig::default() };
    let mut cb = CircuitBreaker::new("test", config);

    // Record many failures
    for _ in 0..10 {
        cb.record_failure();
    }

    // Circuit should still allow requests when disabled
    assert_eq!(cb.check(), CircuitBreakerDecision::Allow);
}

#[test]
fn test_half_open_recovery() {
    let config = CircuitBreakerConfig {
        failure_threshold: 2,
        recovery_timeout_secs: 0, // Immediate recovery for testing
        half_open_probes: 2,
        enabled: true,
    };
    let mut cb = CircuitBreaker::new("test", config);

    // Open the circuit
    cb.record_failure();
    cb.record_failure();
    assert_eq!(cb.state(), CircuitState::Open);

    // The recovery window of 0 s has elapsed immediately:
    // the check transitions to half-open
    let decision = cb.check();
    assert_eq!(decision, CircuitBreakerDecision::Probe);
    assert_eq!(cb.state(), CircuitState::HalfOpen);

    // Successful probes close the circuit
    cb.record_success();
    assert_eq!(cb.state(), CircuitState::HalfOpen);
    cb.record_success();
    assert_eq!(cb.state(), CircuitState::Closed);
}

#[test]
fn test_half_open_failure_reopens() {
    let config = CircuitBreakerConfig {
        failure_threshold: 2,
        recovery_timeout_secs: 0,
        half_open_probes: 2,
        enabled: true,
    };
    let mut cb = CircuitBreaker::new("test", config);

    // Open circuit and transition to half-open
    cb.record_failure();
    cb.record_failure();
    cb.check(); // Triggers transition to half-open

    // Failure in half-open reopens circuit
    cb.record_failure();
    assert_eq!(cb.state(), CircuitState::Open);
}

#[test]
fn test_registry_per_backend() {
    let mut registry = CircuitBreakerRegistry::default();

    // Different backends get different circuit breakers
    let _cb2 = registry.get("backend2");
    let cb1 = registry.get("backend1");

    cb1.record_failure();
    cb1.record_failure();
    cb1.record_failure();
    cb1.record_failure();
    cb1.record_failure();

    // Only backend1 should be affected
    assert!(registry.is_open("backend1"));
    assert!(!registry.is_open("backend2"));
}

#[test]
fn circuit_breaker_test_stats() {
    let mut cb = CircuitBreaker::new("test", CircuitBreakerConfig::default());

    cb.record_success();
    cb.record_success();
    cb.record_failure();

    let stats = cb.stats();
    assert_eq!(stats.name, "test");
    assert_eq!(stats.total_successes, 2);
    assert_eq!(stats.total_failures, 1);
    assert_eq!(stats.state, CircuitState::Closed);
}

#[test]
fn test_rejections_are_counted() {
    let config = CircuitBreakerConfig {
        failure_threshold: 1,
        recovery_timeout_secs: 3600,
        half_open_probes: 1,
        enabled: true,
    };
    let mut cb = CircuitBreaker::new("test", config);
    cb.record_failure();
    assert_eq!(cb.check(), CircuitBreakerDecision::Reject);
    assert_eq!(cb.check(), CircuitBreakerDecision::Reject);
    let stats = cb.stats();
    assert_eq!(stats.total_rejections, 2);
    assert_eq!(stats.consecutive_failures, 1);
}

#[test]
fn test_registry_check_and_record() {
    let config = CircuitBreakerConfig {
        failure_threshold: 2,
        recovery_timeout_secs: 3600,
        half_open_probes: 1,
        enabled: true,
    };
    let mut registry = CircuitBreakerRegistry::new(config);
    assert_eq!(registry.check("api"), CircuitBreakerDecision::Allow);
    registry.record_failure("api");
    registry.record_failure("api");
    assert_eq!(registry.check("api"), CircuitBreakerDecision::Reject);
    registry.record_success("api");
    assert_eq!(registry.check("api"), CircuitBreakerDecision::Allow);

    let stats = registry.stats("api").unwrap();
    assert_eq!(stats.total_failures, 2);
    assert_eq!(stats.total_successes, 1);
    assert!(registry.stats("unknown").is_none());
    assert_eq!(registry.all_stats().len(), 1);
}
