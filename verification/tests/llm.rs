use gateway_core::llm::AttemptFailure;
use gateway_core::llm::INITIAL_BACKOFF_MS;
use gateway_core::llm::JITTER_DEN;
use gateway_core::llm::JITTER_NUM;
use gateway_core::llm::MAX_BACKOFF_MS;
use gateway_core::llm::MAX_RETRIES;
use gateway_core::llm::RetryDecision;
use gateway_core::llm::RetryState;
use gateway_core::llm::is_retryable_status;
use gateway_core::llm::jittered_backoff;
use gateway_core::llm::plan_retry;

#[test]
fn test_jittered_backoff() {
    // Run multiple times to verify jitter is applied
    let base = 1000u64;
    for _ in 0..10 {
        let result = jittered_backoff(base);
        assert!(result >= base);
        assert!(result <= base + base * JITTER_NUM / JITTER_DEN);
    }
}

#[test]
fn test_jittered_backoff_capped() {
    let result = jittered_backoff(MAX_BACKOFF_MS);
    assert_eq!(result, MAX_BACKOFF_MS);
    assert_eq!(jittered_backoff(0), 0);
}

#[test]
fn test_is_retryable_status() {
    assert!(is_retryable_status(429));
    assert!(is_retryable_status(500));
    assert!(is_retryable_status(502));
    assert!(is_retryable_status(503));
    assert!(!is_retryable_status(400));
    assert!(!is_retryable_status(401));
    assert!(!is_retryable_status(404));
}

#[test]
fn test_retry_gives_up_on_non_retryable() {
    let mut state = RetryState::new();
    let decision = plan_retry(
        &mut state,
        &AttemptFailure::Status { code: 404, retry_after_secs: None },
    );
    assert_eq!(decision, RetryDecision::GiveUp);
    assert_eq!(state.attempts, 1);
    assert_eq!(state.retries, 0);
}

#[test]
fn test_retry_honors_retry_after_header() {
    let mut state = RetryState::new();
    let decision = plan_retry(
        &mut state,
        &AttemptFailure::Status { code: 429, retry_after_secs: Some(2) },
    );
    assert_eq!(decision, RetryDecision::RetryAfter { wait_ms: 2000 });
    assert_eq!(state.retries, 1);
    assert_eq!(state.backoff_ms, 2 * INITIAL_BACKOFF_MS);
}

#[test]
fn test_retry_backoff_doubles_and_caps() {
    let mut state = RetryState::new();
    let failure = AttemptFailure::Connection;

    let first = plan_retry(&mut state, &failure);
    match first {
        RetryDecision::RetryAfter { wait_ms } => {
            assert!(wait_ms >= INITIAL_BACKOFF_MS);
            assert!(wait_ms <= INITIAL_BACKOFF_MS + INITIAL_BACKOFF_MS * JITTER_NUM / JITTER_DEN);
        }
        RetryDecision::GiveUp => panic!("first connection failure must be retried"),
    }
    assert_eq!(state.backoff_ms, 2000);

    let second = plan_retry(&mut state, &failure);
    match second {
        RetryDecision::RetryAfter { wait_ms } => {
            assert!(wait_ms >= 2000);
            assert!(wait_ms <= 2000 + 2000 * JITTER_NUM / JITTER_DEN);
        }
        RetryDecision::GiveUp => panic!("second connection failure must be retried"),
    }
    assert_eq!(state.backoff_ms, 4000);
}

#[test]
fn test_retry_budget_exhausted() {
    let mut state = RetryState::new();
    let failure = AttemptFailure::Status { code: 503, retry_after_secs: Some(1) };
    let mut give_ups = 0u32;
    for _ in 0..MAX_RETRIES {
        match plan_retry(&mut state, &failure) {
            RetryDecision::RetryAfter { .. } => {}
            RetryDecision::GiveUp => give_ups += 1,
        }
    }
    // The failure of the last allowed attempt gives up; the ones before wait
    assert_eq!(give_ups, 1);
    assert_eq!(state.attempts, MAX_RETRIES);
    assert_eq!(state.retries, MAX_RETRIES - 1);
}
