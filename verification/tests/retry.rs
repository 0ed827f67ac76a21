use std::time::Duration;

use traitclaw::retry::RetryPolicy;

#[test]
fn test_exponential_backoff_delay() {
    let policy = RetryPolicy::exponential(3, Duration::from_millis(100));

    let d0 = policy.backoff_delay(0);
    let d1 = policy.backoff_delay(1);
    let d2 = policy.backoff_delay(2);

    assert_eq!(d0, Duration::from_millis(100));
    assert_eq!(d1, Duration::from_millis(200));
    assert_eq!(d2, Duration::from_millis(400));
}

#[test]
fn test_max_delay_cap() {
    let policy =
        RetryPolicy::exponential(10, Duration::from_millis(100)).with_max_delay(Duration::from_millis(300));
    let d5 = policy.backoff_delay(5);
    assert_eq!(d5, Duration::from_millis(300));
}

#[test]
fn test_retryable_status_codes() {
    assert!(RetryPolicy::is_retryable(429));
    assert!(RetryPolicy::is_retryable(500));
    assert!(RetryPolicy::is_retryable(502));
    assert!(RetryPolicy::is_retryable(503));
    assert!(RetryPolicy::is_retryable(504));
}

#[test]
fn test_non_retryable_status_codes() {
    assert!(!RetryPolicy::is_retryable(200));
    assert!(!RetryPolicy::is_retryable(400));
    assert!(!RetryPolicy::is_retryable(401));
    assert!(!RetryPolicy::is_retryable(404));
}

#[test]
fn test_max_retries_field() {
    let policy = RetryPolicy::exponential(5, Duration::from_secs(1));
    assert_eq!(policy.max_retries, 5);
}

#[test]
fn test_default_policy() {
    let policy = RetryPolicy::default();
    assert_eq!(policy.max_retries, 3);
    assert_eq!(policy.initial_delay, Duration::from_secs(1));
    assert!(!policy.jitter);
}

#[test]
fn default_cap_is_sixty_seconds() {
    let policy = RetryPolicy::exponential(3, Duration::from_secs(1));
    assert_eq!(policy.max_delay, Duration::from_secs(60));
    assert_eq!(policy.backoff_delay(10), Duration::from_secs(60));
}

#[test]
fn backoff_saturates_instead_of_wrapping() {
    let policy = RetryPolicy::exponential(3, Duration::from_millis(100));
    assert_eq!(policy.backoff_delay(32), Duration::from_secs(60));
    assert_eq!(policy.backoff_delay(usize::MAX), Duration::from_secs(60));
    let wide = RetryPolicy::exponential(3, Duration::from_millis(1)).with_max_delay(Duration::from_secs(1_000_000_000));
    assert_eq!(wide.backoff_delay(31), Duration::from_millis(1 << 31));
    assert_eq!(wide.backoff_delay(32), Duration::from_millis(1 << 32));
    assert_eq!(wide.backoff_delay(200), Duration::from_secs(1_000_000_000));
    let zero = RetryPolicy::exponential(3, Duration::ZERO);
    assert_eq!(zero.backoff_delay(1000), Duration::ZERO);
}

#[test]
fn jitter_percent_is_the_seed_modulo_51() {
    let policy = RetryPolicy::exponential(3, Duration::from_millis(100)).with_jitter();
    assert_eq!(policy.jitter_percent_for(0), 12);
    assert_eq!(policy.jitter_percent_for(1), 13);
    assert!(policy.jitter_percent_for(7) <= 50);
}
