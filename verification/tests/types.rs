use std::time::Duration;

use traitclaw::agent_loop::RunUsage;
use traitclaw::types::Usage;

#[test]
fn test_usage_default_zeros() {
    let usage = Usage::default();
    assert_eq!(usage.total_tokens, 0);
    assert_eq!(usage.prompt_tokens, 0);
    assert_eq!(usage.completion_tokens, 0);
}

#[test]
fn test_run_usage_default() {
    let u = RunUsage::default();
    assert_eq!(u.tokens, 0);
    assert_eq!(u.iterations, 0);
    assert_eq!(u.duration, Duration::ZERO);
}

#[test]
fn test_usage_carried_through() {
    let usage = RunUsage { tokens: 100, iterations: 5, duration: Duration::from_millis(500) };
    assert_eq!(usage.tokens, 100);
    assert_eq!(usage.iterations, 5);
    assert_eq!(usage.duration.as_millis(), 500);
}
