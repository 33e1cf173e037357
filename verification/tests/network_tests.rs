use raft::network::{retries_exhausted, RetryStrategy};
use std::time::Duration;

fn nanos(d: Duration) -> u128 {
    d.as_nanos()
}

#[test]
fn test_retry_strategies() {
    let static_delay = nanos(Duration::from_millis(50));
    let static_strategy = RetryStrategy::Static { delay: static_delay };
    assert_eq!(static_strategy.calculate_retry_delay(1), static_delay);
    assert_eq!(static_strategy.calculate_retry_delay(5), static_delay);

    let base_delay = nanos(Duration::from_millis(10));
    let max_delay = nanos(Duration::from_millis(100));
    let exp_strategy = RetryStrategy::Exponential { base: base_delay, max: max_delay };

    // First attempt: 10ms
    assert_eq!(exp_strategy.calculate_retry_delay(0), base_delay);
    // Second attempt: 20ms
    assert_eq!(exp_strategy.calculate_retry_delay(1), nanos(Duration::from_millis(20)));
    // Third attempt: 40ms
    assert_eq!(exp_strategy.calculate_retry_delay(2), nanos(Duration::from_millis(40)));
    // Should be capped at max_delay
    assert_eq!(exp_strategy.calculate_retry_delay(10), max_delay);
}

#[test]
fn exponential_delay_matches_duration_arithmetic() {
    let base = Duration::from_millis(3);
    let max = Duration::from_secs(60);
    let s = RetryStrategy::Exponential { base: nanos(base), max: nanos(max) };
    for a in 0..20u32 {
        let expected = std::cmp::min(base * 2_u32.pow(a), max);
        assert_eq!(s.calculate_retry_delay(a), nanos(expected));
    }
}

#[test]
fn checked_delay_refuses_overflow() {
    let s = RetryStrategy::Exponential { base: 1, max: 10 };
    assert_eq!(s.checked_retry_delay(31), Some(10));
    assert_eq!(s.checked_retry_delay(32), None);
    let big = RetryStrategy::Exponential { base: nanos(Duration::MAX), max: 10 };
    assert_eq!(big.checked_retry_delay(0), Some(10));
    assert_eq!(big.checked_retry_delay(1), None);
    let st = RetryStrategy::Static { delay: 7 };
    assert_eq!(st.checked_retry_delay(1000), Some(7));
}

#[test]
fn retry_steps_until_count_is_spent() {
    let s = RetryStrategy::Exponential { base: 100, max: 1_000 };
    assert_eq!(s.after_failed_attempt(0, 3), (1, Some(200)));
    assert_eq!(s.after_failed_attempt(1, 3), (2, Some(400)));
    assert_eq!(s.after_failed_attempt(2, 3), (3, None));
}

#[test]
fn exhausted_retries_name_the_node() {
    assert_eq!(retries_exhausted(42), "Failed to send message to 42: Max retry attempts reached");
}
