use raft::timer::{Timer, TimerType};
use std::time::{Duration, Instant};

#[test]
fn test_timer_creation() {
    let election_timer = Timer::new_election_timer();
    assert_eq!(election_timer.timer_type, TimerType::Election);
    assert!(!election_timer.is_running);

    let heartbeat_timer = Timer::new_heartbeat_timer();
    assert_eq!(heartbeat_timer.timer_type, TimerType::Heartbeat);
    assert!(!heartbeat_timer.is_running);
}

#[test]
fn test_timer_start_stop() {
    let mut timer = Timer::new_election_timer();

    assert!(!timer.is_running);
    timer.start();
    assert!(timer.is_running);
    timer.stop();
    assert!(!timer.is_running);
}

#[test]
fn test_timer_not_expired_when_stopped() {
    let mut timer = Timer::new_heartbeat_timer();
    timer.start();
    timer.stop();
    assert!(!timer.is_expired());
}

#[test]
fn test_heartbeat_timeout() {
    let mut timer = Timer::new_heartbeat_timer();
    timer.start();

    // Should not be expired immediately
    assert!(!timer.is_expired());

    // Wait for timeout
    let begin = Instant::now();
    while begin.elapsed() < Duration::from_millis(150) {}
    assert!(timer.is_expired());
}

#[test]
fn test_election_timeout_randomness() {
    let timer1 = Timer::new_election_timer();
    let timer2 = Timer::new_election_timer();
    let timer3 = Timer::new_election_timer();

    // Timeouts should be different (random)
    let timeouts = vec![timer1.election_timeout, timer2.election_timeout, timer3.election_timeout];

    // At least two should be different (very likely)
    assert!(timeouts.iter().any(|&t| t != timeouts[0]));
}

#[test]
fn test_timer_reset() {
    let mut timer = Timer::new_election_timer();
    let first_timeout = timer.election_timeout;

    timer.start();
    timer.reset();

    // Should have new random timeout
    assert_ne!(timer.election_timeout, first_timeout);
    assert!(timer.is_running);
}

#[test]
fn test_remaining_time() {
    let mut timer = Timer::new_heartbeat_timer();

    // Not running
    assert_eq!(timer.remaining_time(), None);

    timer.start();
    let remaining = timer.remaining_time().unwrap();

    // Should be close to heartbeat timeout
    assert!(remaining <= Duration::from_millis(100).as_nanos());
    assert!(remaining > Duration::from_millis(0).as_nanos());
}

#[test]
fn election_timeouts_are_whole_milliseconds_in_range() {
    for _ in 0..200 {
        let t = Timer::new_election_timer().election_timeout;
        assert_eq!(t % 1_000_000, 0);
        assert!(t >= Duration::from_millis(150).as_nanos());
        assert!(t < Duration::from_millis(300).as_nanos());
    }
}

#[test]
fn heartbeat_timer_has_fixed_timeouts() {
    let mut timer = Timer::new_heartbeat_timer();
    assert_eq!(timer.get_timeout(), Duration::from_millis(100).as_nanos());
    assert_eq!(timer.election_timeout, Duration::from_millis(1500).as_nanos());
    timer.reset();
    assert_eq!(timer.election_timeout, Duration::from_millis(1500).as_nanos());
    assert!(timer.is_running);
}

#[test]
fn expiry_and_remaining_after_given_elapsed() {
    let mut timer = Timer::new_heartbeat_timer();
    assert!(!timer.expired_after(500_000_000));
    assert_eq!(timer.remaining_after(10), None);
    timer.start();
    assert!(!timer.expired_after(99_999_999));
    assert!(timer.expired_after(100_000_000));
    assert_eq!(timer.remaining_after(40_000_000), Some(60_000_000));
    assert_eq!(timer.remaining_after(100_000_001), Some(0));
    timer.stop();
    assert!(!timer.expired_after(u128::MAX));
}

#[test]
fn bounded_wait_takes_the_shorter() {
    let timer = Timer::new_heartbeat_timer();
    assert_eq!(timer.bounded_wait(50_000_000), (50_000_000, false));
    assert_eq!(timer.bounded_wait(200_000_000), (100_000_000, true));
    assert_eq!(timer.bounded_wait(100_000_000), (100_000_000, true));
}

#[test]
fn wait_after_ignores_running_flag() {
    let mut timer = Timer::new_heartbeat_timer();
    assert_eq!(timer.wait_after(0), None);
    assert_eq!(timer.wait_until_expired_delay(), None);
    timer.start();
    assert_eq!(timer.wait_after(30_000_000), Some(70_000_000));
    assert_eq!(timer.wait_after(100_000_000), None);
    timer.is_running = false;
    assert_eq!(timer.wait_after(30_000_000), Some(70_000_000));
}

#[test]
fn timers_keep_kind_and_timeouts_through_operations() {
    let mut e = Timer::new_election_timer();
    let mut h = Timer::new_heartbeat_timer();
    for _ in 0..5 {
        e.start();
        e.reset();
        e.stop();
        h.start();
        h.reset();
        h.stop();
        assert_eq!(e.timer_type, TimerType::Election);
        assert_eq!(h.timer_type, TimerType::Heartbeat);
        let t = e.get_timeout();
        assert!(t >= Duration::from_millis(150).as_nanos() && t < Duration::from_millis(300).as_nanos());
        assert_eq!(h.get_timeout(), Duration::from_millis(100).as_nanos());
        assert_eq!(e.heartbeat_timeout, Duration::from_millis(100).as_nanos());
    }
}
