use harnesssphere::policy::{classify_failure, BreakerState, CircuitBreaker, FailureAction};
use harnesssphere::ports::Criticality;
use std::time::Duration;

#[test]
fn optional_never_fatal() {
    let mut b = CircuitBreaker::new(3);
    for _ in 0..100 {
        b.record_failure();
    }
    assert_eq!(classify_failure(Criticality::Optional, &b), FailureAction::Degrade);
}

#[test]
fn critical_tolerates_transient_then_fatal() {
    let mut b = CircuitBreaker::new(3);
    b.record_failure();
    b.record_failure();
    assert_eq!(classify_failure(Criticality::Critical, &b), FailureAction::Degrade);
    b.record_failure();
    assert_eq!(classify_failure(Criticality::Critical, &b), FailureAction::Fatal);
}

#[test]
fn success_resets() {
    let mut b = CircuitBreaker::new(3);
    b.record_failure();
    b.record_failure();
    b.record_success();
    assert_eq!(b.consecutive_failures(), 0);
    assert!(!b.is_open());
}

#[test]
fn backoff_grows_and_saturates() {
    let mut b = CircuitBreaker::new(3);
    assert_eq!(b.backoff(), Duration::from_secs(1));
    b.record_failure();
    b.record_failure();
    assert_eq!(b.backoff(), Duration::from_secs(2));
    for _ in 0..20 {
        b.record_failure();
    }
    assert_eq!(b.backoff(), Duration::from_secs(60));
}

#[test]
fn backoff_doubles_per_failure_until_the_ceiling() {
    let mut b = CircuitBreaker::new(3);
    let mut seen = Vec::new();
    for _ in 0..8 {
        b.record_failure();
        seen.push(b.backoff_secs());
    }
    assert_eq!(seen, vec![1, 2, 4, 8, 16, 32, 60, 60]);
}

#[test]
fn trip_open_does_not_count_a_failure() {
    let mut b = CircuitBreaker::new(3);
    b.trip_open();
    assert!(b.is_open());
    assert_eq!(b.state(), BreakerState::Open);
    assert_eq!(b.consecutive_failures(), 0);
    assert_eq!(classify_failure(Criticality::Critical, &b), FailureAction::Degrade);
}

#[test]
fn failures_saturate_instead_of_wrapping() {
    let mut b = CircuitBreaker::new(u32::MAX);
    for _ in 0..5 {
        b.record_failure();
    }
    assert_eq!(b.consecutive_failures(), 5);
    assert_eq!(classify_failure(Criticality::Critical, &b), FailureAction::Degrade);
}

#[test]
fn a_zero_threshold_is_fatal_on_any_critical_failure() {
    let mut b = CircuitBreaker::new(0);
    assert_eq!(classify_failure(Criticality::Critical, &b), FailureAction::Fatal);
    b.record_failure();
    assert_eq!(classify_failure(Criticality::Critical, &b), FailureAction::Fatal);
}
