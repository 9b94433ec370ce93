use std::time::Duration;

use pixelcoords_core::wait::{poll_budget, satisfied, Condition, WaitError};

#[test]
fn the_documented_budget_is_the_one_computed() {
    assert_eq!(
        poll_budget(Duration::from_secs(30), Duration::from_millis(500)).unwrap(),
        61,
        "one immediate poll, then sixty"
    );
}

#[test]
fn an_interval_equal_to_the_timeout_still_polls_twice() {
    assert_eq!(
        poll_budget(Duration::from_secs(5), Duration::from_secs(5)).unwrap(),
        2,
        "once now, once at the deadline"
    );
}

#[test]
fn a_ragged_division_keeps_the_polls_that_fit() {
    assert_eq!(poll_budget(Duration::from_secs(1), Duration::from_millis(300)).unwrap(), 4);
}

#[test]
fn a_zero_interval_is_refused_rather_than_spinning() {
    assert_eq!(
        poll_budget(Duration::from_secs(1), Duration::ZERO).unwrap_err(),
        WaitError::ZeroInterval
    );
}

#[test]
fn an_interval_past_the_timeout_is_refused_as_a_mistake() {
    let err = poll_budget(Duration::from_secs(1), Duration::from_secs(2)).unwrap_err();
    assert_eq!(
        err,
        WaitError::IntervalExceedsTimeout {
            interval: Duration::from_secs(2),
            timeout: Duration::from_secs(1),
        },
        "a single poll makes the timeout meaningless — say so"
    );
    assert!(err.to_string().contains("polled twice"));
}

/// Whether one poll's scores end the wait, each score judged against the
/// floor as the caller does in floats.
fn satisfied_at(condition: Condition, scores: &[f64], min_score: f64) -> bool {
    let clears: Vec<bool> = scores.iter().map(|s| *s >= min_score).collect();
    satisfied(condition, &clears)
}

#[test]
fn match_needs_every_region_and_change_needs_one() {
    let all_high = [0.99, 0.95];
    let one_low = [0.99, 0.10];

    assert!(satisfied_at(Condition::Match, &all_high, 0.9));
    assert!(!satisfied_at(Condition::Match, &one_low, 0.9), "match is all");

    assert!(satisfied_at(Condition::Change, &one_low, 0.9), "change is any");
    assert!(!satisfied_at(Condition::Change, &all_high, 0.9));
}

#[test]
fn the_floor_is_inclusive_on_both_verbs() {
    assert!(satisfied_at(Condition::Match, &[0.9], 0.9));
    assert!(!satisfied_at(Condition::Change, &[0.9], 0.9));
}

#[test]
fn nothing_to_watch_satisfies_neither() {
    assert!(!satisfied_at(Condition::Match, &[], 0.9));
    assert!(
        !satisfied_at(Condition::Change, &[], 0.9),
        "a wait that verified nothing has not succeeded"
    );
}
