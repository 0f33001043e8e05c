use slack_bot::retry::{Retry, RetryStep};

/// Drives a retry over an operation whose i-th call succeeds exactly when
/// `outcomes[i]` says so. Returns the calls made, the pauses taken and the
/// index of the call whose outcome was returned.
fn drive(count: usize, interval_ms: u64, outcomes: &[bool]) -> (usize, Vec<u64>, usize) {
    let mut retry = Retry::new(count, interval_ms);
    let mut calls = 0;
    let mut pauses = Vec::new();
    loop {
        let succeeded = outcomes[calls];
        calls += 1;
        match retry.after_attempt(succeeded) {
            RetryStep::Return => return (calls, pauses, calls - 1),
            RetryStep::RetryAfter(ms) => pauses.push(ms),
        }
    }
}

#[test]
fn success_at_once_is_returned_without_a_pause() {
    assert_eq!(drive(3, 5000, &[true]), (1, vec![], 0));
}

#[test]
fn fails_twice_then_succeeds() {
    assert_eq!(drive(3, 5000, &[false, false, true]), (3, vec![5000, 5000], 2));
    assert_eq!(drive(10, 7, &[false, false, true, true]), (3, vec![7, 7], 2));
}

#[test]
fn k_failures_take_k_pauses_and_one_more_call() {
    for k in 0..6usize {
        let mut outcomes = vec![false; k];
        outcomes.push(true);
        for spare in 0..3 {
            let (calls, pauses, returned) = drive(k + 1 + spare, 250, &outcomes);
            assert_eq!(calls, k + 1);
            assert_eq!(pauses, vec![250; k]);
            assert!(outcomes[returned]);
        }
    }
}

#[test]
fn always_failing_uses_every_attempt_and_returns_the_last_failure() {
    for m in 1..6usize {
        let (calls, pauses, returned) = drive(m, 40, &vec![false; m]);
        assert_eq!(calls, m);
        assert_eq!(pauses, vec![40; m - 1]);
        assert_eq!(returned, m - 1);
    }
}

#[test]
fn a_success_that_comes_too_late_is_never_tried() {
    assert_eq!(drive(2, 1, &[false, false, true]), (2, vec![1], 1));
}

#[test]
fn a_count_of_zero_still_makes_one_attempt() {
    assert_eq!(drive(0, 5000, &[false]), (1, vec![], 0));
    assert_eq!(drive(0, 5000, &[true]), (1, vec![], 0));
    assert_eq!(drive(1, 5000, &[false]), (1, vec![], 0));
}

#[test]
fn attempts_are_counted_up_to_the_limit() {
    let mut retry = Retry::new(2, 9);
    assert_eq!(retry.attempts(), 0);
    assert_eq!(retry.after_attempt(false), RetryStep::RetryAfter(9));
    assert_eq!(retry.attempts(), 1);
    assert_eq!(retry.after_attempt(false), RetryStep::Return);
    assert_eq!(retry.attempts(), 2);
    assert_eq!(retry.after_attempt(false), RetryStep::Return);
    assert_eq!(retry.attempts(), 2);
}
