//! Retrying a fallible operation a fixed number of times with a fixed pause.
//!
//! The caller runs the operation and suspends; [`Retry`] counts the
//! attempts and says after each one whether to stop.

use vstd::prelude::*;

verus! {

/// What to do after an attempt.
#[derive(Clone, Copy, Debug, PartialEq, Eq, Structural)]
pub enum RetryStep {
    /// Hand the outcome of this attempt to the caller.
    Return,
    /// Suspend for this many milliseconds, then try again.
    RetryAfter(u64),
}

/// The number of attempts that a count allows: the first attempt is made
/// whatever the count says.
pub open spec fn attempt_limit(count: int) -> int {
    if count < 1 {
        1
    } else {
        count
    }
}

/// Whether the attempt that brings the number of attempts to `made` is the
/// last one: it succeeded, or no attempt is left.
pub open spec fn is_last_attempt(limit: int, made: int, succeeded: bool) -> bool {
    succeeded || made >= limit
}

/// The number of attempts made in all, when `made` have been made without
/// stopping and the i-th attempt (counting from 0) succeeds exactly when
/// `outcomes[i]` holds.
pub open spec fn attempts_in_all(limit: int, made: int, outcomes: Seq<bool>) -> int
    decreases limit - made,
{
    let succeeded = 0 <= made < outcomes.len() && outcomes[made];
    if is_last_attempt(limit, made + 1, succeeded) {
        made + 1
    } else {
        attempts_in_all(limit, made + 1, outcomes)
    }
}

/// The number of pauses in all: one between any two attempts.
pub open spec fn pauses_in_all(limit: int, outcomes: Seq<bool>) -> int {
    attempts_in_all(limit, 0, outcomes) - 1
}

/// Which attempt (counting from 0) gives the outcome that is returned: the
/// last one made.
pub open spec fn returned_attempt(limit: int, outcomes: Seq<bool>) -> int {
    attempts_in_all(limit, 0, outcomes) - 1
}

/// One use of the retry policy: at most `count` attempts (at least one),
/// `interval_ms` between two of them.
#[derive(Clone, Copy, Debug)]
pub struct Retry {
    limit: usize,
    interval_ms: u64,
    made: usize,
}

impl Retry {
    /// The most attempts that will be made.
    pub closed spec fn limit(&self) -> int {
        self.limit as int
    }

    /// The pause between two attempts, in milliseconds.
    pub closed spec fn interval_ms(&self) -> int {
        self.interval_ms as int
    }

    /// The attempts made so far.
    pub closed spec fn made(&self) -> int {
        self.made as int
    }

    /// The invariant of the type: never more attempts than allowed.
    pub open spec fn wf(&self) -> bool {
        0 <= self.made() <= self.limit() && 1 <= self.limit()
    }

    /// A policy of `count` attempts with `interval_ms` between them, before
    /// the first attempt.
    pub fn new(count: usize, interval_ms: u64) -> (retry: Retry)
        ensures
            retry.wf(),
            retry.limit() == attempt_limit(count as int),
            retry.interval_ms() == interval_ms,
            retry.made() == 0,
    {
        Retry { limit: if count < 1 { 1 } else { count }, interval_ms, made: 0 }
    }

    /// The attempts made so far.
    pub fn attempts(&self) -> (made: usize)
        ensures
            made == self.made(),
    {
        self.made
    }

    /// Takes note of an attempt and says what follows: the first success is
    /// returned at once, a failure is retried after the pause while attempts
    /// are left, and the last failure is returned. Once all attempts are
    /// used, every further outcome is returned and not counted.
    pub fn after_attempt(&mut self, succeeded: bool) -> (step: RetryStep)
        requires
            old(self).wf(),
        ensures
            final(self).wf(),
            final(self).limit() == old(self).limit(),
            final(self).interval_ms() == old(self).interval_ms(),
            final(self).made() == if old(self).made() < old(self).limit() {
                old(self).made() + 1
            } else {
                old(self).made()
            },
            step == if is_last_attempt(old(self).limit(), final(self).made(), succeeded) {
                RetryStep::Return
            } else {
                RetryStep::RetryAfter(old(self).interval_ms() as u64)
            },
    {
        if self.made < self.limit {
            self.made = self.made + 1;
        }
        if succeeded || self.made >= self.limit {
            RetryStep::Return
        } else {
            RetryStep::RetryAfter(self.interval_ms)
        }
    }
}

/// However the attempts turn out, at least one is made and never more than
/// the limit; one pause lies between any two, so there is one pause less
/// than there are attempts.
pub proof fn lemma_attempts_bounded(limit: int, made: int, outcomes: Seq<bool>)
    requires
        0 <= made < limit,
    ensures
        made < attempts_in_all(limit, made, outcomes) <= limit,
    decreases limit - made,
{
    let succeeded = 0 <= made < outcomes.len() && outcomes[made];
    if !is_last_attempt(limit, made + 1, succeeded) {
        lemma_attempts_bounded(limit, made + 1, outcomes);
    }
}

/// An operation that fails `k` times and then succeeds, under a policy that
/// allows at least `k + 1` attempts, is tried exactly `k + 1` times, and
/// what is returned is the outcome of the last of them, the success. The
/// pauses lie between the attempts: there are `k`.
pub proof fn lemma_retry_until_success(count: int, k: int, outcomes: Seq<bool>)
    requires
        0 <= k < outcomes.len(),
        forall|i: int| 0 <= i < k ==> !outcomes[i],
        outcomes[k],
        k + 1 <= attempt_limit(count),
    ensures
        attempts_in_all(attempt_limit(count), 0, outcomes) == k + 1,
        pauses_in_all(attempt_limit(count), outcomes) == k,
        returned_attempt(attempt_limit(count), outcomes) == k,
        outcomes[returned_attempt(attempt_limit(count), outcomes)],
{
    lemma_fails_then(attempt_limit(count), 0, k, outcomes);
}

/// An operation that always fails is tried exactly as often as the policy
/// allows, and what is returned is the outcome of the last attempt.
pub proof fn lemma_retry_exhausted(count: int, outcomes: Seq<bool>)
    requires
        forall|i: int| 0 <= i < outcomes.len() ==> !outcomes[i],
    ensures
        attempts_in_all(attempt_limit(count), 0, outcomes) == attempt_limit(count),
        pauses_in_all(attempt_limit(count), outcomes) == attempt_limit(count) - 1,
        returned_attempt(attempt_limit(count), outcomes) == attempt_limit(count) - 1,
{
    lemma_all_fail(attempt_limit(count), 0, outcomes);
}

/// From `made` failures on: failures up to the `k`-th attempt, which
/// succeeds, make `k + 1` attempts in all.
proof fn lemma_fails_then(limit: int, made: int, k: int, outcomes: Seq<bool>)
    requires
        0 <= made <= k < outcomes.len(),
        forall|i: int| made <= i < k ==> !outcomes[i],
        outcomes[k],
        k + 1 <= limit,
    ensures
        attempts_in_all(limit, made, outcomes) == k + 1,
    decreases k - made,
{
    if made < k {
        lemma_fails_then(limit, made + 1, k, outcomes);
    }
}

/// From `made` failures on: nothing but failures use every attempt.
proof fn lemma_all_fail(limit: int, made: int, outcomes: Seq<bool>)
    requires
        0 <= made < limit,
        forall|i: int| 0 <= i < outcomes.len() ==> !outcomes[i],
    ensures
        attempts_in_all(limit, made, outcomes) == limit,
    decreases limit - made,
{
    if made + 1 < limit {
        lemma_all_fail(limit, made + 1, outcomes);
    }
}

} // verus!
