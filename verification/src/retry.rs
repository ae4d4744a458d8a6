//! The retry policy of requests: a failed attempt is retried, one second
//! later, until `max_retries` attempts have failed (one attempt where
//! `max_retries` is zero).
use vstd::prelude::*;

verus! {

/// Seconds to pause after each failed attempt, before the next attempt or
/// before giving up.
pub const RETRY_PAUSE_SECS: u64 = 1;

/// What to do after a failed attempt (after pausing `RETRY_PAUSE_SECS`).
#[derive(Debug, PartialEq, Eq, Clone, Copy, Structural)]
pub enum RetryStep {
    /// Make another attempt.
    TryAgain,
    /// Stop and report the last error.
    GiveUp,
}

/// The number of attempts made when every attempt fails.
pub open spec fn attempts_allowed(max_retries: u32) -> nat {
    if max_retries == 0 {
        1
    } else {
        max_retries as nat
    }
}

/// The step taken after the `failures`-th failed attempt.
pub open spec fn step_after(failures: nat, max_retries: u32) -> RetryStep {
    if failures >= max_retries {
        RetryStep::GiveUp
    } else {
        RetryStep::TryAgain
    }
}

/// The count of failed attempts of one request.
#[derive(Debug)]
pub struct RetryState {
    failures: u32,
    max_retries: u32,
}

impl RetryState {
    /// Failed attempts so far.
    pub closed spec fn failures(&self) -> nat {
        self.failures as nat
    }

    /// The retry limit.
    pub closed spec fn max_retries(&self) -> u32 {
        self.max_retries
    }

    /// The request has not been given up.
    pub open spec fn active(&self) -> bool {
        self.failures() == 0 || self.failures() < self.max_retries()
    }

    /// A request that has not failed yet.
    pub fn new(max_retries: u32) -> (r: Self)
        ensures
            r.failures() == 0,
            r.max_retries() == max_retries,
            r.active(),
    {
        RetryState { failures: 0, max_retries }
    }

    /// Record a failed attempt and decide whether to try again.
    pub fn record_failure(&mut self) -> (step: RetryStep)
        requires
            old(self).active(),
        ensures
            final(self).failures() == old(self).failures() + 1,
            final(self).max_retries() == old(self).max_retries(),
            step == step_after(final(self).failures(), old(self).max_retries()),
            step == RetryStep::TryAgain ==> final(self).active(),
    {
        self.failures = self.failures + 1;
        if self.failures >= self.max_retries {
            RetryStep::GiveUp
        } else {
            RetryStep::TryAgain
        }
    }
}

/// When every attempt fails, exactly `attempts_allowed(max_retries)`
/// attempts are made: each failure before that one is retried, and that
/// one is given up on.
pub proof fn lemma_attempts_made(max_retries: u32)
    ensures
        forall|k: nat| 1 <= k < attempts_allowed(max_retries) ==> step_after(k, max_retries) == RetryStep::TryAgain,
        step_after(attempts_allowed(max_retries), max_retries) == RetryStep::GiveUp,
        attempts_allowed(max_retries) >= 1,
{
}

/// After the `k`-th failed attempt in a row a request is given up exactly
/// when `k` has reached the retry limit, a limit of zero counting as one:
/// with every attempt failing, `max_retries` attempts are made, or one.
pub proof fn lemma_give_up_rule(max_retries: u32, k: nat)
    requires
        k >= 1,
    ensures
        step_after(k, max_retries) == RetryStep::GiveUp <==> (max_retries == 0 || k
            >= max_retries),
        step_after(k, max_retries) == RetryStep::TryAgain <==> (max_retries > 0 && k
            < max_retries),
{
}

} // verus!
