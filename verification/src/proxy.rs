use vstd::prelude::*;

verus! {

/// How many times one remote query is attempted before it fails for good.
pub const RPC_ATTEMPTS: u64 = 10;

/// The fixed delay between two attempts of one query, in milliseconds.
pub const RPC_BACKOFF_MS: u64 = 1000;

/// The remote state proxy's retry discipline: a fixed attempt count and a
/// fixed per-attempt delay, never an unbounded loop. Exhausting the
/// attempts is a terminal failure for the batch's setup, not a silent
/// continuation with partial data. The caller performs the attempt and
/// the waiting; this state machine only decides.
#[derive(Clone, Copy, PartialEq, Eq, Structural, Debug)]
pub struct RetryPolicy {
    pub attempts_left: u64,
    pub backoff_ms: u64,
}

/// The decision after one failed attempt.
#[derive(Clone, Copy, PartialEq, Eq, Structural, Debug)]
pub enum RetryDecision {
    /// Wait the fixed delay, then attempt the query once more.
    Retry { delay_ms: u64 },
    /// The bound is exhausted: the failure propagates to the batch caller
    /// unmodified.
    GiveUp,
}

impl RetryPolicy {
    /// The discipline of one fresh query: the full attempt budget.
    pub fn begin() -> (r: Self)
        ensures
            r.attempts_left == RPC_ATTEMPTS,
            r.backoff_ms == RPC_BACKOFF_MS,
    {
        RetryPolicy { attempts_left: RPC_ATTEMPTS, backoff_ms: RPC_BACKOFF_MS }
    }

    /// Decides after a failed attempt: retry after the fixed delay while
    /// budget remains, give up on the last failure. Each retry spends
    /// exactly one attempt, so a query is attempted at most
    /// `RPC_ATTEMPTS` times in all.
    pub fn on_failure(&mut self) -> (d: RetryDecision)
        ensures
            old(self).attempts_left > 1 ==> d == (RetryDecision::Retry {
                delay_ms: old(self).backoff_ms,
            }) && final(self).attempts_left == old(self).attempts_left - 1
                && final(self).backoff_ms == old(self).backoff_ms,
            old(self).attempts_left <= 1 ==> d == RetryDecision::GiveUp
                && *final(self) == *old(self),
    {
        if self.attempts_left > 1 {
            self.attempts_left = self.attempts_left - 1;
            RetryDecision::Retry { delay_ms: self.backoff_ms }
        } else {
            RetryDecision::GiveUp
        }
    }
}

} // verus!
