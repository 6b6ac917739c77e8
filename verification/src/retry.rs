//! The retry policy for installing and upgrading: what to do after each
//! attempt. Running the attempts and waiting between them is the caller's
//! part.

use vstd::prelude::*;

verus! {

/// How many times a failed attempt is tried again.
pub const MAX_RETRIES: u32 = 2;

/// How long to wait before trying again, in seconds.
pub const RETRY_DELAY_SECS: u64 = 2;

/// What follows an attempt.
#[derive(Debug, Clone, Copy, PartialEq, Eq, Structural)]
pub enum NextStep {
    /// The attempt succeeded: report success.
    Succeeded,
    /// The attempt failed: wait this many seconds, then try again.
    RetryAfter(u64),
    /// The attempt failed and no retry is left: report failure.
    GiveUp,
}

/// How many attempts have failed so far.
#[derive(Debug, Clone, Copy, PartialEq, Eq, Structural)]
pub struct RetryState {
    pub failures: u32,
}

/// The state that follows `state` when an attempt ends.
pub open spec fn state_after(state: RetryState, succeeded: bool) -> RetryState {
    if succeeded || state.failures > MAX_RETRIES {
        state
    } else {
        RetryState { failures: (state.failures + 1) as u32 }
    }
}

/// The step that follows an attempt made in `state`.
pub open spec fn step_after(state: RetryState, succeeded: bool) -> NextStep {
    if succeeded {
        NextStep::Succeeded
    } else if state.failures < MAX_RETRIES {
        NextStep::RetryAfter(RETRY_DELAY_SECS)
    } else {
        NextStep::GiveUp
    }
}

/// Whether a run of attempts with these outcomes, made one after another
/// from `state` on and stopped as the policy says, ends in success.
pub open spec fn run_succeeds(state: RetryState, outcomes: Seq<bool>) -> bool
    decreases outcomes.len(),
{
    if outcomes.len() == 0 {
        false
    } else {
        match step_after(state, outcomes[0]) {
            NextStep::Succeeded => true,
            NextStep::GiveUp => false,
            NextStep::RetryAfter(_) => run_succeeds(
                state_after(state, outcomes[0]),
                outcomes.drop_first(),
            ),
        }
    }
}

impl RetryState {
    /// The state before the first attempt.
    pub fn new() -> (state: Self)
        ensures
            state.failures == 0,
    {
        RetryState { failures: 0 }
    }

    /// What follows an attempt made in this state, and the state for the
    /// next attempt.
    pub fn after_attempt(self, succeeded: bool) -> (out: (RetryState, NextStep))
        ensures
            out.0 == state_after(self, succeeded),
            out.1 == step_after(self, succeeded),
    {
        if succeeded {
            (self, NextStep::Succeeded)
        } else if self.failures < MAX_RETRIES {
            (RetryState { failures: self.failures + 1 }, NextStep::RetryAfter(RETRY_DELAY_SECS))
        } else if self.failures == MAX_RETRIES {
            (RetryState { failures: self.failures + 1 }, NextStep::GiveUp)
        } else {
            (self, NextStep::GiveUp)
        }
    }
}

/// From the first attempt on there are at most three attempts, and the run
/// succeeds exactly when one of the first three outcomes is a success.
pub proof fn lemma_three_attempts(outcomes: Seq<bool>)
    ensures
        run_succeeds(RetryState { failures: 0 }, outcomes) <==> exists|i: int|
            0 <= i < outcomes.len() && i <= MAX_RETRIES && #[trigger] outcomes[i],
{
    reveal_with_fuel(run_succeeds, 4);
    let start = RetryState { failures: 0 };
    if outcomes.len() >= 1 && !outcomes[0] {
        let rest = outcomes.drop_first();
        if rest.len() >= 1 && !rest[0] {
            let last = rest.drop_first();
            assert(rest[0] == outcomes[1]);
            if last.len() >= 1 {
                assert(last[0] == outcomes[2]);
            }
        } else if rest.len() >= 1 {
            assert(outcomes[1]);
        }
    }
}

} // verus!
