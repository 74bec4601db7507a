//! The decision at each poll of a wait for an element, and what it implies for
//! a whole wait.
use vstd::prelude::*;

verus! {

/// Time between two polls, in milliseconds.
pub const POLL_INTERVAL_MS: u64 = 100;

/// What a wait does after one poll.
#[derive(PartialEq, Eq, Structural, Clone, Copy, Debug)]
pub enum WaitStep {
    /// The element is present: the wait succeeds.
    Found,
    /// Not yet present and time is left: sleep one interval and poll again.
    Retry,
    /// Not present and the timeout has passed: the wait fails.
    TimedOut,
}

pub open spec fn wait_decision(present: bool, elapsed_ms: int, timeout_ms: int) -> WaitStep {
    if present {
        WaitStep::Found
    } else if elapsed_ms > timeout_ms {
        WaitStep::TimedOut
    } else {
        WaitStep::Retry
    }
}

/// The decision after a poll that found the element `present` (a failed
/// evaluation counts as not present), `elapsed_ms` after the wait began.
pub fn wait_step(present: bool, elapsed_ms: u64, timeout_ms: u64) -> (r: WaitStep)
    ensures
        r == wait_decision(present, elapsed_ms as int, timeout_ms as int),
{
    if present {
        WaitStep::Found
    } else if elapsed_ms > timeout_ms {
        WaitStep::TimedOut
    } else {
        WaitStep::Retry
    }
}

/// A wait from poll `k` on, where poll `k` happens `k` intervals after the start
/// and `obs[k]` is what it observed: the final decision and the poll it was made at.
/// Running out of observations leaves the wait at `Retry`.
pub open spec fn wait_from(obs: Seq<bool>, timeout_ms: int, k: nat) -> (WaitStep, nat)
    decreases obs.len() - k,
{
    if k >= obs.len() {
        (WaitStep::Retry, k)
    } else {
        let d = wait_decision(obs[k as int], k * POLL_INTERVAL_MS, timeout_ms);
        if d == WaitStep::Retry {
            wait_from(obs, timeout_ms, k + 1)
        } else {
            (d, k)
        }
    }
}

proof fn lemma_found_from(obs: Seq<bool>, timeout_ms: int, i: nat, k: nat)
    requires
        k <= i < obs.len(),
        obs[i as int],
        forall|j: int| 0 <= j < i ==> !obs[j],
        i == 0 || (i - 1) * POLL_INTERVAL_MS <= timeout_ms,
    ensures
        wait_from(obs, timeout_ms, k) == (WaitStep::Found, i),
    decreases i - k,
{
    if k < i {
        assert(k * POLL_INTERVAL_MS <= (i - 1) * POLL_INTERVAL_MS) by (nonlinear_arith)
            requires
                k <= i - 1,
        ;
        lemma_found_from(obs, timeout_ms, i, k + 1);
    }
}

/// A wait succeeds at the first poll that sees the element, provided the timeout
/// had not passed at the poll before it.
pub proof fn lemma_wait_succeeds_at_first_sighting(obs: Seq<bool>, timeout_ms: int, i: nat)
    requires
        i < obs.len(),
        obs[i as int],
        forall|j: int| 0 <= j < i ==> !obs[j],
        i == 0 || (i - 1) * POLL_INTERVAL_MS <= timeout_ms,
    ensures
        wait_from(obs, timeout_ms, 0) == (WaitStep::Found, i),
{
    lemma_found_from(obs, timeout_ms, i, 0);
}

proof fn lemma_timeout_from(obs: Seq<bool>, timeout_ms: int, k: nat)
    requires
        0 <= timeout_ms,
        forall|j: int| 0 <= j < obs.len() ==> !obs[j],
        obs.len() * POLL_INTERVAL_MS > timeout_ms + POLL_INTERVAL_MS,
        k * POLL_INTERVAL_MS <= timeout_ms + POLL_INTERVAL_MS,
    ensures
        ({
            let (d, n) = wait_from(obs, timeout_ms, k);
            d == WaitStep::TimedOut && n * POLL_INTERVAL_MS > timeout_ms && n * POLL_INTERVAL_MS
                <= timeout_ms + POLL_INTERVAL_MS
        }),
    decreases obs.len() - k,
{
    assert(k < obs.len()) by (nonlinear_arith)
        requires
            obs.len() * 100 > timeout_ms + 100,
            k * 100 <= timeout_ms + 100,
    ;
    if k * POLL_INTERVAL_MS <= timeout_ms {
        assert((k + 1) * POLL_INTERVAL_MS == k * POLL_INTERVAL_MS + POLL_INTERVAL_MS) by (nonlinear_arith);
        lemma_timeout_from(obs, timeout_ms, k + 1);
    }
}

/// When the element never appears, a wait ends in a timeout at a poll more than
/// `timeout_ms` and at most `timeout_ms` plus one interval after it began.
pub proof fn lemma_wait_bounded(obs: Seq<bool>, timeout_ms: int)
    requires
        0 <= timeout_ms,
        forall|j: int| 0 <= j < obs.len() ==> !obs[j],
        obs.len() * POLL_INTERVAL_MS > timeout_ms + POLL_INTERVAL_MS,
    ensures
        ({
            let (d, n) = wait_from(obs, timeout_ms, 0);
            d == WaitStep::TimedOut && n * POLL_INTERVAL_MS > timeout_ms && n * POLL_INTERVAL_MS
                <= timeout_ms + POLL_INTERVAL_MS
        }),
{
    lemma_timeout_from(obs, timeout_ms, 0);
}

} // verus!
