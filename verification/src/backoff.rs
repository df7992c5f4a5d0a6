//! Retry backoff: the delay before a failed job becomes claimable again.

use vstd::arithmetic::power2::{lemma2_to64, lemma_pow2_strictly_increases, lemma_pow2_unfold, pow2};
use vstd::prelude::*;

verus! {

/// Upper bound of the retry delay, in seconds (one hour).
pub const MAX_BACKOFF_SECS: i64 = 3600;

/// Milliseconds per second.
pub const MILLIS_PER_SEC: i64 = 1000;

/// The retry delay in seconds after the given attempt has failed:
/// two to the power of the attempt number, capped at one hour.
pub open spec fn backoff_secs(attempt: nat) -> int {
    if pow2(attempt) < 3600 {
        pow2(attempt) as int
    } else {
        3600
    }
}

/// The retry delay in milliseconds after the given attempt has failed.
pub open spec fn backoff_millis(attempt: nat) -> int {
    1000 * backoff_secs(attempt)
}

/// The delay is at least one second and at most one hour, it never shrinks
/// as attempts go up, and from the twelfth attempt on it is the full hour.
pub proof fn lemma_backoff_bounds(attempt: nat)
    ensures
        1 <= backoff_secs(attempt) <= 3600,
        1000 <= backoff_millis(attempt) <= 3_600_000,
        attempt >= 12 ==> backoff_secs(attempt) == 3600,
        attempt < 12 ==> backoff_secs(attempt) == pow2(attempt),
        attempt >= 1 ==> backoff_secs(attempt) >= 2,
{
    lemma2_to64();
    if attempt > 12 {
        lemma_pow2_strictly_increases(12, attempt);
    }
    if attempt < 11 {
        lemma_pow2_strictly_increases(attempt, 11);
    }
    if attempt >= 1 {
        if attempt > 1 {
            lemma_pow2_strictly_increases(1, attempt);
        }
    }
    if attempt > 0 {
        lemma_pow2_strictly_increases(0, attempt);
    }
}

/// A later attempt never waits less than an earlier one.
pub proof fn lemma_backoff_monotonic(a: nat, b: nat)
    requires
        a <= b,
    ensures
        backoff_secs(a) <= backoff_secs(b),
{
    if a < b {
        lemma_pow2_strictly_increases(a, b);
    }
}

/// Computes the retry delay in seconds after `attempt` has failed.
pub fn backoff_delay_secs(attempt: u32) -> (delay: i64)
    ensures
        delay == backoff_secs(attempt as nat),
        1 <= delay <= MAX_BACKOFF_SECS,
{
    let mut delay: i64 = 1;
    let mut done: u32 = 0;
    proof {
        lemma2_to64();
        lemma_backoff_bounds(attempt as nat);
    }
    while done < attempt && delay < MAX_BACKOFF_SECS
        invariant
            done <= attempt,
            delay == pow2(done as nat),
            1 <= delay < 2 * MAX_BACKOFF_SECS,
        decreases attempt - done,
    {
        proof {
            lemma_pow2_unfold((done + 1) as nat);
        }
        delay = delay * 2;
        done = done + 1;
    }
    if delay < MAX_BACKOFF_SECS {
        delay
    } else {
        proof {
            if done < attempt {
                lemma_pow2_strictly_increases(done as nat, attempt as nat);
            }
        }
        MAX_BACKOFF_SECS
    }
}

/// Computes the retry delay in milliseconds after `attempt` has failed.
pub fn backoff_delay_millis(attempt: u32) -> (delay: i64)
    ensures
        delay == backoff_millis(attempt as nat),
        1000 <= delay <= 3_600_000,
{
    backoff_delay_secs(attempt) * MILLIS_PER_SEC
}

} // verus!
