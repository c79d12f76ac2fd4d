//! Retrying a failed operator run: how many attempts, and how long to wait
//! between them.

use vstd::prelude::*;
use vstd::arithmetic::power2::pow2;
use crate::dsl::step::{RetryDef, BackoffStrategy};

verus! {

/// The number of attempts: the configured number, at least one.
pub open spec fn attempts_of(r: Option<RetryDef>) -> int {
    match r {
        Some(x) => if x.max_attempts >= 1 { x.max_attempts as int } else { 1 },
        None => 1,
    }
}

/// The wait after a failed attempt (numbered from 0): the delay, or with
/// exponential back-off the delay doubled per attempt (at most 20 times,
/// saturating), but no more than a minute.
pub open spec fn wait_after(r: Option<RetryDef>, attempt: int) -> int {
    let delay = match r {
        Some(x) => x.delay_ms as int,
        None => 1000,
    };
    match r {
        Some(x) => if x.backoff == BackoffStrategy::Exponential {
            let k = if attempt < 20 { attempt } else { 20 };
            let grown = delay * pow2(k as nat);
            let sat = if grown > u64::MAX { u64::MAX as int } else { grown };
            if sat < 60000 { sat } else { 60000 }
        } else {
            delay
        },
        None => delay,
    }
}

pub fn max_attempts(retry: &Option<RetryDef>) -> (r: u32)
    ensures
        r as int == attempts_of(*retry),
{
    match retry {
        Some(x) => if x.max_attempts >= 1 {
            x.max_attempts
        } else {
            1
        },
        None => 1,
    }
}

/// The wait after failed attempt `attempt` (see `wait_after`).
pub fn retry_wait(retry: &Option<RetryDef>, attempt: u32) -> (r: u64)
    ensures
        r as int == wait_after(*retry, attempt as int),
{
    let delay = match retry {
        Some(x) => x.delay_ms,
        None => 1000,
    };
    match retry {
        Some(x) => {
            if x.backoff == BackoffStrategy::Exponential {
                let k: u32 = if attempt < 20 {
                    attempt
                } else {
                    20
                };
                let kk: u64 = k as u64;
                proof {
                    vstd::arithmetic::power2::lemma2_to64();
                    if k < 20 {
                        vstd::arithmetic::power2::lemma_pow2_strictly_increases(k as nat, 20);
                    }
                    vstd::bits::lemma_u64_shl_is_mul(1u64, kk);
                }
                let p: u64 = 1u64 << kk;
                let grown = match delay.checked_mul(p) {
                    Some(g) => g,
                    None => u64::MAX,
                };
                if grown < 60000 {
                    grown
                } else {
                    60000
                }
            } else {
                delay
            }
        },
        None => delay,
    }
}

/// What follows an attempt.
#[derive(Debug, Clone, Copy, PartialEq, Eq, Structural)]
pub enum RetryStep {
    /// The run succeeded after this many attempts.
    Succeeded { tries: u32 },
    /// Wait this long, then try again.
    RetryAfter { wait_ms: u64 },
    /// The last attempt failed; this many were made.
    Failed { tries: u32 },
}

/// What follows attempt `attempt` (from 0), given whether it succeeded.
pub open spec fn next_after(r: Option<RetryDef>, attempt: int, succeeded: bool) -> RetryStep {
    if succeeded {
        RetryStep::Succeeded { tries: (attempt + 1) as u32 }
    } else if attempt + 1 < attempts_of(r) {
        RetryStep::RetryAfter { wait_ms: wait_after(r, attempt) as u64 }
    } else {
        RetryStep::Failed { tries: (attempt + 1) as u32 }
    }
}

/// What follows attempt `attempt` (from 0), given whether it succeeded.
pub fn after_attempt(retry: &Option<RetryDef>, attempt: u32, succeeded: bool) -> (r: RetryStep)
    requires
        attempt < attempts_of(*retry),
    ensures
        succeeded ==> r == (RetryStep::Succeeded { tries: (attempt + 1) as u32 }),
        !succeeded && attempt + 1 < attempts_of(*retry) ==> r == (RetryStep::RetryAfter {
            wait_ms: wait_after(*retry, attempt as int) as u64,
        }),
        !succeeded && attempt + 1 == attempts_of(*retry) ==> r == (RetryStep::Failed { tries: (attempt + 1) as u32 }),
        r == next_after(*retry, attempt as int, succeeded),
{
    let max = max_attempts(retry);
    if succeeded {
        RetryStep::Succeeded { tries: attempt + 1 }
    } else if attempt + 1 < max {
        RetryStep::RetryAfter { wait_ms: retry_wait(retry, attempt) }
    } else {
        RetryStep::Failed { tries: attempt + 1 }
    }
}

/// The steps of a retry loop from attempt `a` on, where `oks[i]` says
/// whether attempt `i` succeeded: one per attempt made, until one that
/// does not ask for another.
pub open spec fn retry_run(r: Option<RetryDef>, oks: Seq<bool>, a: int) -> Seq<RetryStep>
    decreases attempts_of(r) - a,
{
    if a < 0 || a >= attempts_of(r) || a >= oks.len() {
        Seq::empty()
    } else {
        let st = next_after(r, a, oks[a]);
        if st is RetryAfter {
            seq![st] + retry_run(r, oks, a + 1)
        } else {
            seq![st]
        }
    }
}

/// The retry loop: the operator is called until a call succeeds or the
/// attempts run out, whichever comes first. With `c` calls made, every
/// call but the last failed and was followed by the wait for its number,
/// and the loop ends with success after `c` tries if the last call
/// succeeded, else with failure after all the attempts.
pub proof fn lemma_retry_loop(r: Option<RetryDef>, oks: Seq<bool>)
    requires
        oks.len() >= attempts_of(r),
    ensures
        ({
            let t = retry_run(r, oks, 0);
            let c = t.len() as int;
            &&& 1 <= c <= attempts_of(r)
            &&& forall|j: int| 0 <= j < c - 1 ==> !oks[j] && #[trigger] t[j] == (RetryStep::RetryAfter {
                wait_ms: wait_after(r, j) as u64,
            })
            &&& oks[c - 1] ==> t[c - 1] == (RetryStep::Succeeded { tries: c as u32 })
            &&& !oks[c - 1] ==> c == attempts_of(r) && t[c - 1] == (RetryStep::Failed { tries: c as u32 })
        }),
{
    lemma_retry_from(r, oks, 0);
}

#[verifier::rlimit(40)]
proof fn lemma_retry_from(r: Option<RetryDef>, oks: Seq<bool>, a: int)
    requires
        oks.len() >= attempts_of(r),
        0 <= a < attempts_of(r),
    ensures
        ({
            let t = retry_run(r, oks, a);
            let c = t.len() as int;
            &&& 1 <= c <= attempts_of(r) - a
            &&& forall|j: int| 0 <= j < c - 1 ==> !oks[a + j] && #[trigger] t[j] == (RetryStep::RetryAfter {
                wait_ms: wait_after(r, a + j) as u64,
            })
            &&& oks[a + c - 1] ==> t[c - 1] == (RetryStep::Succeeded { tries: (a + c) as u32 })
            &&& !oks[a + c - 1] ==> a + c == attempts_of(r) && t[c - 1] == (RetryStep::Failed { tries: (a + c) as u32 })
        }),
    decreases attempts_of(r) - a,
{
    let st = next_after(r, a, oks[a]);
    let t = retry_run(r, oks, a);
    if st is RetryAfter {
        lemma_retry_from(r, oks, a + 1);
        let t1 = retry_run(r, oks, a + 1);
        assert(t == seq![st] + t1);
        assert forall|j: int| 0 <= j < t.len() - 1 implies !oks[a + j] && #[trigger] t[j] == (RetryStep::RetryAfter {
            wait_ms: wait_after(r, a + j) as u64,
        }) by {
            if j > 0 {
                assert(t[j] == t1[j - 1]);
            }
        }
        assert(t[t.len() - 1] == t1[t1.len() - 1]);
    }
}

} // verus!
