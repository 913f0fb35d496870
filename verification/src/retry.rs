//! Bounded exponential backoff between the attempts of a failing step.

use crate::model::RetryPolicy;
use vstd::arithmetic::power2::{lemma_pow2_strictly_increases, lemma_pow2_unfold, pow2};
use vstd::prelude::*;

verus! {

/// How often the first wait has doubled after `failures` failures in a row.
pub open spec fn doublings(failures: nat) -> nat {
    if failures == 0 {
        0
    } else {
        (failures - 1) as nat
    }
}

/// The wait after `failures` failures in a row, in milliseconds: the first
/// wait, doubled after each further failure, and never more than the longest.
pub open spec fn backoff(policy: RetryPolicy, failures: nat) -> int {
    let raw = policy.base_delay_ms * pow2(doublings(failures));
    if raw < policy.max_delay_ms {
        raw
    } else {
        policy.max_delay_ms as int
    }
}

proof fn lemma_scaled_pow2_grows(base: int, i: nat, n: nat)
    requires
        base > 0,
        i <= n,
    ensures
        base * pow2(i) <= base * pow2(n),
{
    if i < n {
        lemma_pow2_strictly_increases(i, n);
    }
    let a = pow2(i) as int;
    let b = pow2(n) as int;
    assert(base * a <= base * b) by (nonlinear_arith)
        requires
            base > 0,
            a <= b,
    ;
}

impl RetryPolicy {
    /// Three attempts in all; waits of 100 ms, then 200 ms, at most 10 s.
    pub fn standard() -> (r: RetryPolicy)
        ensures
            r == (RetryPolicy { max_attempts: 3, base_delay_ms: 100, max_delay_ms: 10000 }),
    {
        RetryPolicy { max_attempts: 3, base_delay_ms: 100, max_delay_ms: 10000 }
    }

    /// Whether a step that has failed `failures` times in a row is tried again.
    pub fn allows_retry(&self, failures: u32) -> (r: bool)
        ensures
            r == (failures < self.max_attempts),
    {
        failures < self.max_attempts
    }

    /// The wait before the next attempt, after `failures` failures in a row.
    pub fn delay_after(&self, failures: u32) -> (d: u64)
        ensures
            d == backoff(*self, failures as nat),
    {
        let base = self.base_delay_ms;
        let max = self.max_delay_ms;
        let n: u32 = if failures == 0 {
            0
        } else {
            failures - 1
        };
        if base == 0 {
            assert(0 * pow2(n as nat) == 0) by (nonlinear_arith);
            return 0;
        }
        let mut d: u64 = base;
        let mut i: u32 = 0;
        proof {
            vstd::arithmetic::power2::lemma2_to64();
        }
        while i < n && d < max
            invariant
                i <= n,
                n == doublings(failures as nat),
                base == self.base_delay_ms,
                max == self.max_delay_ms,
                base > 0,
                d == base * pow2(i as nat),
            decreases n - i,
        {
            proof {
                lemma_pow2_unfold((i + 1) as nat);
                let p = pow2(i as nat) as int;
                assert(base * (2 * p) == 2 * (base * p)) by (nonlinear_arith);
                lemma_scaled_pow2_grows(base as int, (i + 1) as nat, n as nat);
            }
            if d > max / 2 {
                return max;
            }
            d = d * 2;
            i += 1;
        }
        if d >= max {
            proof {
                lemma_scaled_pow2_grows(base as int, i as nat, n as nat);
            }
            max
        } else {
            d
        }
    }
}

} // verus!
