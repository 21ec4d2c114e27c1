//! How long a message waits after a failed attempt: the base delay, doubled
//! with each failure up to a ceiling, all sums and products stopping at the
//! largest number rather than wrapping.

use vstd::prelude::*;

verus! {

/// 2 to the power `n`.
pub open spec fn pow2(n: nat) -> nat
    decreases n,
{
    if n == 0 {
        1
    } else {
        2 * pow2((n - 1) as nat)
    }
}

/// `x`, or the largest 64-bit number where `x` is larger.
pub open spec fn saturated(x: int) -> u64 {
    if x > u64::MAX {
        u64::MAX
    } else if x < 0 {
        0
    } else {
        x as u64
    }
}

/// How often the base delay is doubled after the `failures`-th failure in a
/// row: once less than there were failures, and at most 20 times.
pub open spec fn doublings(failures: u32) -> nat {
    if failures <= 1 {
        0
    } else if failures - 1 > 20 {
        20
    } else {
        (failures - 1) as nat
    }
}

/// The delay after the `failures`-th failure in a row.
pub open spec fn backoff_secs(base: u64, failures: u32) -> u64 {
    saturated(base * pow2(doublings(failures)))
}

/// The time of the next attempt after the `failures`-th failure in a row at
/// `now`.
pub open spec fn next_attempt(now: u64, base: u64, failures: u32) -> u64 {
    saturated(now + backoff_secs(base, failures))
}

/// Powers of two grow with the exponent.
pub proof fn lemma_pow2_bounds(n: nat)
    requires
        n <= 20,
    ensures
        1 <= pow2(n) <= 0x10_0000,
    decreases n,
{
    reveal_with_fuel(pow2, 21);
}

/// 2 to the power `exponent`, for exponents up to 20.
pub fn power_of_two(exponent: u32) -> (p: u64)
    requires
        exponent <= 20,
    ensures
        p == pow2(exponent as nat),
{
    let mut p: u64 = 1;
    let mut i: u32 = 0;
    while i < exponent
        invariant
            i <= exponent <= 20,
            p == pow2(i as nat),
            p <= 0x10_0000,
        decreases exponent - i,
    {
        proof {
            lemma_pow2_bounds((i + 1) as nat);
        }
        p = p * 2;
        i = i + 1;
    }
    p
}

/// The delay after the `failures`-th failure in a row.
pub fn compute_backoff(base: u64, failures: u32) -> (delay: u64)
    ensures
        delay == backoff_secs(base, failures),
{
    let over: u32 = failures.saturating_sub(1);
    let exponent: u32 = if over > 20 {
        20
    } else {
        over
    };
    let factor = power_of_two(exponent);
    proof {
        lemma_pow2_bounds(exponent as nat);
        assert(exponent as nat == doublings(failures));
    }
    match base.checked_mul(factor) {
        Some(delay) => delay,
        None => u64::MAX,
    }
}

/// The time of the next attempt after the `failures`-th failure in a row at
/// `now`.
pub fn compute_next_attempt(now: u64, base: u64, failures: u32) -> (at: u64)
    ensures
        at == next_attempt(now, base, failures),
{
    now.saturating_add(compute_backoff(base, failures))
}

/// After the `n`-th failure in a row at `now`, with base delay `base`, the next
/// attempt is due no earlier than `now + base * 2^min(n - 1, 20)`, as long as
/// that time can be written as a 64-bit number.
pub proof fn lemma_backoff_lower_bound(now: u64, base: u64, n: u32)
    requires
        n >= 1,
        now + base * pow2(doublings(n)) <= u64::MAX,
    ensures
        doublings(n) == if n - 1 < 20 {
            (n - 1) as nat
        } else {
            20
        },
        next_attempt(now, base, n) == now + base * pow2(doublings(n)),
        next_attempt(now, base, n) >= now,
{
    lemma_pow2_bounds(doublings(n));
    assert(base * pow2(doublings(n)) >= 0) by (nonlinear_arith)
        requires
            base >= 0,
            pow2(doublings(n)) >= 1,
    ;
}

} // verus!
