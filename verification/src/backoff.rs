//! Restart backoff: the delay before the supervisor respawns a crashed child.
//!
//! The delay grows geometrically with the number of consecutive crashes. The
//! growth factor is kept in hundredths (200 means a factor of two), so the
//! whole computation stays in integers: each step multiplies the current
//! delay by the factor and divides by 100, rounding down and saturating at
//! `u64::MAX`. The exponent is `attempt - 1`, clamped to the range `0..=10`.

use vstd::prelude::*;

verus! {

/// Number of growth steps applied for a given attempt count:
/// `attempt - 1`, clamped to `0..=10`.
pub open spec fn backoff_steps(attempt: u32) -> nat {
    if attempt <= 1 {
        0
    } else if attempt >= 11 {
        10
    } else {
        (attempt - 1) as nat
    }
}

/// One growth step: multiply by the factor (in hundredths), divide by 100,
/// saturate at `u64::MAX`.
pub open spec fn backoff_step(v: nat, multiplier_hundredths: nat) -> nat {
    let w = (v * multiplier_hundredths) / 100;
    if w > u64::MAX {
        u64::MAX as nat
    } else {
        w
    }
}

/// The delay after `steps` growth steps from `initial`.
pub open spec fn backoff_value(initial: nat, multiplier_hundredths: nat, steps: nat) -> nat
    decreases steps,
{
    if steps == 0 {
        initial
    } else {
        backoff_step(backoff_value(initial, multiplier_hundredths, (steps - 1) as nat), multiplier_hundredths)
    }
}

/// The restart delay in milliseconds for the given attempt count.
pub open spec fn spec_backoff_ms(attempt: u32, initial_ms: u64, multiplier_hundredths: u64) -> nat {
    backoff_value(initial_ms as nat, multiplier_hundredths as nat, backoff_steps(attempt))
}

proof fn lemma_backoff_value_bound(initial: u64, multiplier_hundredths: u64, steps: nat)
    ensures
        backoff_value(initial as nat, multiplier_hundredths as nat, steps) <= u64::MAX,
    decreases steps,
{
    if steps > 0 {
        lemma_backoff_value_bound(initial, multiplier_hundredths, (steps - 1) as nat);
    }
}

/// Computes the restart delay for the given attempt count: the initial delay
/// grown by the multiplier (given in hundredths, so 200 doubles per step)
/// once per prior crash, with the exponent clamped to at most 10.
pub fn calculate_backoff_ms(attempt: u32, initial_ms: u64, multiplier_hundredths: u64) -> (r: u64)
    ensures
        r == spec_backoff_ms(attempt, initial_ms, multiplier_hundredths),
{
    let steps: u32 = if attempt <= 1 {
        0
    } else if attempt >= 11 {
        10
    } else {
        attempt - 1
    };
    assert(steps as nat == backoff_steps(attempt));
    let mut v: u64 = initial_ms;
    let mut k: u32 = 0;
    while k < steps
        invariant
            k <= steps,
            v as nat == backoff_value(initial_ms as nat, multiplier_hundredths as nat, k as nat),
        decreases steps - k,
    {
        proof {
            assert((v as nat) * (multiplier_hundredths as nat) <= (u64::MAX as nat) * (u64::MAX as nat)) by (nonlinear_arith)
                requires
                    v <= u64::MAX,
                    multiplier_hundredths <= u64::MAX,
            ;
        }
        let prod: u128 = (v as u128) * (multiplier_hundredths as u128);
        let w: u128 = prod / 100;
        v = if w > u64::MAX as u128 {
            u64::MAX
        } else {
            w as u64
        };
        k = k + 1;
    }
    v
}

/// The fixed backoff schedule of the lightweight supervisor loop, in
/// milliseconds: 250, 500, 1000, 2000, then 5000 for every later attempt.
pub fn restart_backoff(attempt: u32) -> (r: u64)
    ensures
        r == spec_restart_backoff_ms(attempt),
{
    match attempt {
        0 => 250,
        1 => 500,
        2 => 1000,
        3 => 2000,
        _ => 5000,
    }
}

/// The fixed schedule used by `restart_backoff`.
pub open spec fn spec_restart_backoff_ms(attempt: u32) -> u64 {
    if attempt == 0 {
        250
    } else if attempt == 1 {
        500
    } else if attempt == 2 {
        1000
    } else if attempt == 3 {
        2000
    } else {
        5000
    }
}

/// The backoff delay never shrinks from one attempt to the next, as long as
/// the multiplier is above one (more than 100 hundredths).
pub proof fn lemma_backoff_monotonic(attempt: u32, initial_ms: u64, multiplier_hundredths: u64)
    requires
        multiplier_hundredths > 100,
        attempt <= 10,
    ensures
        spec_backoff_ms((attempt + 1) as u32, initial_ms, multiplier_hundredths)
            >= spec_backoff_ms(attempt, initial_ms, multiplier_hundredths),
{
    let m = multiplier_hundredths as nat;
    if attempt == 0 {
        assert(backoff_steps(0) == backoff_steps(1));
    } else {
        let s = backoff_steps(attempt);
        assert(backoff_steps((attempt + 1) as u32) == s + 1);
        let v = backoff_value(initial_ms as nat, m, s);
        lemma_backoff_value_bound(initial_ms, multiplier_hundredths, s);
        assert(v * 100 <= v * m) by (nonlinear_arith)
            requires m >= 100,
        ;
        vstd::arithmetic::div_mod::lemma_div_is_ordered((v * 100) as int, (v * m) as int, 100);
        assert((v * 100) / 100 == v) by (nonlinear_arith);
        assert(backoff_step(v, m) >= v);
        assert(backoff_value(initial_ms as nat, m, s + 1) == backoff_step(v, m));
    }
}

} // verus!
