//! Fixed-point signal arithmetic.
//!
//! Signal amplitudes (potentials, thresholds, synapse weights and decay
//! factors) are carried as `i64` fixed-point values: `LEVEL_SCALE` units
//! stand for one whole signal unit. Addition saturates at the representable
//! extremes; one tick of leak multiplies by a decay factor in
//! `(0, LEVEL_SCALE]` and rescales, rounding toward zero, so a leak never
//! grows a value's magnitude.

use vstd::prelude::*;

verus! {

/// A fixed-point signal amplitude: `LEVEL_SCALE` units stand for 1.0.
pub type Level = i64;

/// Number of fixed-point units in one whole signal unit.
pub const LEVEL_SCALE: i64 = 1000000;

/// Mathematical value of `i64` addition clamped at the representable extremes.
pub open spec fn sat_add(a: int, b: int) -> int {
    if a + b > i64::MAX {
        i64::MAX as int
    } else if a + b < i64::MIN {
        i64::MIN as int
    } else {
        a + b
    }
}

/// One tick of leak: multiply by `beta` and rescale, rounding toward zero.
pub open spec fn leak_once(p: int, beta: int) -> int {
    if p >= 0 {
        (p * beta) / (LEVEL_SCALE as int)
    } else {
        -(((-p) * beta) / (LEVEL_SCALE as int))
    }
}

/// `k` successive ticks of leak.
pub open spec fn leak_n(p: int, beta: int, k: nat) -> int
    decreases k,
{
    if k == 0 {
        p
    } else {
        leak_once(leak_n(p, beta, (k - 1) as nat), beta)
    }
}

/// A single leak step never grows the magnitude of a value.
pub proof fn lemma_leak_once_bound(p: int, beta: int)
    requires
        0 < beta <= LEVEL_SCALE,
    ensures
        p >= 0 ==> 0 <= leak_once(p, beta) <= p,
        p < 0 ==> p <= leak_once(p, beta) <= 0,
{
    let s = LEVEL_SCALE as int;
    if p >= 0 {
        vstd::arithmetic::mul::lemma_mul_inequality(beta, s, p);
        vstd::arithmetic::div_mod::lemma_div_is_ordered(p * beta, p * s, s);
        vstd::arithmetic::div_mod::lemma_div_by_multiple(p, s);
        vstd::arithmetic::div_mod::lemma_div_pos_is_pos(p * beta, s);
        vstd::arithmetic::mul::lemma_mul_nonnegative(p, beta);
    } else {
        let q = -p;
        vstd::arithmetic::mul::lemma_mul_inequality(beta, s, q);
        vstd::arithmetic::div_mod::lemma_div_is_ordered(q * beta, q * s, s);
        vstd::arithmetic::div_mod::lemma_div_by_multiple(q, s);
        vstd::arithmetic::div_mod::lemma_div_pos_is_pos(q * beta, s);
        vstd::arithmetic::mul::lemma_mul_nonnegative(q, beta);
    }
}

/// Iterated leak keeps a value between zero and its starting point.
pub proof fn lemma_leak_n_bound(p: int, beta: int, k: nat)
    requires
        0 < beta <= LEVEL_SCALE,
    ensures
        p >= 0 ==> 0 <= leak_n(p, beta, k) <= p,
        p < 0 ==> p <= leak_n(p, beta, k) <= 0,
    decreases k,
{
    if k > 0 {
        lemma_leak_n_bound(p, beta, (k - 1) as nat);
        lemma_leak_once_bound(leak_n(p, beta, (k - 1) as nat), beta);
    }
}

/// `i64` addition clamped at the representable extremes.
pub fn sat_add_level(a: Level, b: Level) -> (r: Level)
    ensures
        r == sat_add(a as int, b as int),
{
    if b >= 0 {
        if a > i64::MAX - b {
            i64::MAX
        } else {
            a + b
        }
    } else {
        if a < i64::MIN - b {
            i64::MIN
        } else {
            a + b
        }
    }
}

/// One tick of leak on a fixed-point level.
pub fn leak_once_level(p: Level, beta: Level) -> (r: Level)
    requires
        0 < beta <= LEVEL_SCALE,
    ensures
        r == leak_once(p as int, beta as int),
{
    proof {
        lemma_leak_once_bound(p as int, beta as int);
    }
    if p >= 0 {
        let q: u64 = ((p as u64 as u128) * (beta as u128) / (LEVEL_SCALE as u128)) as u64;
        q as i64
    } else {
        let mag: u64 = (-(p as i128)) as u64;
        let q: u64 = (((mag as u128) * (beta as u128)) / (LEVEL_SCALE as u128)) as u64;
        (-(q as i128)) as i64
    }
}

} // verus!
