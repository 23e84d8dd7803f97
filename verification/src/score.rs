//! Scoring engine: pure functions from the current trust score and the vote
//! outcome to the next trust score.
//!
//! Scores are fixed-point values in parts-per-million (ppm): `SCALE`
//! stands for a trust score of `1.0`.  The reward curve for a matching vote
//! is `0.001 * 0.5 * e^(2.5 * s)`, evaluated by a truncated Taylor series in
//! fixed point.  The penalty curve for a non-matching vote is
//! `0.001 * (1 - 1 / (1 - 2.5 * s))` where that expression is well defined
//! and non-negative, which is exactly the region `s > 0.4`; at and below
//! `0.4` (where the reference curve is singular or would reward a failed
//! vote) the penalty is the flat base step `0.001`.  This domain policy is
//! deliberate: every failed vote lowers the score by at least the base step.

use vstd::prelude::*;

verus! {

use vstd::arithmetic::div_mod::lemma_div_is_ordered;
use vstd::arithmetic::div_mod::lemma_div_pos_is_pos;
use vstd::arithmetic::mul::lemma_mul_nonnegative;
use vstd::arithmetic::mul::lemma_mul_upper_bound;

/// Fixed-point scale of a trust score: `SCALE` ppm is a score of `1.0`.
pub const SCALE: u64 = 1_000_000;

/// Score given to a freshly initialized validator (`0.5`).
pub const NEUTRAL_SCORE: u64 = 500_000;

/// A failing update that lands strictly below this score (`0.1`) flags the
/// validator for removal.
pub const REMOVAL_THRESHOLD: u64 = 100_000;

/// Configured minimum trust for validation duty (`0.4`); also the point at
/// which the reference penalty curve becomes singular, so the penalty
/// switches to the flat base step at and below it.
pub const MIN_VALIDATION_TRUST: u64 = 400_000;

/// Network-wide average trust score, an externally supplied configuration
/// value that no operation of this core mutates (`0.5`).
pub const DEFAULT_AVERAGE_TRUST: u64 = 500_000;

/// The scoring constant `k = 0.001`, in ppm.
pub const BASE_STEP: u64 = 1_000;

/// Internal scale of the exponential evaluation: `FIXED_ONE` stands for
/// `1.0` inside the Taylor series.
pub const FIXED_ONE: u64 = 100_000_000;

/// Saturation guard on a Taylor term.  For every exponent this engine ever
/// evaluates (`x <= 2.5`) the largest true term is below `3.2 * FIXED_ONE`,
/// so the guard never alters a result; it only keeps every intermediate
/// value trivially within `u64`.
pub const TERM_CAP: u64 = 10_000_000_000;

/// Number of Taylor terms past the constant term.  At `x = 2.5` the first
/// omitted term is below `10^-16`, far under the published precision.
pub const TAYLOR_TERMS: u64 = 25;

/// The `k`-th Taylor term of `e^x`, in `FIXED_ONE` fixed point with
/// truncating division, saturated at `TERM_CAP`.
pub open spec fn taylor_term(x: int, k: nat) -> int
    decreases k,
{
    if k == 0 {
        FIXED_ONE as int
    } else {
        let t = taylor_term(x, (k - 1) as nat) * x / ((FIXED_ONE as int) * (k as int));
        if t > TERM_CAP as int {
            TERM_CAP as int
        } else {
            t
        }
    }
}

/// Sum of the Taylor terms `0..=k`.
pub open spec fn taylor_sum(x: int, k: nat) -> int
    decreases k,
{
    if k == 0 {
        taylor_term(x, 0)
    } else {
        taylor_sum(x, (k - 1) as nat) + taylor_term(x, k)
    }
}

/// `e^x` in `FIXED_ONE` fixed point, by the truncated Taylor series.
pub open spec fn spec_exp_fixed(x: int) -> int {
    taylor_sum(x, TAYLOR_TERMS as nat)
}

/// Reward in ppm for a matching vote at score `s`:
/// `0.001 * 0.5 * e^(2.5 * s)`.
pub open spec fn spec_reward(s: u64) -> int {
    500 * spec_exp_fixed(250 * s) / (FIXED_ONE as int)
}

/// Penalty in ppm for a non-matching vote at score `s`: the reference curve
/// `0.001 * (1 - 1 / (1 - 2.5 * s))` above `MIN_VALIDATION_TRUST`, and the
/// flat base step at or below it.
pub open spec fn spec_penalty(s: u64) -> int {
    if s <= MIN_VALIDATION_TRUST {
        BASE_STEP as int
    } else {
        BASE_STEP + 2_000_000_000int / (5 * s - 2_000_000)
    }
}

/// Next score after a matching vote: the reward is added and the result is
/// clamped to `SCALE`.
pub open spec fn spec_next_up(s: u64) -> int {
    if s + spec_reward(s) >= SCALE {
        SCALE as int
    } else {
        s + spec_reward(s)
    }
}

/// Next score after a non-matching vote: the penalty is subtracted and the
/// result is clamped to `0`.
pub open spec fn spec_next_down(s: u64) -> int {
    if spec_penalty(s) >= s {
        0
    } else {
        s - spec_penalty(s)
    }
}

/// `e^(x / FIXED_ONE)` in `FIXED_ONE` fixed point.
pub fn exp_fixed(x: u64) -> (r: u64)
    requires
        x <= 250_000_000,
    ensures
        r == spec_exp_fixed(x as int),
        FIXED_ONE <= r <= FIXED_ONE + TAYLOR_TERMS * TERM_CAP,
{
    let mut term: u64 = FIXED_ONE;
    let mut sum: u64 = FIXED_ONE;
    let mut k: u64 = 1;
    while k <= TAYLOR_TERMS
        invariant
            1 <= k <= TAYLOR_TERMS + 1,
            x <= 250_000_000,
            term == taylor_term(x as int, (k - 1) as nat),
            sum == taylor_sum(x as int, (k - 1) as nat),
            term <= TERM_CAP,
            FIXED_ONE <= sum <= FIXED_ONE + (k - 1) * TERM_CAP,
        decreases TAYLOR_TERMS + 1 - k,
    {
        proof {
            lemma_mul_upper_bound(term as int, TERM_CAP as int, x as int, 250_000_000);
        }
        let mut t = (term * x) / (FIXED_ONE * k);
        if t > TERM_CAP {
            t = TERM_CAP;
        }
        term = t;
        sum = sum + term;
        k = k + 1;
    }
    sum
}

/// Reward in ppm for a matching vote at score `s`.
pub fn reward(s: u64) -> (r: u64)
    requires
        s <= SCALE,
    ensures
        r == spec_reward(s),
        r <= 1_250_500,
{
    let e = exp_fixed(250 * s);
    let r = (500 * e) / FIXED_ONE;
    proof {
        lemma_div_is_ordered(500 * (e as int), 125_050_000_000_000, FIXED_ONE as int);
    }
    r
}

/// Penalty in ppm for a non-matching vote at score `s`.
pub fn penalty(s: u64) -> (r: u64)
    requires
        s <= SCALE,
    ensures
        r == spec_penalty(s),
        BASE_STEP <= r,
{
    if s <= MIN_VALIDATION_TRUST {
        BASE_STEP
    } else {
        let t = 5 * s - 2_000_000;
        proof {
            lemma_div_pos_is_pos(2_000_000_000, t as int);
        }
        BASE_STEP + 2_000_000_000 / t
    }
}

/// Next score after a matching vote.
pub fn next_score_up(s: u64) -> (r: u64)
    requires
        s <= SCALE,
    ensures
        r == spec_next_up(s),
        s <= r <= SCALE,
{
    let d = reward(s);
    let n = s + d;
    if n >= SCALE {
        SCALE
    } else {
        n
    }
}

/// Next score after a non-matching vote.
pub fn next_score_down(s: u64) -> (r: u64)
    requires
        s <= SCALE,
    ensures
        r == spec_next_down(s),
        r <= s,
{
    let p = penalty(s);
    if p >= s {
        0
    } else {
        s - p
    }
}

/// Every Taylor term of a non-negative exponent is non-negative.
pub proof fn lemma_taylor_term_nonneg(x: int, k: nat)
    requires
        x >= 0,
    ensures
        taylor_term(x, k) >= 0,
    decreases k,
{
    if k > 0 {
        lemma_taylor_term_nonneg(x, (k - 1) as nat);
        lemma_mul_nonnegative(taylor_term(x, (k - 1) as nat), x);
        lemma_div_pos_is_pos(
            taylor_term(x, (k - 1) as nat) * x,
            (FIXED_ONE as int) * (k as int),
        );
    }
}

/// The Taylor sum never falls under the constant term.
pub proof fn lemma_taylor_sum_lower(x: int, k: nat)
    requires
        x >= 0,
    ensures
        taylor_sum(x, k) >= FIXED_ONE,
    decreases k,
{
    if k > 0 {
        lemma_taylor_sum_lower(x, (k - 1) as nat);
        lemma_taylor_term_nonneg(x, k);
    }
}

/// Law: the reward is always at least `0.0005` (its value at score zero),
/// so a matching vote never lowers a score.
pub proof fn lemma_success_never_lowers(s: u64)
    requires
        s <= SCALE,
    ensures
        spec_reward(s) >= 500,
        spec_next_up(s) >= s,
{
    lemma_taylor_sum_lower(250 * s, TAYLOR_TERMS as nat);
    lemma_div_is_ordered(
        500 * (FIXED_ONE as int),
        500 * spec_exp_fixed(250 * s),
        FIXED_ONE as int,
    );
}

/// Each Taylor term is monotone in the exponent.
pub proof fn lemma_taylor_term_monotone(x1: int, x2: int, k: nat)
    requires
        0 <= x1 <= x2,
    ensures
        taylor_term(x1, k) <= taylor_term(x2, k),
    decreases k,
{
    if k > 0 {
        lemma_taylor_term_monotone(x1, x2, (k - 1) as nat);
        lemma_taylor_term_nonneg(x1, (k - 1) as nat);
        let a1 = taylor_term(x1, (k - 1) as nat);
        let a2 = taylor_term(x2, (k - 1) as nat);
        lemma_mul_upper_bound(a1, a2, x1, x2);
        lemma_div_is_ordered(a1 * x1, a2 * x2, (FIXED_ONE as int) * (k as int));
    }
}

/// The Taylor sum is monotone in the exponent.
pub proof fn lemma_taylor_sum_monotone(x1: int, x2: int, k: nat)
    requires
        0 <= x1 <= x2,
    ensures
        taylor_sum(x1, k) <= taylor_sum(x2, k),
    decreases k,
{
    lemma_taylor_term_monotone(x1, x2, k);
    if k > 0 {
        lemma_taylor_sum_monotone(x1, x2, (k - 1) as nat);
    }
}

/// Law (reinforcement): the reward curve is non-decreasing in the score,
/// so validators that are already trusted gain trust at least as fast.
pub proof fn lemma_reward_monotone(s1: u64, s2: u64)
    requires
        s1 <= s2 <= SCALE,
    ensures
        spec_reward(s1) <= spec_reward(s2),
{
    lemma_taylor_sum_monotone(250 * s1, 250 * s2, TAYLOR_TERMS as nat);
    lemma_div_is_ordered(
        500 * spec_exp_fixed(250 * s1),
        500 * spec_exp_fixed(250 * s2),
        FIXED_ONE as int,
    );
}

/// Law: a non-matching vote on any score at or above the base step lowers
/// it by at least the base step (after clamping at zero).  Repeated failing
/// updates therefore drive any score below `REMOVAL_THRESHOLD` within
/// finitely many rounds.
pub proof fn lemma_failure_progress(s: u64)
    requires
        BASE_STEP <= s <= SCALE,
    ensures
        spec_next_down(s) + BASE_STEP <= s,
{
    if s > MIN_VALIDATION_TRUST {
        lemma_div_pos_is_pos(2_000_000_000, 5 * s - 2_000_000);
    }
}

} // verus!
