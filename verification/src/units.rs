//! Fixed-point levels.
//!
//! Stability and activation are kept as unsigned integers that count
//! millionths, so that `UNIT` stands for 1.0. Every operation on them is
//! exact integer arithmetic; the only rounding is the floor taken by
//! [`attenuate`].

use vstd::prelude::*;

verus! {

/// The level 1.0.
pub const UNIT: u64 = 1_000_000;

/// The stability a trace gains each time its symbol is interpreted (0.1).
pub const INTERPRET_DELTA: i64 = 100_000;

/// The rate at which one tick decays memory and substrate (0.05).
pub const TICK_RATE: u64 = 50_000;

/// Activations at or below this level are pruned by a substrate decay (0.01).
pub const PRUNE_LEVEL: u64 = 10_000;

/// `stability + delta`, clamped to the range from 0 to `UNIT`.
pub open spec fn reinforced(stability: u64, delta: i64) -> u64 {
    if stability + delta < 0 {
        0
    } else if stability + delta > UNIT {
        UNIT
    } else {
        (stability + delta) as u64
    }
}

/// `stability - rate`, floored at 0.
pub open spec fn weakened(stability: u64, rate: u64) -> u64 {
    if rate >= stability {
        0
    } else {
        (stability - rate) as u64
    }
}

/// `level * (1 - rate)`, floored at 0 and rounded down to a whole millionth.
pub open spec fn attenuated(level: u64, rate: u64) -> u64 {
    if rate >= UNIT {
        0
    } else {
        (level * (UNIT - rate) / (UNIT as int)) as u64
    }
}

/// The product taken by [`attenuated`] never exceeds the level it started from.
pub proof fn lemma_attenuated_bounds(level: u64, rate: u64)
    requires
        rate < UNIT,
    ensures
        0 <= level * (UNIT - rate) / (UNIT as int) <= level,
        attenuated(level, rate) <= level,
        rate == 0 ==> attenuated(level, rate) == level,
        attenuated(level, rate) * UNIT <= level * (UNIT - rate) < (attenuated(level, rate) + 1)
            * UNIT,
{
    let keep: int = UNIT - rate;
    assert(0 <= level * keep <= level * (UNIT as int)) by (nonlinear_arith)
        requires
            0 <= keep <= UNIT,
            0 <= level,
    ;
    assert(level * (UNIT as int) / (UNIT as int) == level) by (nonlinear_arith);
    assert(level * keep / (UNIT as int) <= level * (UNIT as int) / (UNIT as int))
        by (nonlinear_arith)
        requires
            level * keep <= level * (UNIT as int),
    ;
    assert(0 <= level * keep / (UNIT as int)) by (nonlinear_arith)
        requires
            0 <= level * keep,
    ;
    let product: int = level * keep;
    let unit: int = UNIT as int;
    assert((product / unit) * unit <= product < (product / unit + 1) * unit) by (nonlinear_arith)
        requires
            0 <= product,
            unit == 1_000_000,
    ;
}

/// Adds `delta` to a stability and clamps the sum to the range from 0 to `UNIT`.
pub fn reinforce(stability: u64, delta: i64) -> (r: u64)
    ensures
        r == reinforced(stability, delta),
        r <= UNIT,
{
    let sum: i128 = stability as i128 + delta as i128;
    if sum < 0 {
        0
    } else if sum > UNIT as i128 {
        UNIT
    } else {
        sum as u64
    }
}

/// Subtracts `rate` from a stability, stopping at 0.
pub fn weaken(stability: u64, rate: u64) -> (r: u64)
    ensures
        r == weakened(stability, rate),
        r <= stability,
{
    if rate >= stability {
        0
    } else {
        stability - rate
    }
}

/// Scales an activation by `1 - rate`, rounding down; a rate of 1.0 or more
/// leaves nothing.
pub fn attenuate(level: u64, rate: u64) -> (r: u64)
    ensures
        r == attenuated(level, rate),
        r <= level,
{
    if rate >= UNIT {
        0
    } else {
        proof {
            lemma_attenuated_bounds(level, rate);
        }
        let keep: u128 = (UNIT - rate) as u128;
        let product: u128 = level as u128 * keep;
        (product / (UNIT as u128)) as u64
    }
}

} // verus!
