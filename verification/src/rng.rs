//! Trusted boundary to the random number generator.
//!
//! Randomness enters the renderer in exactly two shapes: a draw from
//! `[-1, 1]` (unit-cube rejection sampling) and a draw from `[-1/2, 1/2)`
//! (pixel jitter).  Both come from the `rand` crate; everything computed
//! from the draws is verified for every value the contracts admit.

use vstd::prelude::*;
use rand::Rng;
use crate::fx::SCALE;

verus! {

/// Relies on rand::thread_rng and rand::Rng::gen_range over the closed
/// range -SCALE..=SCALE: the draw lies in [-1, 1] in fixed point.
#[verifier::external_body]
pub(crate) fn rand_unit() -> (r: i64)
    ensures
        -(SCALE as int) <= r <= SCALE as int,
{
    rand::thread_rng().gen_range(-SCALE..=SCALE)
}

/// Relies on rand::thread_rng and rand::Rng::gen_range over the half-open
/// range -SCALE/2..SCALE/2: the draw lies in [-1/2, 1/2) in fixed point.
#[verifier::external_body]
pub(crate) fn rand_half() -> (r: i64)
    ensures
        -(SCALE as int) / 2 <= r < SCALE as int / 2,
{
    rand::thread_rng().gen_range(-(SCALE / 2)..(SCALE / 2))
}

} // verus!
