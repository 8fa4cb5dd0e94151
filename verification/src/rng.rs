//! Random draws for the perturbation operations.

use vstd::prelude::*;
use crate::fixed::FX_ONE;

verus! {

/// Relies on `rand::random::<u64>`: it returns some 64-bit value; nothing
/// is assumed about which one.
#[verifier::external_body]
fn random_u64() -> u64 {
    rand::random::<u64>()
}

/// A perturbation step: some fixed-point value in `[-FX_ONE, FX_ONE)`,
/// that is, in the real interval `[-1, 1)`.
pub(crate) fn draw_step() -> (d: i64)
    ensures
        -FX_ONE <= d < FX_ONE,
{
    let r = random_u64();
    let v: u64 = r % ((2 * FX_ONE) as u64);
    (v as i64) - FX_ONE
}

/// A coin for sparse perturbation: some fixed-point value in `[0, FX_ONE)`,
/// that is, in the real interval `[0, 1)`.
pub(crate) fn draw_coin() -> (c: i64)
    ensures
        0 <= c < FX_ONE,
{
    let r = random_u64();
    let v: u64 = r % (FX_ONE as u64);
    v as i64
}

} // verus!
