//! The engine's randomness source.

use vstd::prelude::*;
use crate::fixed::COORD_MAX;

verus! {

/// Relies on rand::random: draws one machine word from the thread
/// generator; nothing is promised of the value.
#[verifier::external_body]
fn random_word() -> u64 {
    rand::random::<u64>()
}

/// A coordinate drawn from `[0, COORD_MAX)` micro-units, one draw per
/// call.
pub fn random_coord() -> (r: i64)
    ensures
        0 <= r < COORD_MAX,
{
    let w = random_word();
    (w % 100_000_000u64) as i64
}

} // verus!
