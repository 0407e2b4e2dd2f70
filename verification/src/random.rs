//! The random draws that place new tiles.

use rand::Rng;
use vstd::prelude::*;

verus! {

/// Draws a number below `bound` from the thread's random generator.
///
/// This calls `rand::thread_rng` and, on its result, `Rng::gen_range` with
/// the range from zero up to, not including, `bound`. `gen_range` returns a
/// value of the range it is given and panics on an empty range, which the
/// precondition leaves out. That the draw is even over the range is not
/// stated here, and two draws with the same bound may differ. The generator
/// is seeded from the system when a thread first uses it, and `rand` panics
/// if the system offers no randomness. Nothing of this contract is proved.
#[verifier::external_body]
pub(crate) fn random_below(bound: usize) -> (drawn: usize)
    requires
        bound > 0,
    ensures
        drawn < bound,
{
    rand::thread_rng().gen_range(0..bound)
}

} // verus!
