//! Draws from the thread's random number generator.
use vstd::prelude::*;

use rand::Rng;

verus! {

/// `rand::thread_rng().gen_range(low..high)`: a number drawn from the
/// thread's random generator.
///
/// The documentation promises a number of the half-open range, drawn
/// uniformly; which number comes is chance, so the contract says only that it
/// lies in the range. `gen_range` panics on an empty range, which `requires`
/// leaves out.
#[verifier::external_body]
pub(crate) fn random_in_range(low: i64, high: i64) -> (r: i64)
    requires
        low < high,
    ensures
        low <= r < high,
{
    rand::thread_rng().gen_range(low..high)
}

} // verus!
