use vstd::prelude::*;

verus! {

/// A number drawn by `rand::random_range` from `low..=high`, with the
/// thread's random number generator. The source of `rand` shows the draw in
/// the range; which number comes is chance, and nothing is stated of it.
#[verifier::external_body]
pub(crate) fn random_in_range(low: u32, high: u32) -> (r: u32)
    requires
        low <= high,
    ensures
        low <= r <= high,
{
    rand::random_range(low..=high)
}

} // verus!
