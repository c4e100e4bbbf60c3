//! The random source of puzzle generation, from the `rand` crate.

use vstd::prelude::*;
use rand::rngs::ThreadRng;
use rand::seq::SliceRandom;
use rand::Rng;

verus! {

#[verifier::external_type_specification]
#[verifier::external_body]
pub struct ExThreadRng(ThreadRng);

/// `new` holds the items of `old`, rearranged: item `i` of `new` is item
/// `p[i]` of `old` for a one-to-one choice of positions `p`.
pub open spec fn is_permutation_of(new: Seq<u8>, old: Seq<u8>) -> bool {
    &&& new.len() == old.len()
    &&& exists|p: Seq<int>|
        {
            &&& p.len() == old.len()
            &&& forall|i: int| 0 <= i < p.len() ==> 0 <= #[trigger] p[i] < old.len()
            &&& forall|i: int| 0 <= i < p.len() ==> new[i] == old[#[trigger] p[i]]
            &&& forall|i: int, j: int| 0 <= i < p.len() && 0 <= j < p.len() && i != j ==> #[trigger] p[i] != #[trigger] p[j]
        }
}

/// Calls `SliceRandom::shuffle` of `rand` on the vector's items. Its source
/// rearranges the slice by swaps only (a Fisher-Yates shuffle), so the result
/// is a rearrangement of the items; which one depends on the random source
/// and is left open.
#[verifier::external_body]
pub(crate) fn shuffle_digits(nums: &mut Vec<u8>, rng: &mut ThreadRng)
    ensures
        is_permutation_of(final(nums)@, old(nums)@),
{
    nums.shuffle(rng);
}

/// Calls `Rng::random_range` of `rand` on the range `0..bound`. Its source
/// asserts that the range is not empty and samples an integer from it, so the
/// result lies below `bound`; which value comes out depends on the random
/// source and is left open.
#[verifier::external_body]
pub(crate) fn random_index(rng: &mut ThreadRng, bound: u8) -> (n: u8)
    requires
        0 < bound,
    ensures
        n < bound,
{
    rng.random_range(0..bound)
}

} // verus!
