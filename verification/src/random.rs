use rand::distributions::Distribution;
use rand::distributions::Uniform;
use rand::rngs::StdRng;
use rand::SeedableRng;
use vstd::prelude::*;

verus! {

/// rand's `StdRng`: the state of a random number generator. It is carried from
/// one draw to the next, and nothing is said of what it holds.
#[verifier::external_type_specification]
#[verifier::external_body]
pub struct ExStdRng(StdRng);

/// `indices` holds each of `0, ..., length - 1` once.
pub open spec fn is_permutation(indices: Seq<usize>, length: int) -> bool {
    &&& indices.len() == length
    &&& indices.no_duplicates()
    &&& forall|j: int| 0 <= j < indices.len() ==> (#[trigger] indices[j]) < length
}

/// `StdRng::seed_from_u64`: a generator whose stream `seed` fixes.
#[verifier::external_body]
pub(crate) fn seeded_rng(seed: u64) -> StdRng {
    StdRng::seed_from_u64(seed)
}

/// `Uniform::from(0..bound).sample(rng)`: one draw from the half-open range
/// `[0, bound)`. rand panics on an empty range.
#[verifier::external_body]
pub(crate) fn draw_below(rng: &mut StdRng, bound: usize) -> (draw: usize)
    requires
        bound > 0,
    ensures
        draw < bound,
{
    Uniform::from(0..bound).sample(rng)
}

/// `rand::seq::index::sample(rng, length, length)`: `length` distinct indices
/// below `length`, in random order. For a length above `u32::MAX` rand takes
/// a path that asks for fewer indices than the length, so such a length is
/// left out.
#[verifier::external_body]
pub(crate) fn sample_permutation(rng: &mut StdRng, length: usize) -> (indices: Vec<usize>)
    requires
        length <= 0xFFFF_FFFF,
    ensures
        is_permutation(indices@, length as int),
{
    rand::seq::index::sample(rng, length, length).into_vec()
}

} // verus!
