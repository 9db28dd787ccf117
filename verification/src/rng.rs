use rand::rngs::StdRng;
use rand::Rng;
use vstd::prelude::*;

verus! {

/// The seedable generator of the `rand` crate. Its state is opaque here: a
/// generator is only ever handed on to [`random_below`].
#[verifier::external_type_specification]
#[verifier::external_body]
pub struct ExStdRng(rand::rngs::StdRng);

/// Calls `rand::Rng::gen_range` on the half-open range `0..bound`. The range
/// must not be empty, since `gen_range` panics on an empty one. All that is
/// claimed of the draw is that it lies in the range; nothing is said of which
/// value comes, nor of the generator's state afterwards.
#[verifier::external_body]
pub(crate) fn random_below(rng: &mut StdRng, bound: u64) -> (r: u64)
    requires
        bound > 0,
    ensures
        r < bound,
{
    rng.gen_range(0..bound)
}

} // verus!
