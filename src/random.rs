//! The random state that the engine draws from, passed explicitly by callers.
use rand::Rng;
use rand::rngs::StdRng;
use vstd::prelude::*;

verus! {

/// The seedable generator of `rand`; its state is opaque to proofs.
#[verifier::external_type_specification]
#[verifier::external_body]
pub struct ExStdRng(StdRng);

/// Relies on `rand::Rng::gen_range` over `0..bound`: a value below `bound`
/// (it panics only on an empty range, which `requires` leaves out).
#[verifier::external_body]
pub(crate) fn draw_below(rng: &mut StdRng, bound: u64) -> (r: u64)
    requires
        bound > 0,
    ensures
        r < bound,
{
    rng.gen_range(0..bound)
}

/// Relies on `rand::Rng::gen::<u64>`: any 64-bit value.
#[verifier::external_body]
pub(crate) fn draw_u64(rng: &mut StdRng) -> (r: u64) {
    rng.gen::<u64>()
}

} // verus!
