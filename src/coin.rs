//! The pseudo-random fair coin shared by the spawn brush and the physics pass.

use rand::rngs::StdRng;
use rand::Rng;
use vstd::prelude::*;

verus! {

#[verifier::external_type_specification]
#[verifier::external_body]
pub struct ExStdRng(StdRng);

/// Relies on rand's `Rng::gen::<bool>` (the `Standard` distribution for
/// `bool`): one fair coin drawn from the generator. Nothing is promised of the
/// value drawn.
#[verifier::external_body]
pub(crate) fn flip_coin(rng: &mut StdRng) -> bool {
    rng.gen::<bool>()
}

} // verus!
