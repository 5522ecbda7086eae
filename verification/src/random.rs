//! The one door to chance: uniform integer draws from the generator of the
//! calling thread.
//!
//! Nothing in this module is proved. Its contracts say of the generator only
//! what holds of every draw, and every rule that uses a draw lives in a
//! verified function that takes the drawn number as an argument.

use rand::Rng;
use vstd::prelude::*;

verus! {

/// `rand::rngs::ThreadRng`, a handle to the generator of the calling thread.
/// Its state is hidden from proofs.
#[verifier::external_type_specification]
#[verifier::external_body]
pub struct ExThreadRng(rand::rngs::ThreadRng);

/// `rand::thread_rng` returns the handle to the lazily seeded generator of
/// the calling thread. Nothing is claimed of the handle. The call panics
/// only where the operating system cannot seed the generator.
pub assume_specification[ rand::thread_rng ]() -> (rng: rand::rngs::ThreadRng);

/// `rand::Rng::gen_range` on the inclusive range `low..=high`. The call
/// panics on an empty range, which `low <= high` rules out; what it returns
/// lies in the range, and nothing else is claimed of it.
#[verifier::external_body]
pub(crate) fn random_in_range(rng: &mut rand::rngs::ThreadRng, low: i64, high: i64) -> (value: i64)
    requires
        low <= high,
    ensures
        low <= value <= high,
{
    rng.gen_range(low..=high)
}

} // verus!
