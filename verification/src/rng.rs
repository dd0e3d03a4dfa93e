//! The randomness source. The generator itself is an outside type; the one
//! operation the library needs is a uniform draw below a bound.

use vstd::prelude::*;
use rand::Rng;

verus! {

#[verifier::external_type_specification]
#[verifier::external_body]
pub struct ExStdRng(rand::rngs::StdRng);

/// Relies on `rand::Rng::gen_range` over `0..n`: returns a uniformly
/// distributed value of that range, and panics only on an empty range,
/// which the precondition rules out. Nothing can be promised about which
/// value comes back, so callers must hold for every value below `n`.
#[verifier::external_body]
pub(crate) fn rand_below(rng: &mut rand::rngs::StdRng, n: usize) -> (r: usize)
    requires
        n >= 1,
    ensures
        r < n,
{
    rng.gen_range(0..n)
}

} // verus!
