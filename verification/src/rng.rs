use vstd::prelude::*;
use rand::Rng;
use rand::SeedableRng;

verus! {

/// The PCG-64 generator of `rand_pcg`, opaque to the verifier.
#[verifier::external_type_specification]
#[verifier::external_body]
pub struct ExLcg128Xsl64(rand_pcg::Lcg128Xsl64);

/// A seedable random-number generator threaded explicitly through every
/// operator call, so that a whole run is reproducible from its seed.
pub struct GaRng {
    inner: rand_pcg::Pcg64,
}

impl GaRng {
    /// Relies on `rand_pcg::Pcg64` via `SeedableRng::seed_from_u64`: builds a
    /// generator whose stream is determined by `seed`. Nothing is assumed about
    /// the values it will produce.
    #[verifier::external_body]
    pub fn new(seed: u64) -> (r: GaRng) {
        GaRng { inner: rand_pcg::Pcg64::seed_from_u64(seed) }
    }

    /// Relies on `rand::Rng::gen_range`: a draw from `0..bound` lies below
    /// `bound`, and the call panics only on an empty range, which the
    /// precondition rules out. No draw is assumed to equal any other.
    #[verifier::external_body]
    pub(crate) fn next_below(&mut self, bound: u128) -> (r: u128)
        requires
            bound > 0,
        ensures
            r < bound,
    {
        self.inner.gen_range(0..bound)
    }
}

} // verus!
