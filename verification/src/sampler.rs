//! The source of randomness: an explicit, seedable generator.
//!
//! A [`Sampler`] is the whole state of a `fastrand` generator, held as the
//! plain seed. Every draw is a function of the seed alone, so a render is
//! reproducible from its seeds, and each worker owns its own sampler.
use vstd::prelude::*;

verus! {

/// The 32-bit word that a `fastrand::Rng` seeded with `seed` draws first.
pub uninterp spec fn drawn_word(seed: u64) -> u32;

/// The seed that a `fastrand::Rng` seeded with `seed` holds after one draw.
pub uninterp spec fn next_seed(seed: u64) -> u64;

/// One step of the generator.
///
/// Calls `fastrand::Rng::u32` over the full range on a generator made with
/// `fastrand::Rng::with_seed(seed)`, and reads the state back with
/// `fastrand::Rng::get_seed`. The generator is a pure function of its state,
/// so the contract only names the two results; nothing is claimed about
/// their values.
#[verifier::external_body]
fn generator_step(seed: u64) -> (r: (u64, u32))
    ensures
        r.0 == next_seed(seed),
        r.1 == drawn_word(seed),
{
    let mut rng = fastrand::Rng::with_seed(seed);
    let word = rng.u32(..);
    (rng.get_seed(), word)
}

/// A seedable pseudo-random generator.
#[derive(Clone, Debug)]
pub struct Sampler {
    seed: u64,
}

impl View for Sampler {
    type V = u64;

    /// The current seed.
    closed spec fn view(&self) -> u64 {
        self.seed
    }
}

impl Sampler {
    /// A generator that starts at `seed`.
    pub fn new(seed: u64) -> (r: Sampler)
        ensures
            r@ == seed,
    {
        Sampler { seed }
    }

    /// The current seed; a sampler made from it continues this one's stream.
    pub fn seed(&self) -> (r: u64)
        ensures
            r == self@,
    {
        self.seed
    }

    /// Draws a uniformly distributed 32-bit word and advances the seed.
    pub fn next_word(&mut self) -> (w: u32)
        ensures
            w == drawn_word(old(self)@),
            final(self)@ == next_seed(old(self)@),
    {
        let (seed, word) = generator_step(self.seed);
        self.seed = seed;
        word
    }
}

} // verus!
