//! A seeded pseudo-random source. Its draws are named as functions of the seed and of
//! the draws made before, which is what makes generation reproducible.
use vstd::prelude::*;
use rand::{Rng, SeedableRng};
use rand::rngs::StdRng;
use rand::distributions::Alphanumeric;

verus! {

#[verifier::external_type_specification]
#[verifier::external_body]
pub struct ExStdRng(StdRng);

/// The value that `gen_range(0..bound)` returns on a `u64` range, from a `StdRng`
/// seeded with `seed` after the draws listed in `history` (a range draw is listed by
/// its bound, an alphanumeric draw by 0).
pub uninterp spec fn drawn_below(seed: u64, history: Seq<u64>, bound: u64) -> u64;

/// The byte that sampling `Alphanumeric` returns from a `StdRng` seeded with `seed`
/// after the draws listed in `history`.
pub uninterp spec fn drawn_alphanumeric(seed: u64, history: Seq<u64>) -> u8;

pub open spec fn is_ascii_alphanumeric(c: u8) -> bool {
    (48 <= c <= 57) || (65 <= c <= 90) || (97 <= c <= 122)
}

/// A `StdRng` with, as ghost state, its seed and the draws made from it so far.
pub struct Source {
    rng: StdRng,
    seed: Ghost<u64>,
    history: Ghost<Seq<u64>>,
}

/// Relies on `SeedableRng::seed_from_u64` of rand: a generator determined by the seed,
/// from which nothing has been drawn yet.
#[verifier::external_body]
fn seeded_std_rng(seed: u64) -> (r: Source)
    ensures
        r.seed@ == seed,
        r.history@ == Seq::<u64>::empty(),
{
    Source { rng: StdRng::seed_from_u64(seed), seed: Ghost(seed), history: Ghost(Seq::empty()) }
}

/// Relies on `Rng::gen_range` of rand: a value in `0..bound`, which for a `StdRng`
/// depends only on its seed and the draws made before (the generator is deterministic).
/// Panics on an empty range, which `requires` rules out.
#[verifier::external_body]
fn std_rng_gen_below(src: &mut Source, bound: u64) -> (r: u64)
    requires
        bound > 0,
    ensures
        r < bound,
        r == drawn_below(old(src).seed@, old(src).history@, bound),
        final(src).seed == old(src).seed,
        final(src).history@ == old(src).history@.push(bound),
{
    src.rng.gen_range(0..bound)
}

/// Relies on `Rng::sample` of rand with the `Alphanumeric` distribution: a byte of
/// `A-Z`, `a-z` or `0-9`, which for a `StdRng` depends only on its seed and the draws
/// made before.
#[verifier::external_body]
fn std_rng_alphanumeric(src: &mut Source) -> (r: u8)
    ensures
        is_ascii_alphanumeric(r),
        r == drawn_alphanumeric(old(src).seed@, old(src).history@),
        final(src).seed == old(src).seed,
        final(src).history@ == old(src).history@.push(0),
{
    src.rng.sample(Alphanumeric)
}

impl Source {
    /// The seed the generator was made with.
    pub closed spec fn seed(&self) -> u64 {
        self.seed@
    }

    /// The draws made so far: a range draw by its bound, an alphanumeric draw by 0.
    pub closed spec fn history(&self) -> Seq<u64> {
        self.history@
    }

    /// A fresh generator seeded with `seed`.
    pub fn new(seed: u64) -> (r: Source)
        ensures
            r.seed() == seed,
            r.history() == Seq::<u64>::empty(),
    {
        seeded_std_rng(seed)
    }

    /// A value drawn uniformly from `0..bound`.
    pub fn below(&mut self, bound: u64) -> (r: u64)
        requires
            bound > 0,
        ensures
            r < bound,
            r == drawn_below(old(self).seed(), old(self).history(), bound),
            final(self).seed() == old(self).seed(),
            final(self).history() == old(self).history().push(bound),
    {
        std_rng_gen_below(self, bound)
    }

    /// An ASCII letter or digit, drawn uniformly.
    pub fn alphanumeric(&mut self) -> (r: u8)
        ensures
            is_ascii_alphanumeric(r),
            r == drawn_alphanumeric(old(self).seed(), old(self).history()),
            final(self).seed() == old(self).seed(),
            final(self).history() == old(self).history().push(0),
    {
        std_rng_alphanumeric(self)
    }
}

} // verus!
