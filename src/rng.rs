//! The seeded pseudo-random generator shared by the soup and the generators.
use vstd::prelude::*;
use rand::seq::SliceRandom;
use rand::{Rng, SeedableRng};
use rand_chacha::ChaCha8Rng;

verus! {

/// Relies on rand_chacha's `ChaCha8Rng`, carried through unread: a deterministic generator
/// whose draws depend only on its state.
#[verifier::external_type_specification]
#[verifier::external_body]
pub struct ExChaCha8Rng(ChaCha8Rng);

/// Relies on the derived `Clone` of `ChaCha8Rng`: the copy holds the same state.
pub assume_specification[ <ChaCha8Rng as Clone>::clone ](rng: &ChaCha8Rng) -> (r: ChaCha8Rng)
    ensures
        r == *rng,
;

/// The generator state that `ChaCha8Rng::from_seed` builds from a seed.
pub uninterp spec fn seeded(seed: Seq<u8>) -> ChaCha8Rng;

/// The next state and the value that `gen_range(0..bound)` draws from a state.
pub uninterp spec fn draw_below(rng: ChaCha8Rng, bound: u64) -> (ChaCha8Rng, u64);

/// The next state and the value that `gen_ratio(numerator, denominator)` draws from a state.
pub uninterp spec fn draw_ratio(rng: ChaCha8Rng, numerator: u32, denominator: u32) -> (
    ChaCha8Rng,
    bool,
);

/// The shuffled sequence and the next state that `SliceRandom::shuffle` gives.
pub uninterp spec fn shuffled(v: Seq<u32>, rng: ChaCha8Rng) -> (Seq<u32>, ChaCha8Rng);

/// Relies on `ChaCha8Rng::from_seed` (`SeedableRng`): the state is a function of the seed.
#[verifier::external_body]
pub(crate) fn rng_from_seed(seed: [u8; 32]) -> (r: ChaCha8Rng)
    ensures
        r == seeded(seed@),
{
    ChaCha8Rng::from_seed(seed)
}

/// Relies on `Rng::gen_range` over `0..bound` (`u64` draws are portable across machines):
/// the value lies below `bound`; it panics on an empty range.
#[verifier::external_body]
pub(crate) fn gen_below(rng: &mut ChaCha8Rng, bound: u64) -> (r: u64)
    requires
        bound > 0,
    ensures
        r < bound,
        (*final(rng), r) == draw_below(*old(rng), bound),
{
    rng.gen_range(0..bound)
}

/// Relies on `Rng::gen_ratio`: true with probability `numerator / denominator`, so never
/// for a zero numerator and always when both are equal; it panics unless
/// `0 < denominator` and `numerator <= denominator`.
#[verifier::external_body]
pub(crate) fn gen_ratio(rng: &mut ChaCha8Rng, numerator: u32, denominator: u32) -> (r: bool)
    requires
        0 < denominator,
        numerator <= denominator,
    ensures
        (*final(rng), r) == draw_ratio(*old(rng), numerator, denominator),
        numerator == 0 ==> !r,
        numerator == denominator ==> r,
{
    rng.gen_ratio(numerator, denominator)
}

/// Relies on `SliceRandom::shuffle`: a permutation of the elements, chosen by the state.
#[verifier::external_body]
pub(crate) fn shuffle_keys(v: &mut Vec<u32>, rng: &mut ChaCha8Rng)
    ensures
        (final(v)@, *final(rng)) == shuffled(old(v)@, *old(rng)),
        final(v)@.to_multiset() == old(v)@.to_multiset(),
{
    v.shuffle(rng)
}

/// Relies on `rand::random`: a seed drawn from the thread-local generator; nothing is
/// known of its value.
#[verifier::external_body]
pub(crate) fn random_seed() -> (r: [u8; 32]) {
    rand::random::<[u8; 32]>()
}

} // verus!
