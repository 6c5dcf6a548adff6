//! The pseudo-random generator that every stochastic decision draws from.
use rand::{Rng, SeedableRng, XorShiftRng};
use vstd::prelude::*;

verus! {

#[verifier::external_type_specification]
#[verifier::external_body]
pub struct ExXorShiftRng(XorShiftRng);

/// True when a seed has at least one non-zero word.
pub open spec fn seed_ok(seed: [u32; 4]) -> bool {
    seed[0] != 0 || seed[1] != 0 || seed[2] != 0 || seed[3] != 0
}

/// The generator state that a seed sets: rand's `XorShiftRng` takes the four
/// words of the seed as its four state words.
pub uninterp spec fn seeded_state(seed: [u32; 4]) -> XorShiftRng;

/// Relies on `SeedableRng::from_seed` of rand's `XorShiftRng`: the state is
/// the seed's four words; it panics on an all-zero seed.
#[verifier::external_body]
pub(crate) fn seeded(seed: [u32; 4]) -> (r: XorShiftRng)
    requires
        seed_ok(seed),
    ensures
        r == seeded_state(seed),
{
    XorShiftRng::from_seed(seed)
}

/// Relies on `Clone` of rand's `XorShiftRng`, derived: it copies the four
/// state words, so the copy equals the original.
pub assume_specification[ <XorShiftRng as Clone>::clone ](rng: &XorShiftRng) -> (r: XorShiftRng)
    ensures
        r == *rng,
;

/// Relies on rand's `random::<u32>()`, drawn from the thread's generator that
/// the operating system seeds. Nothing can be promised of the value.
#[verifier::external_body]
pub(crate) fn random_word() -> (r: u32) {
    rand::random::<u32>()
}

/// A seed drawn from fresh entropy; a draw of all zeros has its last word set
/// to one, so the seed is always accepted.
pub fn fresh_seed() -> (r: [u32; 4])
    ensures
        seed_ok(r),
{
    let a = random_word();
    let b = random_word();
    let c = random_word();
    let d = random_word();
    if a == 0 && b == 0 && c == 0 && d == 0 {
        [a, b, c, 1]
    } else {
        [a, b, c, d]
    }
}

/// Relies on `SeedableRng::reseed` of rand's `XorShiftRng`: it sets the same
/// four state words as `from_seed`; it panics on an all-zero seed.
#[verifier::external_body]
pub(crate) fn reseed(rng: &mut XorShiftRng, seed: [u32; 4])
    requires
        seed_ok(seed),
    ensures
        *final(rng) == seeded_state(seed),
{
    rng.reseed(seed)
}

/// Relies on rand's `Rng::gen_range` on integers: a value in `[low, high)`;
/// it panics when `low >= high`.
#[verifier::external_body]
pub(crate) fn gen_index(rng: &mut XorShiftRng, low: usize, high: usize) -> (r: usize)
    requires
        low < high,
    ensures
        low <= r < high,
{
    rng.gen_range(low, high)
}

/// Relies on rand's `Rng::shuffle`: it only swaps elements of the slice, so
/// the result is a permutation of the input.
#[verifier::external_body]
pub(crate) fn shuffle(rng: &mut XorShiftRng, v: &mut Vec<usize>)
    ensures
        final(v)@.len() == old(v)@.len(),
        final(v)@.to_multiset() == old(v)@.to_multiset(),
{
    rng.shuffle(v.as_mut_slice())
}

} // verus!
