//! The random choices made while generating the game, all drawn from `rand`

use vstd::prelude::*;

use rand::rngs::StdRng;
use rand::seq::SliceRandom;
use rand::{Rng, SeedableRng};

verus! {

/// The random number generator that drives map generation (an opaque value of `rand`)
#[verifier::external_type_specification]
#[verifier::external_body]
pub struct ExStdRng(StdRng);

/// `rand::Rng::gen_range` on `usize`: a number in the half-open range `low..high`.
/// `rand` panics when `low >= high`, so that case is excluded. Which number comes out depends on
/// the state of the generator and is left open.
#[verifier::external_body]
pub(crate) fn gen_range(rng: &mut StdRng, low: usize, high: usize) -> (r: usize)
    requires
        low < high,
    ensures
        low <= r < high,
{
    rng.gen_range(low, high)
}

/// `rand::Rng::gen::<bool>`: a coin flip. Either value may come out.
#[verifier::external_body]
pub(crate) fn gen_bool(rng: &mut StdRng) -> bool {
    rng.gen()
}

/// `rand::Rng::gen::<[u8; 32]>`: 32 random bytes, used to seed a new generator.
/// Any bytes may come out.
#[verifier::external_body]
pub(crate) fn gen_seed(rng: &mut StdRng) -> [u8; 32] {
    rng.gen()
}

/// `rand::random::<[u8; 32]>`: 32 random bytes from the generator of the current thread.
/// Any bytes may come out.
#[verifier::external_body]
pub(crate) fn random_seed() -> [u8; 32] {
    rand::random()
}

/// `rand::SeedableRng::from_seed` for `StdRng`: a generator started from the given seed.
/// The generator is opaque, so nothing is stated of it.
#[verifier::external_body]
pub(crate) fn std_rng_from_seed(seed: [u8; 32]) -> StdRng {
    StdRng::from_seed(seed)
}

/// `rand::seq::SliceRandom::shuffle`: reorders the items. What comes out is a permutation of what
/// went in; which permutation depends on the generator and is left open.
#[verifier::external_body]
pub(crate) fn shuffle<T>(items: &mut Vec<T>, rng: &mut StdRng)
    ensures
        final(items)@.to_multiset() == old(items)@.to_multiset(),
        final(items)@.len() == old(items)@.len(),
{
    items.as_mut_slice().shuffle(rng)
}

/// `rand::seq::SliceRandom::choose`: one of the items, or nothing when there are none. Which
/// item comes out depends on the generator and is left open.
#[verifier::external_body]
pub(crate) fn choose_item<T: Copy>(items: &Vec<T>, rng: &mut StdRng) -> (r: Option<T>)
    ensures
        r is None <==> items@.len() == 0,
        r matches Some(x) ==> items@.contains(x),
{
    items.as_slice().choose(rng).copied()
}

/// `rand::Rng::gen_range` on the generator of the current thread (`rand::thread_rng`): a number
/// in the half-open range `low..high`. `rand` panics when `low >= high`, so that case is excluded.
/// Which number comes out is left open.
#[verifier::external_body]
pub(crate) fn thread_gen_range(low: usize, high: usize) -> (r: usize)
    requires
        low < high,
    ensures
        low <= r < high,
{
    rand::thread_rng().gen_range(low, high)
}

} // verus!
