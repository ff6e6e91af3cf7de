//! The simulator's single source of randomness: thin trusted wrappers around
//! the `rand` crate's thread-local generator. Nothing is promised of a random
//! value beyond what `rand` documents; all logic that consumes the values is
//! verified for every outcome.
use vstd::prelude::*;

verus! {

#[verifier::external_type_specification]
#[verifier::external_body]
pub struct ExThreadRng(rand::rngs::ThreadRng);

/// Relies on rand::RngCore::fill_bytes: it overwrites every byte of the given
/// slice in place, so the length never changes; the new contents are random.
#[verifier::external_body]
pub(crate) fn fill_random(rng: &mut rand::rngs::ThreadRng, buf: &mut Vec<u8>)
    ensures
        final(buf)@.len() == old(buf)@.len(),
{
    rand::RngCore::fill_bytes(rng, buf.as_mut_slice());
}

/// Relies on rand::Rng::gen with the Standard distribution: one uniformly
/// random byte; nothing can be promised of the value.
#[verifier::external_body]
pub(crate) fn random_byte(rng: &mut rand::rngs::ThreadRng) -> u8 {
    rand::Rng::gen(rng)
}

/// Relies on rand::Rng::gen_ratio: true with probability `num / den`. Its
/// documentation promises a panic exactly when `den == 0` or `num > den`
/// (ruled out here), `true` whenever `num == den`, and `false` whenever
/// `num == 0`.
#[verifier::external_body]
pub(crate) fn coin(rng: &mut rand::rngs::ThreadRng, num: u32, den: u32) -> (r: bool)
    requires
        0 < den,
        num <= den,
    ensures
        num == den ==> r,
        num == 0 ==> !r,
{
    rand::Rng::gen_ratio(rng, num, den)
}

/// Relies on rand::seq::SliceRandom::shuffle: a Fisher-Yates shuffle that
/// permutes the slice in place by swaps, so the multiset of its elements, and
/// with it the length, is unchanged.
#[verifier::external_body]
pub(crate) fn shuffle_indices(rng: &mut rand::rngs::ThreadRng, v: &mut Vec<usize>)
    ensures
        final(v)@.len() == old(v)@.len(),
        final(v)@.to_multiset() == old(v)@.to_multiset(),
{
    rand::seq::SliceRandom::shuffle(v.as_mut_slice(), rng);
}

} // verus!
