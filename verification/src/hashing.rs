//! Hash codes of items, and the two rounds of bit mixing that turn a hash code
//! into a block selector and four counter selectors.

use std::collections::hash_map::DefaultHasher;
use std::hash::Hash;
use std::hash::Hasher;
use vstd::prelude::*;

verus! {

/// The block-selecting hash of a hash code: three xor-shift and two multiply
/// steps on a 128-bit intermediate, cut down to the machine word.
pub open spec fn spread_spec(hash_code: u64) -> usize {
    let x0 = hash_code as u128;
    let x1 = x0 ^ (x0 >> 17);
    let x2 = (x1 * 0xed5ad4bb) as u128;
    let x3 = x2 ^ (x2 >> 11);
    let x4 = (x3 * 0xac4c1b51) as u128;
    let x5 = x4 ^ (x4 >> 15);
    x5 as usize
}

/// The counter-selecting hash of a block hash: one multiply and one xor-shift
/// step on a 128-bit intermediate, cut down to the machine word.
pub open spec fn rehash_spec(x: usize) -> usize {
    let x0 = x as u128;
    let x1 = (x0 * 0x31848bab) as u128;
    let x2 = x1 ^ (x1 >> 14);
    x2 as usize
}

proof fn lemma_xor_shift_keeps_width(x: u128)
    by (bit_vector)
    ensures
        x < 0x1_0000_0000_0000_0000 ==> x ^ (x >> 17) < 0x1_0000_0000_0000_0000,
        x < 0x1_0000_0000_0000_0000_0000_0000 ==> x ^ (x >> 11) < 0x1_0000_0000_0000_0000_0000_0000,
{
}

/// Applies a supplemental hash function that defends against hash codes of poor quality.
pub fn spread(hash_code: u64) -> (r: usize)
    ensures
        r == spread_spec(hash_code),
{
    let mut x: u128 = hash_code as u128;
    proof {
        lemma_xor_shift_keeps_width(x);
    }
    x ^= x >> 17;
    x *= 0xed5ad4bb;
    proof {
        lemma_xor_shift_keeps_width(x);
    }
    x ^= x >> 11;
    x *= 0xac4c1b51;
    x ^= x >> 15;
    #[verifier::truncate]
    (x as usize)
}

/// Applies another round of hashing for additional randomization.
pub fn rehash(x: usize) -> (r: usize)
    ensures
        r == rehash_spec(x),
{
    let mut x: u128 = x as u128;
    x *= 0x31848bab;
    x ^= x >> 14;
    #[verifier::truncate]
    (x as usize)
}

/// Feeds `e` into `state` through `Hash::hash`. Which bytes an item writes is
/// up to its `Hash` impl, so nothing is claimed of the state afterwards.
#[verifier::external_body]
fn hash_into<E: Hash>(e: &E, state: &mut DefaultHasher) {
    e.hash(state);
}

/// Returns the hash code of `e`: what a hasher made by `DefaultHasher::new`
/// holds after `e` was fed into it. Items of one type that are equal get the
/// same hash code as far as their `Hash` impl sees to it.
pub fn default_hash_code<E: Hash>(e: E) -> (code: u64) {
    let mut hasher = DefaultHasher::new();
    hash_into(&e, &mut hasher);
    hasher.finish()
}

} // verus!
