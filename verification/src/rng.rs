//! Seeded shuffling of the letter alphabet, used to generate rotor
//! wirings, reflector pairings and plugboard pairings from one seed.

use vstd::prelude::*;
use rand::rngs::StdRng;
use rand::seq::SliceRandom;
use rand::SeedableRng;

verus! {

/// The permutation of `'A'..='Z'` that the seeded shuffle yields for
/// a given seed.  The exact order is implementation-defined
/// pseudo-randomness; contracts treat it as an unspecified but fixed
/// function of the seed.
pub uninterp spec fn shuffled_alphabet(seed: u64) -> Seq<char>;

/// A sequence that holds each of the 26 uppercase letters exactly
/// once.
pub open spec fn is_alphabet_permutation(s: Seq<char>) -> bool {
    &&& s.len() == 26
    &&& forall|i: int| 0 <= i < 26 ==> 'A' <= #[trigger] s[i] <= 'Z'
    &&& forall|i: int, j: int| 0 <= i < 26 && 0 <= j < 26 && i != j ==> s[i] != s[j]
    &&& forall|c: char| 'A' <= c <= 'Z' ==> #[trigger] s.contains(c)
}

/// Relies on `rand::rngs::StdRng::seed_from_u64` and
/// `rand::seq::SliceRandom::shuffle`: seeding is deterministic for a
/// given seed, and the shuffle only swaps elements in place, so the
/// result is a permutation of the 26 uppercase letters fixed by the
/// seed.
#[verifier::external_body]
pub(crate) fn shuffle_alphabet(seed: u64) -> (r: Vec<char>)
    ensures
        r@ == shuffled_alphabet(seed),
        is_alphabet_permutation(r@),
{
    let mut rng = StdRng::seed_from_u64(seed);
    let mut alphabet: Vec<char> = "ABCDEFGHIJKLMNOPQRSTUVWXYZ".chars().collect();
    alphabet.shuffle(&mut rng);
    alphabet
}

} // verus!
