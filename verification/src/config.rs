//! Configuration of the letter machine as plain values.

use vstd::prelude::*;

verus! {

/// Fixed offset mixed into every derived seed.
pub const FIXED_HASH: u64 = 1737;

/// A letter-machine configuration: the rotor count, the plugboard
/// pairs, and the shared seed the component wirings are derived from.
#[derive(Clone, Debug, PartialEq)]
pub struct Config {
    /// Number of rotors.
    pub n_rt: usize,
    /// Plugboard pairs in clear text.
    pub plugboard_pairs: Vec<(char, char)>,
    /// Seed for the derived wirings.
    pub sstk: usize,
}

} // verus!
