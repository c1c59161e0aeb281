//! Explicit, caller-owned session state for the transformation pipeline.

use vstd::prelude::*;

verus! {

/// Mutable state of one transformation session: the current rotor
/// positions (one counter per rotor, left to right) and a step counter
/// that advances once per processed symbol.
///
/// The state is owned by the caller and only borrowed by the machine
/// for the duration of a single call.
pub struct EnigmaState {
    /// Current positions of the rotors, ordered from left to right.
    pub rotor_positions: Vec<u32>,
    /// Number of symbols processed so far in this session.
    pub step_counter: u64,
}

impl EnigmaState {
    /// Creates a state for `rotor_count` rotors, all at position zero.
    pub fn new(rotor_count: usize) -> (s: Self)
        ensures
            s.rotor_positions@.len() == rotor_count,
            forall|i: int| 0 <= i < rotor_count ==> s.rotor_positions@[i] == 0u32,
            s.step_counter == 0,
    {
        let mut positions: Vec<u32> = Vec::new();
        let mut i: usize = 0;
        while i < rotor_count
            invariant
                i <= rotor_count,
                positions@.len() == i,
                forall|j: int| 0 <= j < i ==> positions@[j] == 0u32,
            decreases rotor_count - i,
        {
            positions.push(0);
            i += 1;
        }
        EnigmaState { rotor_positions: positions, step_counter: 0 }
    }

    /// Resets every rotor position and the step counter to zero,
    /// keeping the rotor count.
    pub fn reset(&mut self)
        ensures
            final(self).rotor_positions@.len() == old(self).rotor_positions@.len(),
            forall|i: int|
                0 <= i < final(self).rotor_positions@.len()
                    ==> final(self).rotor_positions@[i] == 0u32,
            final(self).step_counter == 0,
    {
        let n = self.rotor_positions.len();
        let mut i: usize = 0;
        while i < n
            invariant
                i <= n,
                self.rotor_positions@.len() == n,
                forall|j: int| 0 <= j < i ==> self.rotor_positions@[j] == 0u32,
            decreases n - i,
        {
            self.rotor_positions.set(i, 0);
            i += 1;
        }
        self.step_counter = 0;
    }
}

} // verus!
