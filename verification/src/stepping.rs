//! Stepping strategies: how the session state advances after each
//! processed symbol.

use vstd::prelude::*;
use crate::state::EnigmaState;

verus! {

/// Odometer-style carry over the position vector with the given
/// modulus, starting at slot `i`: the slot is incremented; if it
/// reaches the modulus it wraps to zero and the carry moves one slot
/// to the right, until a slot absorbs the carry or every slot has
/// been visited.
pub open spec fn spec_carry(positions: Seq<u32>, modulus: u32, i: int) -> Seq<u32>
    decreases positions.len() - i,
{
    if i < 0 || i >= positions.len() {
        positions
    } else if positions[i] + 1 < modulus {
        positions.update(i, (positions[i] + 1) as u32)
    } else {
        spec_carry(positions.update(i, 0u32), modulus, i + 1)
    }
}

/// One linear step of the whole position vector.
pub open spec fn spec_step(positions: Seq<u32>, modulus: u32) -> Seq<u32> {
    spec_carry(positions, modulus, 0)
}

/// The carry never changes how many positions there are.
pub proof fn lemma_carry_len(positions: Seq<u32>, modulus: u32, i: int)
    ensures
        spec_carry(positions, modulus, i).len() == positions.len(),
    decreases positions.len() - i,
{
    if 0 <= i < positions.len() && !(positions[i] + 1 < modulus) {
        lemma_carry_len(positions.update(i, 0u32), modulus, i + 1);
    }
}

/// Strategy that controls how the session state advances.
///
/// Implementations must mutate only the provided state, say exactly
/// when they succeed, and leave the state untouched when they fail.
pub trait SteppingStrategy {
    /// When the strategy accepts a position vector.
    spec fn step_ok(&self, positions: Seq<u32>) -> bool;

    /// The position vector after one successful step.
    spec fn stepped(&self, positions: Seq<u32>) -> Seq<u32>;

    /// The message reported when a position vector is rejected.
    spec fn step_err_msg(&self, positions: Seq<u32>) -> Seq<char>;

    /// Advances the state by one step; called exactly once after each
    /// processed symbol.
    fn step(&self, state: &mut EnigmaState) -> (r: Result<(), String>)
        requires
            old(state).step_counter < u64::MAX,
        ensures
            r is Ok <==> self.step_ok(old(state).rotor_positions@),
            r is Ok ==> final(state).rotor_positions@ == self.stepped(
                old(state).rotor_positions@,
            ) && final(state).step_counter == old(state).step_counter + 1,
            r is Err ==> final(state).rotor_positions@ == old(state).rotor_positions@
                && final(state).step_counter == old(state).step_counter,
            r matches Err(m) ==> m@ == self.step_err_msg(old(state).rotor_positions@),
    ;
}

/// A simple linear stepping strategy: each call increments the step
/// counter and propagates an odometer carry through the rotor
/// positions, the first rotor turning on every symbol and later
/// rotors only on overflow of all preceding ones.
pub struct LinearStepping {
    /// Modulus applied to each rotor position.
    pub modulus: u32,
}

impl LinearStepping {
    /// Creates a linear stepping strategy.  A zero modulus is
    /// accepted here and rejected lazily, at stepping time.
    pub fn new(modulus: u32) -> (r: Self)
        ensures
            r.modulus == modulus,
    {
        LinearStepping { modulus }
    }
}

impl SteppingStrategy for LinearStepping {
    open spec fn step_ok(&self, positions: Seq<u32>) -> bool {
        self.modulus != 0 && positions.len() > 0
    }

    open spec fn stepped(&self, positions: Seq<u32>) -> Seq<u32> {
        spec_step(positions, self.modulus)
    }

    open spec fn step_err_msg(&self, positions: Seq<u32>) -> Seq<char> {
        if self.modulus == 0 {
            "modulus must be greater than zero"@
        } else {
            "no rotors defined in state"@
        }
    }

    fn step(&self, state: &mut EnigmaState) -> (r: Result<(), String>) {
        if self.modulus == 0 {
            return Err(String::from_str("modulus must be greater than zero"));
        }
        if state.rotor_positions.len() == 0 {
            return Err(String::from_str("no rotors defined in state"));
        }

        state.step_counter = state.step_counter + 1;

        let ghost start = state.rotor_positions@;
        let n = state.rotor_positions.len();
        let mut i: usize = 0;
        let mut done = false;
        while i < n && !done
            invariant
                i <= n,
                self.modulus != 0,
                state.rotor_positions@.len() == n,
                state.step_counter == old(state).step_counter + 1,
                if done {
                    state.rotor_positions@ == spec_carry(start, self.modulus, 0)
                } else {
                    spec_carry(state.rotor_positions@, self.modulus, i as int) == spec_carry(
                        start,
                        self.modulus,
                        0,
                    )
                },
                !done ==> forall|k: int|
                    0 <= k < i ==> (#[trigger] state.rotor_positions@[k]) == 0u32,
            decreases n - i + (if done { 0int } else { 1int }),
        {
            let p = state.rotor_positions[i];
            if p < self.modulus - 1 {
                state.rotor_positions.set(i, p + 1);
                done = true;
                proof {
                    assert(state.rotor_positions@ == spec_carry(start, self.modulus, 0));
                }
            } else {
                state.rotor_positions.set(i, 0);
                i += 1;
            }
        }
        proof {
            if !done {
                assert(i == n);
                assert(spec_carry(state.rotor_positions@, self.modulus, n as int)
                    == state.rotor_positions@);
            }
        }
        Ok(())
    }
}

} // verus!
