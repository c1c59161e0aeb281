//! The machine: wires plugboard, rotor bank, reflector and stepping
//! strategy into one transformation pipeline.
//!
//! The machine itself is immutable; all mutable data lives in the
//! caller-owned [`EnigmaState`].

use vstd::prelude::*;
use crate::component::EnigmaComponent;
use crate::error::{EnigmaError, EnigmaResult};
use crate::plugboard::Plugboard;
use crate::reflector::Reflector;
use crate::rotor::Rotor;
use crate::state::EnigmaState;
use crate::stepping::{spec_step, LinearStepping, SteppingStrategy};

verus! {

/// Core transformation machine: one plugboard, an ordered rotor bank,
/// one reflector and one stepping strategy.
pub struct EnigmaMachine {
    /// Applied once before and once after the rotor/reflector stage.
    pub plugboard: Plugboard,
    /// The rotor bank, ordered left to right.
    pub rotors: Vec<Rotor>,
    /// Applied once, between the forward and the backward rotor pass.
    pub reflector: Reflector,
    /// Advances the state after each processed symbol.
    pub stepping: LinearStepping,
}

impl EnigmaMachine {
    /// Well-formedness: every stage has valid tables and there is at
    /// least one rotor.
    pub open spec fn well_formed(&self) -> bool {
        &&& self.plugboard.well_formed()
        &&& self.reflector.well_formed()
        &&& self.rotors@.len() >= 1
        &&& forall|i: int|
            0 <= i < self.rotors@.len() ==> (#[trigger] self.rotors@[i]).well_formed()
    }

    /// The forward rotor pass over rotors `i, i + 1, ..., len - 1`,
    /// in that order.
    pub open spec fn fwd_pass(rotors: Seq<Rotor>, positions: Seq<u32>, i: int, x: u8) -> u8
        decreases rotors.len() - i,
    {
        if i < 0 || i >= rotors.len() {
            x
        } else {
            Self::fwd_pass(rotors, positions, i + 1, rotors[i].spec_fwd(positions, x))
        }
    }

    /// The backward rotor pass over rotors `len - 1, ..., i`, the
    /// highest index first.
    pub open spec fn bwd_pass(rotors: Seq<Rotor>, positions: Seq<u32>, i: int, x: u8) -> u8
        decreases rotors.len() - i,
    {
        if i < 0 || i >= rotors.len() {
            x
        } else {
            rotors[i].spec_bwd(positions, Self::bwd_pass(rotors, positions, i + 1, x))
        }
    }

    /// The full signal path for one symbol at the given rotor
    /// positions: plugboard, rotors forward, reflector, rotors
    /// backward in reverse order, plugboard again.
    pub open spec fn spec_output(&self, positions: Seq<u32>, input: u8) -> u8 {
        let a = self.plugboard.mapping@[input as int];
        let b = Self::fwd_pass(self.rotors@, positions, 0, a);
        let c = self.reflector.mapping@[b as int];
        let d = Self::bwd_pass(self.rotors@, positions, 0, c);
        self.plugboard.mapping@[d as int]
    }

    /// The rotor positions after `k` processed symbols.  Stepping
    /// depends only on the positions, never on the symbols, so the
    /// position sequence of a session is fixed in advance.
    pub open spec fn positions_after(&self, positions: Seq<u32>, k: int) -> Seq<u32>
        decreases k,
    {
        if k <= 0 {
            positions
        } else {
            spec_step(self.positions_after(positions, k - 1), self.stepping.modulus)
        }
    }

    /// Stepping preserves the number of positions.
    pub proof fn lemma_positions_after_len(&self, positions: Seq<u32>, k: int)
        requires
            k >= 0,
        ensures
            self.positions_after(positions, k).len() == positions.len(),
        decreases k,
    {
        if k > 0 {
            self.lemma_positions_after_len(positions, k - 1);
            crate::stepping::lemma_carry_len(
                self.positions_after(positions, k - 1),
                self.stepping.modulus,
                0,
            );
        }
    }

    /// Creates a machine from its stages, rejecting an empty rotor
    /// bank with `InvalidConfiguration`.
    pub fn new(
        plugboard: Plugboard,
        rotors: Vec<Rotor>,
        reflector: Reflector,
        stepping: LinearStepping,
    ) -> (r: EnigmaResult<Self>)
        ensures
            r is Ok <==> rotors@.len() > 0,
            r matches Ok(m) ==> m.plugboard == plugboard && m.rotors@ == rotors@
                && m.reflector == reflector && m.stepping == stepping,
            r matches Err(e) ==> (e matches EnigmaError::InvalidConfiguration(msg) && msg@
                == "at least one rotor is required"@),
    {
        if rotors.len() == 0 {
            return Err(EnigmaError::InvalidConfiguration(String::from_str(
                "at least one rotor is required",
            )));
        }
        Ok(EnigmaMachine { plugboard, rotors, reflector, stepping })
    }

    /// Processes a single byte through the pipeline, then advances the
    /// state by one step.
    ///
    /// The emitted symbol reflects the rotor positions before the
    /// step; the step prepares the state for the next symbol.  On any
    /// error the state is left untouched.
    pub fn process_byte(&self, input: u8, state: &mut EnigmaState) -> (r: EnigmaResult<u8>)
        requires
            self.well_formed(),
            old(state).step_counter < u64::MAX,
        ensures
            r is Ok <==> (old(state).rotor_positions@.len() == self.rotors@.len()
                && self.stepping.modulus != 0),
            r matches Ok(v) ==> v == self.spec_output(old(state).rotor_positions@, input)
                && final(state).rotor_positions@ == spec_step(
                old(state).rotor_positions@,
                self.stepping.modulus,
            ) && final(state).step_counter == old(state).step_counter + 1,
            r is Err ==> final(state).rotor_positions@ == old(state).rotor_positions@
                && final(state).step_counter == old(state).step_counter,
            old(state).rotor_positions@.len() != self.rotors@.len() ==> (r matches Err(e)
                && e matches EnigmaError::InvalidState(msg) && msg@
                == "rotor position count does not match rotor count"@),
            old(state).rotor_positions@.len() == self.rotors@.len() && self.stepping.modulus == 0
                ==> (r matches Err(e) && e matches EnigmaError::SteppingError(msg) && msg@
                == "modulus must be greater than zero"@),
    {
        if state.rotor_positions.len() != self.rotors.len() {
            return Err(EnigmaError::InvalidState(String::from_str(
                "rotor position count does not match rotor count",
            )));
        }

        let ghost positions = state.rotor_positions@;

        // Forward pass.
        let mut value = self.plugboard.forward(input, state);
        let ghost a = value;
        let n = self.rotors.len();
        let mut i: usize = 0;
        while i < n
            invariant
                i <= n,
                n == self.rotors@.len(),
                self.well_formed(),
                state.rotor_positions@ == positions,
                state.step_counter == old(state).step_counter,
                Self::fwd_pass(self.rotors@, positions, i as int, value) == Self::fwd_pass(
                    self.rotors@,
                    positions,
                    0,
                    a,
                ),
            decreases n - i,
        {
            value = self.rotors[i].forward(value, state);
            i += 1;
        }
        assert(value == Self::fwd_pass(self.rotors@, positions, 0, a));

        // Reflect.
        value = self.reflector.forward(value, state);
        let ghost c = value;

        // Backward pass, in reverse rotor order.
        let mut j: usize = n;
        while j > 0
            invariant
                j <= n,
                n == self.rotors@.len(),
                self.well_formed(),
                state.rotor_positions@ == positions,
                state.step_counter == old(state).step_counter,
                value == Self::bwd_pass(self.rotors@, positions, j as int, c),
            decreases j,
        {
            j -= 1;
            value = self.rotors[j].backward(value, state);
        }

        value = self.plugboard.backward(value, state);
        assert(value == self.spec_output(positions, input));

        // Step the state only after a fully successful pass.
        match self.stepping.step(state) {
            Ok(()) => Ok(value),
            Err(e) => Err(EnigmaError::SteppingError(e)),
        }
    }

    /// Processes a slice of bytes, applying `process_byte` to each in
    /// turn and propagating the first error.
    ///
    /// An error can only arise at the first symbol (the checked
    /// conditions do not change while a call runs), so a failed call
    /// returns no partial output and leaves the state untouched; an
    /// empty input always succeeds without touching the state.
    #[verifier::loop_isolation(false)]
    pub fn process_bytes(&self, input: &[u8], state: &mut EnigmaState) -> (r: EnigmaResult<
        Vec<u8>,
    >)
        requires
            self.well_formed(),
            old(state).step_counter + input@.len() <= u64::MAX,
        ensures
            r is Ok <==> (input@.len() == 0 || (old(state).rotor_positions@.len()
                == self.rotors@.len() && self.stepping.modulus != 0)),
            r matches Ok(out) ==> out@.len() == input@.len() && (forall|k: int|
                0 <= k < input@.len() ==> out_matches(
                    self,
                    old(state).rotor_positions@,
                    input@,
                    out@,
                    k,
                )) && final(state).rotor_positions@ == self.positions_after(
                old(state).rotor_positions@,
                input@.len() as int,
            ) && final(state).step_counter == old(state).step_counter + input@.len(),
            r is Err ==> final(state).rotor_positions@ == old(state).rotor_positions@
                && final(state).step_counter == old(state).step_counter,
            input@.len() > 0 && old(state).rotor_positions@.len() != self.rotors@.len() ==> (r
                matches Err(e) && e matches EnigmaError::InvalidState(msg) && msg@
                == "rotor position count does not match rotor count"@),
            input@.len() > 0 && old(state).rotor_positions@.len() == self.rotors@.len()
                && self.stepping.modulus == 0 ==> (r matches Err(e) && e matches
                EnigmaError::SteppingError(msg) && msg@ == "modulus must be greater than zero"@),
    {
        let mut output: Vec<u8> = Vec::new();
        let ghost positions = old(state).rotor_positions@;
        let len = input.len();
        let mut k: usize = 0;
        while k < len
            invariant
                k <= len,
                len == input@.len(),
                self.well_formed(),
                old(state).step_counter + len <= u64::MAX,
                output@.len() == k,
                state.rotor_positions@ == self.positions_after(positions, k as int),
                state.rotor_positions@.len() == positions.len(),
                state.step_counter == old(state).step_counter + k,
                k > 0 ==> positions.len() == self.rotors@.len() && self.stepping.modulus != 0,
                forall|m: int|
                    0 <= m < k ==> out_matches(self, positions, input@, output@, m),
            decreases len - k,
        {
            let b = input[k];
            let ghost out_before = output@;
            match self.process_byte(b, state) {
                Ok(v) => {
                    output.push(v);
                },
                Err(e) => {
                    proof {
                        assert(state.rotor_positions@.len() == positions.len());
                        if k > 0 {
                            assert(false);
                        }
                        assert(k == 0);
                        assert(state.rotor_positions@ == positions);
                        assert(state.step_counter == old(state).step_counter);
                        assert(!(positions.len() == self.rotors@.len()
                            && self.stepping.modulus != 0));
                    }
                    return Err(e);
                },
            }
            proof {
                self.lemma_positions_after_len(positions, k + 1);
                assert forall|m: int|
                    0 <= m < k + 1 implies out_matches(self, positions, input@, output@, m) by {
                    if m < k {
                        assert(out_matches(self, positions, input@, out_before, m));
                        assert(output@[m] == out_before[m]);
                    } else {
                        assert(output@[m] == self.spec_output(
                            self.positions_after(positions, k as int),
                            input@[k as int],
                        ));
                    }
                }
            }
            k += 1;
        }
        Ok(output)
    }
}

/// Output symbol `m` of a run is the signal path applied at the
/// positions reached after `m` steps.
pub open spec fn out_matches(
    m: &EnigmaMachine,
    positions: Seq<u32>,
    input: Seq<u8>,
    output: Seq<u8>,
    k: int,
) -> bool {
    output[k] == m.spec_output(m.positions_after(positions, k), input[k])
}

} // verus!
