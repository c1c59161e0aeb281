//! Plugboard: a fixed involutive permutation of the byte alphabet.

use vstd::prelude::*;
use crate::component::EnigmaComponent;
use crate::error::{EnigmaError, EnigmaResult};
use crate::perm::involutive;
use crate::state::EnigmaState;

verus! {

/// Plugboard component.
///
/// It stores a fixed permutation table of 256 bytes that must be an
/// involution (`mapping[mapping[x]] == x`), so the forward and the
/// backward transformation are the same lookup.
pub struct Plugboard {
    /// The involutive substitution table.
    pub mapping: [u8; 256],
}

impl Plugboard {
    /// Well-formedness: the table is an involution.
    pub open spec fn well_formed(&self) -> bool {
        involutive(self.mapping@)
    }

    /// Creates a plugboard from a byte mapping, rejecting with
    /// `InvalidConfiguration` every table that is not an involution.
    pub fn new(mapping: [u8; 256]) -> (r: EnigmaResult<Self>)
        ensures
            r matches Ok(p) ==> p.mapping@ == mapping@ && p.well_formed(),
            r is Ok <==> involutive(mapping@),
            r matches Err(e) ==> (e matches EnigmaError::InvalidConfiguration(m) && m@
                == "plugboard mapping must be symmetric (involution)"@),
    {
        let mut i: usize = 0;
        while i < 256
            invariant
                i <= 256,
                forall|k: int| 0 <= k < i ==> (#[trigger] mapping@[mapping@[k] as int]) == k as u8,
            decreases 256 - i,
        {
            let j = mapping[i] as usize;
            if mapping[j] != i as u8 {
                return Err(EnigmaError::InvalidConfiguration(String::from_str(
                    "plugboard mapping must be symmetric (involution)",
                )));
            }
            i += 1;
        }
        Ok(Plugboard { mapping })
    }

    /// Creates the identity plugboard, which changes nothing.
    pub fn identity() -> (r: Self)
        ensures
            r.mapping@.len() == 256,
            forall|i: int| 0 <= i < 256 ==> (#[trigger] r.mapping@[i]) == i as u8,
            r.well_formed(),
    {
        let mut mapping: [u8; 256] = [0u8; 256];
        let mut i: usize = 0;
        while i < 256
            invariant
                i <= 256,
                mapping@.len() == 256,
                forall|k: int| 0 <= k < i ==> (#[trigger] mapping@[k]) == k as u8,
            decreases 256 - i,
        {
            mapping[i] = i as u8;
            i += 1;
        }
        Plugboard { mapping }
    }
}

impl EnigmaComponent for Plugboard {
    open spec fn wf(&self) -> bool {
        self.well_formed()
    }

    open spec fn spec_forward(&self, input: u8, state: &EnigmaState) -> u8 {
        self.mapping@[input as int]
    }

    open spec fn spec_backward(&self, input: u8, state: &EnigmaState) -> u8 {
        self.mapping@[input as int]
    }

    fn forward(&self, input: u8, _state: &EnigmaState) -> u8 {
        self.mapping[input as usize]
    }

    fn backward(&self, input: u8, _state: &EnigmaState) -> u8 {
        // Identical to forward: the table is an involution.
        self.mapping[input as usize]
    }
}

} // verus!
