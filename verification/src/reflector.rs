//! Reflector: a fixed involutive map applied once, between the
//! forward and the backward rotor passes.

use vstd::prelude::*;
use crate::component::EnigmaComponent;
use crate::error::{EnigmaError, EnigmaResult};
use crate::perm::involutive;
use crate::state::EnigmaState;

verus! {

/// Reflector component.
///
/// It stores a fixed involutive table (`mapping[mapping[x]] == x`)
/// and never consults the session state.
pub struct Reflector {
    /// The involutive substitution table.
    pub mapping: [u8; 256],
}

impl Reflector {
    /// Well-formedness: the table is an involution.
    pub open spec fn well_formed(&self) -> bool {
        involutive(self.mapping@)
    }

    /// Creates a reflector from a byte mapping, rejecting with
    /// `InvalidConfiguration` every table that is not an involution.
    pub fn new(mapping: [u8; 256]) -> (r: EnigmaResult<Self>)
        ensures
            r matches Ok(p) ==> p.mapping@ == mapping@ && p.well_formed(),
            r is Ok <==> involutive(mapping@),
            r matches Err(e) ==> (e matches EnigmaError::InvalidConfiguration(m) && m@
                == "reflector mapping must be symmetric (involution)"@),
    {
        let mut i: usize = 0;
        while i < 256
            invariant
                i <= 256,
                forall|k: int| 0 <= k < i ==> (#[trigger] mapping@[mapping@[k] as int]) == k as u8,
            decreases 256 - i,
        {
            let j = mapping[i] as usize;
            if mapping[j] != i as u8 {
                return Err(EnigmaError::InvalidConfiguration(String::from_str(
                    "reflector mapping must be symmetric (involution)",
                )));
            }
            i += 1;
        }
        Ok(Reflector { mapping })
    }

    /// Creates the identity reflector.  With identity rotors and an
    /// identity plugboard it yields a fully transparent pipeline, so
    /// it is mostly useful for testing and debugging.
    pub fn identity() -> (r: Self)
        ensures
            r.mapping@.len() == 256,
            forall|i: int| 0 <= i < 256 ==> (#[trigger] r.mapping@[i]) == i as u8,
            r.well_formed(),
    {
        let mut mapping: [u8; 256] = [0u8; 256];
        let mut i: usize = 0;
        while i < 256
            invariant
                i <= 256,
                forall|k: int| 0 <= k < i ==> (#[trigger] mapping@[k]) == k as u8,
            decreases 256 - i,
        {
            mapping[i] = i as u8;
            i += 1;
        }
        Reflector { mapping }
    }

    /// Creates the fixed adjacent-pair reflector: 0 and 1 swap, 2 and
    /// 3 swap, and so on up to 254 and 255.  The pairing is involutive
    /// by construction and maps no symbol to itself.
    pub fn paired() -> (r: Self)
        ensures
            r.mapping@.len() == 256,
            forall|i: int|
                0 <= i < 256 && i % 2 == 0 ==> (#[trigger] r.mapping@[i]) == (i + 1) as u8,
            forall|i: int|
                0 <= i < 256 && i % 2 == 1 ==> (#[trigger] r.mapping@[i]) == (i - 1) as u8,
            r.well_formed(),
    {
        let mut mapping: [u8; 256] = [0u8; 256];
        let mut i: usize = 0;
        while i < 256
            invariant
                i <= 256,
                i % 2 == 0,
                forall|k: int| 0 <= k < i && k % 2 == 0 ==> (#[trigger] mapping@[k]) == (k + 1) as u8,
                forall|k: int| 0 <= k < i && k % 2 == 1 ==> (#[trigger] mapping@[k]) == (k - 1) as u8,
            decreases 256 - i,
        {
            mapping[i] = (i + 1) as u8;
            mapping[i + 1] = i as u8;
            i += 2;
        }
        Reflector { mapping }
    }
}

impl EnigmaComponent for Reflector {
    open spec fn wf(&self) -> bool {
        self.well_formed()
    }

    open spec fn spec_forward(&self, input: u8, state: &EnigmaState) -> u8 {
        self.mapping@[input as int]
    }

    open spec fn spec_backward(&self, input: u8, state: &EnigmaState) -> u8 {
        self.mapping@[input as int]
    }

    fn forward(&self, input: u8, _state: &EnigmaState) -> u8 {
        self.mapping[input as usize]
    }

    fn backward(&self, input: u8, _state: &EnigmaState) -> u8 {
        // Identical to forward: the table is an involution.
        self.mapping[input as usize]
    }
}

} // verus!
