//! The transformation-stage capability shared by all pipeline elements.

use vstd::prelude::*;
use crate::state::EnigmaState;

verus! {

/// Trait implemented by every transformation stage of the pipeline
/// (plugboard, rotor, reflector).
///
/// A stage transforms one symbol in the forward or in the backward
/// direction.  Stages are pure: the output depends only on the input
/// symbol, the passed-in state and the stage's own immutable
/// configuration, as the two specification functions express.
pub trait EnigmaComponent {
    /// Structural well-formedness of the stage's own tables.
    spec fn wf(&self) -> bool;

    /// Mathematical meaning of `forward`.
    spec fn spec_forward(&self, input: u8, state: &EnigmaState) -> u8;

    /// Mathematical meaning of `backward`.
    spec fn spec_backward(&self, input: u8, state: &EnigmaState) -> u8;

    /// Transform a symbol in the forward direction.
    fn forward(&self, input: u8, state: &EnigmaState) -> (r: u8)
        requires
            self.wf(),
        ensures
            r == self.spec_forward(input, state),
    ;

    /// Transform a symbol in the backward direction.
    fn backward(&self, input: u8, state: &EnigmaState) -> (r: u8)
        requires
            self.wf(),
        ensures
            r == self.spec_backward(input, state),
    ;
}

} // verus!
