//! Error taxonomy for building and running the machine.

use vstd::prelude::*;

verus! {

/// Errors reported while building or running a machine.
///
/// `InvalidConfiguration` marks structural problems caught at
/// construction time; `InvalidState` a mismatch between a session
/// state and the machine shape; `ComponentError` is reserved for
/// stage-level failures; `SteppingError` wraps a failure of the
/// stepping strategy detected at call time.
#[derive(Debug)]
pub enum EnigmaError {
    /// The machine configuration is invalid.
    InvalidConfiguration(String),
    /// The provided state is incompatible with the machine.
    InvalidState(String),
    /// A component failed to process input.
    ComponentError(String),
    /// A stepping strategy failed.
    SteppingError(String),
}

impl EnigmaError {
    /// The error rendered as text: a fixed prefix naming the kind,
    /// followed by the carried message.
    pub fn message(&self) -> (r: String)
        ensures
            self matches EnigmaError::InvalidConfiguration(m) ==> r@ == "invalid configuration: "@
                + m@,
            self matches EnigmaError::InvalidState(m) ==> r@ == "invalid state: "@ + m@,
            self matches EnigmaError::ComponentError(m) ==> r@ == "component error: "@ + m@,
            self matches EnigmaError::SteppingError(m) ==> r@ == "stepping error: "@ + m@,
    {
        match self {
            EnigmaError::InvalidConfiguration(m) => String::from_str(
                "invalid configuration: ",
            ).concat(m.as_str()),
            EnigmaError::InvalidState(m) => String::from_str("invalid state: ").concat(m.as_str()),
            EnigmaError::ComponentError(m) => String::from_str("component error: ").concat(
                m.as_str(),
            ),
            EnigmaError::SteppingError(m) => String::from_str("stepping error: ").concat(
                m.as_str(),
            ),
        }
    }
}

/// Result type used throughout the crate's byte-alphabet core.
pub type EnigmaResult<T> = Result<T, EnigmaError>;

} // verus!
