//! An Enigma-inspired, configurable symbol-substitution pipeline.
//!
//! The machine composes a plugboard, an ordered bank of rotors and a
//! reflector into a forward/reflect/backward signal path over a byte
//! alphabet, with odometer-style stepping held in an explicit,
//! caller-owned state object.  No cryptographic strength is claimed:
//! the point of the crate is the verified architecture, not security.

pub mod alphabet;
pub mod codec;
pub mod component;
pub mod config;
pub mod dates;
pub mod envelope;
pub mod error;
pub mod laws;
pub mod letters;
pub mod machine;
pub mod modes;
pub mod numerals;
pub mod perm;
pub mod plugboard;
pub mod reflector;
pub mod rng;
pub mod rotor;
pub mod setup;
pub mod state;
pub mod stepping;
pub mod text;

pub use error::{EnigmaError, EnigmaResult};
pub use state::EnigmaState;
pub use component::EnigmaComponent;
pub use machine::EnigmaMachine;
pub use plugboard::Plugboard;
pub use reflector::Reflector;
pub use rotor::Rotor;
pub use stepping::{LinearStepping, SteppingStrategy};
