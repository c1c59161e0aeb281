//! The letter-alphabet machine: a classic 26-letter variant with
//! notch-driven stepping, built beside the byte-alphabet core.

pub mod common;
pub mod plugboard;
pub mod reflector;
pub mod rotor;
pub mod machine;
