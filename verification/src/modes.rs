//! The configurable builder of the byte machine: rotor and reflector
//! generation modes selected by name.

use vstd::prelude::*;
use crate::machine::EnigmaMachine;
use crate::numerals::parses_within;
use crate::rotor::{seeded_forward_table, Rotor};
use crate::reflector::Reflector;
use crate::setup::{build_plugboard, count_colons, first_colon, spec_swap_table};
use crate::stepping::LinearStepping;

verus! {

/// Builds a machine from its configuration: `rotor_mode` picks
/// identity, shifted (by thirteen) or seed-derived rotor wirings;
/// `reflector_mode` picks the identity or the adjacent-pair
/// reflector; the swap option shapes the plugboard; the modulus
/// drives linear stepping.
#[verifier::rlimit(50)]
pub fn build_machine(
    rotor_count: usize,
    step_modulus: u32,
    swap: Option<String>,
    rotor_mode: String,
    reflector_mode: String,
    seed: Option<u64>,
) -> (r: EnigmaMachine)
    requires
        rotor_count >= 1,
        swap is Some && count_colons(swap->Some_0@, 0) == 1 ==> parses_within(
            swap->Some_0@.take(first_colon(swap->Some_0@, 0)),
            255,
        ) && parses_within(swap->Some_0@.skip(first_colon(swap->Some_0@, 0) + 1), 255),
        rotor_mode@ == "identity"@ || rotor_mode@ == "shifted"@ || rotor_mode@ == "seed"@,
        reflector_mode@ == "identity"@ || reflector_mode@ == "paired"@,
        rotor_mode@ == "seed"@ ==> seed is Some,
    ensures
        r.plugboard.mapping@ == spec_swap_table(match swap {
            Option::Some(s) => Option::Some(s@),
            Option::None => Option::None,
        }),
        r.rotors@.len() == rotor_count,
        forall|i: int| 0 <= i < rotor_count ==> (#[trigger] r.rotors@[i].index) == i,
        rotor_mode@ == "identity"@ ==> forall|i: int, j: int|
            0 <= i < rotor_count && 0 <= j < 256 ==> (#[trigger] r.rotors@[i].forward@[j])
                == j as u8 && r.rotors@[i].backward@ == r.rotors@[i].forward@,
        rotor_mode@ == "shifted"@ ==> forall|i: int, j: int|
            0 <= i < rotor_count && 0 <= j < 256 ==> (#[trigger] r.rotors@[i].forward@[j]) == ((j
                + 13) % 256) as u8 && r.rotors@[i].backward@[j] == ((j - 13) % 256) as u8,
        rotor_mode@ == "seed"@ ==> forall|i: int|
            0 <= i < rotor_count ==> (#[trigger] r.rotors@[i].forward@) == seeded_forward_table(
                seed->Some_0,
                i as usize,
            ),
        reflector_mode@ == "identity"@ ==> forall|j: int|
            0 <= j < 256 ==> (#[trigger] r.reflector.mapping@[j]) == j as u8,
        reflector_mode@ == "paired"@ ==> forall|j: int|
            0 <= j < 256 ==> (#[trigger] r.reflector.mapping@[j]) == (if j % 2 == 0 {
                (j + 1) as u8
            } else {
                (j - 1) as u8
            }),
        r.stepping.modulus == step_modulus,
        r.well_formed(),
{
    proof {
        reveal_strlit("identity");
        reveal_strlit("shifted");
        reveal_strlit("seed");
        reveal_strlit("paired");
        assert("identity"@.len() == 8 && "shifted"@.len() == 7 && "seed"@.len() == 4
            && "paired"@.len() == 6);
    }
    let plugboard = build_plugboard(swap);

    let ident_mode = String::from_str("identity");
    let shifted_mode = String::from_str("shifted");

    let mut rotors: Vec<Rotor> = Vec::new();
    let rotors_identity = rotor_mode == ident_mode;
    let rotors_shifted = rotor_mode == shifted_mode;
    proof {
        assert(rotors_identity == (rotor_mode@ == "identity"@));
        assert(rotors_shifted == (rotor_mode@ == "shifted"@));
        assert(!rotors_identity && !rotors_shifted ==> rotor_mode@ == "seed"@);
    }
    let seeded = !rotors_identity && !rotors_shifted;
    let mut i: usize = 0;
    while i < rotor_count
        invariant
            i <= rotor_count,
            rotors@.len() == i,
            seeded == (!rotors_identity && !rotors_shifted),
            seeded ==> seed is Some,
            forall|k: int|
                0 <= k < i ==> (#[trigger] rotors@[k].index) == k && rotors@[k].well_formed(),
            rotors_identity ==> forall|k: int, j: int|
                0 <= k < i && 0 <= j < 256 ==> (#[trigger] rotors@[k].forward@[j]) == j as u8
                    && rotors@[k].backward@ == rotors@[k].forward@,
            !rotors_identity && rotors_shifted ==> forall|k: int, j: int|
                0 <= k < i && 0 <= j < 256 ==> (#[trigger] rotors@[k].forward@[j]) == ((j + 13)
                    % 256) as u8 && rotors@[k].backward@[j] == ((j - 13) % 256) as u8,
            seeded ==> forall|k: int|
                0 <= k < i ==> (#[trigger] rotors@[k].forward@) == seeded_forward_table(
                    seed->Some_0,
                    k as usize,
                ),
        decreases rotor_count - i,
    {
        if rotors_identity {
            let rot = Rotor::identity(i);
            proof {
                assert(rot.backward@ =~= rot.forward@);
            }
            rotors.push(rot);
        } else if rotors_shifted {
            rotors.push(Rotor::shifted(i, 13));
        } else {
            let sd = match seed {
                Some(sd) => sd,
                None => {
                    proof {
                        assert(false);
                    }
                    0
                },
            };
            rotors.push(Rotor::from_seed(i, sd));
        }
        i += 1;
    }

    let refl_identity = reflector_mode == ident_mode;
    let reflector = if refl_identity {
        Reflector::identity()
    } else {
        Reflector::paired()
    };
    proof {
        if !refl_identity {
            assert forall|j: int| 0 <= j < 256 implies (#[trigger] reflector.mapping@[j]) == (if j
                % 2 == 0 {
                (j + 1) as u8
            } else {
                (j - 1) as u8
            }) by {}
        }
    }

    let stepping = LinearStepping::new(step_modulus);

    let ghost rotors_view = rotors@;
    let m = match EnigmaMachine::new(plugboard, rotors, reflector, stepping) {
        Ok(m) => m,
        Err(_) => {
            proof {
                assert(false);
            }
            EnigmaMachine {
                plugboard: crate::plugboard::Plugboard::identity(),
                rotors: Vec::new(),
                reflector: Reflector::identity(),
                stepping: LinearStepping::new(step_modulus),
            }
        },
    };
    proof {
        assert(m.rotors@ == rotors_view);
        assert forall|i: int| 0 <= i < rotor_count implies (#[trigger] m.rotors@[i])
            == rotors_view[i] by {}
        assert forall|i: int| 0 <= i < rotor_count implies (#[trigger] m.rotors@[i]).well_formed()
            by {
            assert(rotors_view[i].index == i);
        }
    }
    m
}

} // verus!
