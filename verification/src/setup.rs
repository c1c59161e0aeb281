//! Convenience builders for the byte machine: an identity pipeline
//! with an optional single plugboard swap, and a session state with
//! optionally seed-derived starting positions.

use vstd::prelude::*;
use vstd::arithmetic::power2::pow2;
use crate::machine::EnigmaMachine;
use crate::numerals::{digits_val, numeral_body, parses_within, parse_decimal};
use crate::perm::involutive;
use crate::plugboard::Plugboard;
use crate::reflector::Reflector;
use crate::rotor::Rotor;
use crate::state::EnigmaState;
use crate::stepping::LinearStepping;

verus! {

/// The identity byte table.
pub open spec fn identity_bytes() -> Seq<u8> {
    Seq::new(256, |i: int| i as u8)
}

/// Number of colons in a text from position `i` on.
pub open spec fn count_colons(s: Seq<char>, i: int) -> int
    decreases s.len() - i,
{
    if i < 0 || i >= s.len() {
        0
    } else {
        (if s[i] == ':' {
            1int
        } else {
            0int
        }) + count_colons(s, i + 1)
    }
}

/// Position of the first colon from `i` on, or the length when there
/// is none.
pub open spec fn first_colon(s: Seq<char>, i: int) -> int
    decreases s.len() - i,
{
    if i < 0 || i >= s.len() {
        s.len() as int
    } else if s[i] == ':' {
        i
    } else {
        first_colon(s, i + 1)
    }
}

/// The swap option denotes a byte pair: it holds exactly one colon
/// and both sides are decimal byte values.
pub open spec fn swap_parses(s: Seq<char>) -> bool {
    &&& count_colons(s, 0) == 1
    &&& parses_within(s.take(first_colon(s, 0)), 255)
    &&& parses_within(s.skip(first_colon(s, 0) + 1), 255)
}

/// The plugboard table a swap option builds: the identity, with the
/// two named bytes exchanged when the option holds exactly one colon.
pub open spec fn spec_swap_table(sw: Option<Seq<char>>) -> Seq<u8> {
    match sw {
        Option::None => identity_bytes(),
        Option::Some(s) => {
            if swap_parses(s) {
                let a = digits_val(numeral_body(s.take(first_colon(s, 0))));
                let b = digits_val(numeral_body(s.skip(first_colon(s, 0) + 1)));
                identity_bytes().update(a, b as u8).update(b, a as u8)
            } else {
                identity_bytes()
            }
        },
    }
}

/// Builds the plugboard of the identity pipeline: the identity table,
/// with one swap written over it when the option names a byte pair as
/// `a:b`.
pub fn build_plugboard(swap: Option<String>) -> (r: Plugboard)
    requires
        swap is Some && count_colons(swap->Some_0@, 0) == 1 ==> parses_within(
            swap->Some_0@.take(first_colon(swap->Some_0@, 0)),
            255,
        ) && parses_within(swap->Some_0@.skip(first_colon(swap->Some_0@, 0) + 1), 255),
    ensures
        r.mapping@ == spec_swap_table(match swap {
            Option::Some(s) => Option::Some(s@),
            Option::None => Option::None,
        }),
        r.well_formed(),
{
    let mut mapping: [u8; 256] = [0u8; 256];
    let mut i: usize = 0;
    while i < 256
        invariant
            i <= 256,
            forall|k: int| 0 <= k < i ==> (#[trigger] mapping@[k]) == k as u8,
        decreases 256 - i,
    {
        mapping[i] = i as u8;
        i += 1;
    }
    assert(mapping@ =~= identity_bytes());

    if let Some(s) = &swap {
        let st: &str = s.as_str();
        let n = vstd::string::StrSliceExecFns::unicode_len(st);
        let mut chars: Vec<char> = Vec::new();
        let mut j: usize = 0;
        while j < n
            invariant
                j <= n,
                n == st@.len(),
                chars@ =~= st@.take(j as int),
            decreases n - j,
        {
            chars.push(vstd::string::StrSliceExecFns::get_char(st, j));
            j += 1;
        }
        assert(chars@ =~= st@);

        // Count the colons and locate the first one.
        let mut colons: usize = 0;
        let mut pos: usize = n;
        let mut k: usize = 0;
        while k < n
            invariant
                k <= n,
                n == chars@.len(),
                chars@ == st@,
                colons == count_colons(st@, 0) - count_colons(st@, k as int),
                colons <= k,
                colons == 0 ==> pos == n && (forall|j: int| 0 <= j < k ==> st@[j] != ':'),
                colons >= 1 ==> pos < k && st@[pos as int] == ':' && (forall|j: int|
                    0 <= j < pos ==> st@[j] != ':'),
            decreases n - k,
        {
            proof {
                lemma_colon_prefix(st@, k as int);
            }
            if chars[k] == ':' {
                colons += 1;
                if pos == n && colons == 1 {
                    pos = k;
                }
            }
            k += 1;
        }
        proof {
            assert(count_colons(st@, n as int) == 0);
            if colons >= 1 {
                lemma_first_colon_char(st@, 0, pos as int);
            }
        }

        if colons == 1 {
            let mut left: Vec<char> = Vec::new();
            let mut m: usize = 0;
            while m < pos
                invariant
                    m <= pos,
                    pos < n == chars@.len(),
                    chars@ == st@,
                    left@ =~= st@.take(pos as int).take(m as int),
                decreases pos - m,
            {
                left.push(chars[m]);
                m += 1;
            }
            assert(left@ =~= st@.take(pos as int));
            let mut right: Vec<char> = Vec::new();
            let mut m2: usize = pos + 1;
            while m2 < n
                invariant
                    pos + 1 <= m2 <= n,
                    n == chars@.len(),
                    chars@ == st@,
                    right@ =~= st@.skip(pos as int + 1).take(m2 - pos - 1),
                decreases n - m2,
            {
                right.push(chars[m2]);
                m2 += 1;
            }
            assert(right@ =~= st@.skip(pos as int + 1));

            let a = match parse_decimal(left.as_slice(), 255) {
                Some(x) => x,
                None => {
                    proof {
                        assert(false);
                    }
                    0
                },
            };
            let b = match parse_decimal(right.as_slice(), 255) {
                Some(x) => x,
                None => {
                    proof {
                        assert(false);
                    }
                    0
                },
            };
            mapping[a as usize] = b as u8;
            mapping[b as usize] = a as u8;
        }
    }

    proof {
        lemma_swap_table_involutive(mapping@);
    }
    match Plugboard::new(mapping) {
        Ok(p) => p,
        Err(_) => {
            proof {
                assert(false);
            }
            Plugboard::identity()
        },
    }
}

/// Scanning one position splits the colon count.
proof fn lemma_colon_prefix(s: Seq<char>, k: int)
    requires
        0 <= k < s.len(),
    ensures
        count_colons(s, k) == (if s[k] == ':' {
            1int
        } else {
            0int
        }) + count_colons(s, k + 1),
{
}

/// A colon with no colon before it is the first colon.
proof fn lemma_first_colon_char(s: Seq<char>, i: int, p: int)
    requires
        0 <= i <= p < s.len(),
        s[p] == ':',
        forall|j: int| i <= j < p ==> s[j] != ':',
    ensures
        first_colon(s, i) == p,
    decreases p - i,
{
    if i < p {
        lemma_first_colon_char(s, i + 1, p);
    }
}

/// An identity table with one exchanged pair is an involution.
proof fn lemma_swap_table_involutive(t: Seq<u8>)
    requires
        t.len() == 256,
        ({
            ||| t =~= identity_bytes()
            ||| exists|a: int, b: int|
                0 <= a < 256 && 0 <= b < 256 && t =~= #[trigger] identity_bytes().update(
                    a,
                    b as u8,
                ).update(b, a as u8)
        }),
    ensures
        involutive(t),
{
    if !(t =~= identity_bytes()) {
        let (a, b) = choose|a: int, b: int|
            0 <= a < 256 && 0 <= b < 256 && t =~= #[trigger] identity_bytes().update(
                a,
                b as u8,
            ).update(b, a as u8);
        assert forall|i: int| 0 <= i < 256 implies (#[trigger] t[t[i] as int]) == i as u8 by {
            if i == b {
                assert(t[b] == a as u8);
            } else if i == a {
                assert(t[a] == b as u8 || a == b);
            }
        }
    }
}

/// The rotor positions a seed induces: byte `i` of the seed, counted
/// from the low end, and zero beyond the eighth rotor.
pub open spec fn seeded_position(seed: u64, i: int) -> u32 {
    (((seed as int) / (pow2((8 * i) as nat) as int)) % 256) as u32
}

/// Builds a session state, its starting positions all zero or, when a
/// seed is given, derived byte-wise from the seed.
pub fn build_state(rotors: usize, seed: Option<u64>) -> (r: EnigmaState)
    ensures
        r.rotor_positions@.len() == rotors,
        r.step_counter == 0,
        seed is None ==> forall|i: int| 0 <= i < rotors ==> r.rotor_positions@[i] == 0u32,
        seed matches Some(sd) ==> forall|i: int|
            0 <= i < rotors && i < 8 ==> r.rotor_positions@[i] == seeded_position(sd, i),
        seed matches Some(sd) ==> forall|i: int|
            8 <= i < rotors ==> r.rotor_positions@[i] == 0u32,
{
    let mut state = EnigmaState::new(rotors);
    if let Some(sd) = seed {
        let mut i: usize = 0;
        while i < rotors
            invariant
                i <= rotors,
                state.rotor_positions@.len() == rotors,
                state.step_counter == 0,
                forall|k: int|
                    0 <= k < i && k < 8 ==> (#[trigger] state.rotor_positions@[k])
                        == seeded_position(sd, k),
                forall|k: int| 8 <= k < i ==> (#[trigger] state.rotor_positions@[k]) == 0u32,
                forall|k: int|
                    i <= k < rotors ==> (#[trigger] state.rotor_positions@[k]) == 0u32,
            decreases rotors - i,
        {
            if i < 8 {
                let shift: u64 = (i as u64) * 8;
                let p = ((sd >> shift) & 0xFF) as u32;
                proof {
                    vstd::bits::lemma_u64_shr_is_div(sd, shift);
                    vstd::bits::lemma_u64_low_bits_mask_is_mod(sd >> shift, 8);
                    vstd::bits::lemma_low_bits_mask_values();
                    vstd::arithmetic::power2::lemma_pow2_pos((8 * i) as nat);
                    assert(pow2(8) == 256) by {
                        vstd::arithmetic::power2::lemma2_to64();
                    }
                    assert(p == seeded_position(sd, i as int));
                }
                state.rotor_positions.set(i, p);
            }
            i += 1;
        }
    }
    state
}

/// Builds an identity-wired machine: identity rotors, an identity
/// reflector, the swap-option plugboard and linear stepping with the
/// given modulus.
pub fn build_machine(rotor_count: usize, step_modulus: u32, swap: Option<String>) -> (r:
    EnigmaMachine)
    requires
        rotor_count >= 1,
        swap is Some && count_colons(swap->Some_0@, 0) == 1 ==> parses_within(
            swap->Some_0@.take(first_colon(swap->Some_0@, 0)),
            255,
        ) && parses_within(swap->Some_0@.skip(first_colon(swap->Some_0@, 0) + 1), 255),
    ensures
        r.plugboard.mapping@ == spec_swap_table(match swap {
            Option::Some(s) => Option::Some(s@),
            Option::None => Option::None,
        }),
        r.rotors@.len() == rotor_count,
        forall|i: int|
            0 <= i < rotor_count ==> (#[trigger] r.rotors@[i].index) == i && (forall|j: int|
                0 <= j < 256 ==> r.rotors@[i].forward@[j] == j as u8) && r.rotors@[i].backward@
                == r.rotors@[i].forward@,
        forall|j: int| 0 <= j < 256 ==> (#[trigger] r.reflector.mapping@[j]) == j as u8,
        r.stepping.modulus == step_modulus,
        r.well_formed(),
{
    let plugboard = build_plugboard(swap);

    let mut rotors: Vec<Rotor> = Vec::new();
    let mut i: usize = 0;
    while i < rotor_count
        invariant
            i <= rotor_count,
            rotors@.len() == i,
            forall|k: int| 0 <= k < i ==> (#[trigger] rotors@[k].index) == k,
            forall|k: int| 0 <= k < i ==> (#[trigger] rotors@[k]).well_formed(),
            forall|k: int, j: int|
                0 <= k < i && 0 <= j < 256 ==> (#[trigger] rotors@[k].forward@[j]) == j as u8,
            forall|k: int| 0 <= k < i ==> (#[trigger] rotors@[k]).backward@ == rotors@[k].forward@,
        decreases rotor_count - i,
    {
        let rot = Rotor::identity(i);
        proof {
            assert(rot.backward@ =~= rot.forward@);
        }
        rotors.push(rot);
        i += 1;
    }

    let reflector = Reflector::identity();
    let stepping = LinearStepping::new(step_modulus);

    let ghost rotors_view = rotors@;
    let m = match EnigmaMachine::new(plugboard, rotors, reflector, stepping) {
        Ok(m) => m,
        Err(_) => {
            proof {
                assert(false);
            }
            EnigmaMachine {
                plugboard: Plugboard::identity(),
                rotors: Vec::new(),
                reflector: Reflector::identity(),
                stepping: LinearStepping::new(step_modulus),
            }
        },
    };
    proof {
        assert(m.rotors@ == rotors_view);
        assert forall|i: int| 0 <= i < rotor_count implies (#[trigger] m.rotors@[i]).index == i
            && m.rotors@[i].well_formed() && (forall|j: int|
            0 <= j < 256 ==> m.rotors@[i].forward@[j] == j as u8) && m.rotors@[i].backward@
            == m.rotors@[i].forward@ by {
            assert(m.rotors@[i] == rotors_view[i]);
        }
    }
    m
}

} // verus!
