//! The laws of the pipeline, stated and proved once for all
//! configurations: involution of the fixed stages, rotor
//! invertibility, the per-symbol and whole-sequence round trip,
//! position progression, and determinism of identically configured
//! machines.

use vstd::prelude::*;
use vstd::arithmetic::div_mod::{lemma_mod_division_less_than_divisor, lemma_small_mod};
use crate::machine::{out_matches, EnigmaMachine};
use crate::perm::involutive;
use crate::rotor::{lemma_offset_lookup_inverse, Rotor};
use crate::stepping::spec_step;

verus! {

/// Involution: a well-formed plugboard or reflector table returns to
/// the start when followed twice.
pub proof fn lemma_table_involution(t: Seq<u8>, x: u8)
    requires
        involutive(t),
    ensures
        t[t[x as int] as int] == x,
{
}

/// Rotor invertibility: on a well-formed rotor the backward transform
/// undoes the forward transform (and the other way round), for every
/// symbol and every position vector.
pub proof fn lemma_rotor_invertible(rot: Rotor, positions: Seq<u32>, x: u8)
    requires
        rot.well_formed(),
    ensures
        rot.spec_bwd(positions, rot.spec_fwd(positions, x)) == x,
        rot.spec_fwd(positions, rot.spec_bwd(positions, x)) == x,
{
    let pos = crate::rotor::spec_position(positions, rot.index as int);
    lemma_offset_lookup_inverse(rot.forward@, rot.backward@, pos, x);
}

/// The forward pass from rotor `i` undoes the backward pass from
/// rotor `i` and the other way round.
proof fn lemma_passes_inverse(rotors: Seq<Rotor>, positions: Seq<u32>, i: int, x: u8)
    requires
        forall|k: int| 0 <= k < rotors.len() ==> (#[trigger] rotors[k]).well_formed(),
        0 <= i,
    ensures
        EnigmaMachine::fwd_pass(rotors, positions, i, EnigmaMachine::bwd_pass(
            rotors,
            positions,
            i,
            x,
        )) == x,
        EnigmaMachine::bwd_pass(rotors, positions, i, EnigmaMachine::fwd_pass(
            rotors,
            positions,
            i,
            x,
        )) == x,
    decreases rotors.len() - i,
{
    if i < rotors.len() {
        let rot = rotors[i];
        // Forward undoes backward: the backward pass applies this
        // rotor last, the forward pass strips it first.
        let inner = EnigmaMachine::bwd_pass(rotors, positions, i + 1, x);
        lemma_rotor_invertible(rot, positions, inner);
        lemma_passes_inverse(rotors, positions, i + 1, x);
        // Backward undoes forward: the forward pass applies this
        // rotor first, the backward pass strips it last.
        let pushed = rot.spec_fwd(positions, x);
        lemma_passes_inverse(rotors, positions, i + 1, pushed);
        lemma_rotor_invertible(rot, positions, x);
    }
}

/// Per-symbol round trip: at fixed rotor positions the signal path is
/// an involution, so running a symbol through the machine twice
/// returns the original symbol.
pub proof fn lemma_output_involutive(m: &EnigmaMachine, positions: Seq<u32>, x: u8)
    requires
        m.well_formed(),
    ensures
        m.spec_output(positions, m.spec_output(positions, x)) == x,
{
    let plug = m.plugboard.mapping@;
    let refl = m.reflector.mapping@;
    let a = plug[x as int];
    let b = EnigmaMachine::fwd_pass(m.rotors@, positions, 0, a);
    let c = refl[b as int];
    let d = EnigmaMachine::bwd_pass(m.rotors@, positions, 0, c);
    let y = plug[d as int];

    // The second pass unwinds the first, stage by stage.
    lemma_table_involution(plug, d);
    lemma_passes_inverse(m.rotors@, positions, 0, c);
    lemma_table_involution(refl, b);
    lemma_passes_inverse(m.rotors@, positions, 0, a);
    lemma_table_involution(plug, x);
}

/// Whole-sequence round trip: a run of the machine over a ciphertext,
/// started from the same initial rotor positions as the run that
/// produced it, reproduces the plaintext.  The two output clauses are
/// exactly the shape `process_bytes` ensures, so the law applies to
/// any pair of runs of the executable machine.
pub proof fn lemma_round_trip(
    m: &EnigmaMachine,
    positions: Seq<u32>,
    plain: Seq<u8>,
    cipher: Seq<u8>,
    decoded: Seq<u8>,
)
    requires
        m.well_formed(),
        cipher.len() == plain.len(),
        decoded.len() == plain.len(),
        forall|k: int| 0 <= k < plain.len() ==> out_matches(m, positions, plain, cipher, k),
        forall|k: int| 0 <= k < plain.len() ==> out_matches(m, positions, cipher, decoded, k),
    ensures
        decoded =~= plain,
{
    assert forall|k: int| 0 <= k < plain.len() implies decoded[k] == plain[k] by {
        assert(out_matches(m, positions, plain, cipher, k));
        assert(out_matches(m, positions, cipher, decoded, k));
        lemma_output_involutive(m, m.positions_after(positions, k), plain[k]);
    }
}

/// Stepping progression: with a single rotor and a nonzero modulus
/// `mo`, the rotor position after `k` processed symbols is `k % mo`.
/// Together with the step-counter clause of `process_byte` this is
/// the stepping-monotonicity law.
pub proof fn lemma_single_rotor_progression(m: &EnigmaMachine, k: int)
    requires
        m.stepping.modulus > 0,
        k >= 0,
    ensures
        m.positions_after(seq![0u32], k) =~= seq![(k % (m.stepping.modulus as int)) as u32],
    decreases k,
{
    let mo = m.stepping.modulus as int;
    if k == 0 {
        lemma_small_mod(0nat, mo as nat);
    } else {
        lemma_single_rotor_progression(m, k - 1);
        let prev = m.positions_after(seq![0u32], k - 1);
        let p = ((k - 1) % mo) as u32;
        assert(prev =~= seq![p]);
        lemma_mod_division_less_than_divisor(k - 1, mo);
        if p + 1 < mo {
            assert(spec_step(prev, m.stepping.modulus) =~= seq![(p + 1) as u32]);
            assert((k % mo) == p + 1) by {
                lemma_mod_succ(k - 1, mo);
            }
        } else {
            // The position wraps and the carry leaves the vector.
            assert(prev.update(0, 0u32) =~= seq![0u32]);
            assert(spec_step(prev, m.stepping.modulus) == crate::stepping::spec_carry(
                seq![0u32],
                m.stepping.modulus,
                1,
            ));
            assert(spec_step(prev, m.stepping.modulus) =~= seq![0u32]);
            assert((k % mo) == 0) by {
                lemma_mod_succ(k - 1, mo);
            }
        }
    }
}

/// Carry propagation: with two rotors and a nonzero modulus `mo`,
/// after `k` processed symbols the first position is `k % mo` and the
/// second `(k / mo) % mo` — the second rotor turns exactly when the
/// first wraps, like an odometer.
pub proof fn lemma_two_rotor_progression(m: &EnigmaMachine, k: int)
    requires
        m.stepping.modulus > 0,
        k >= 0,
    ensures
        m.positions_after(seq![0u32, 0u32], k) =~= seq![
            (k % (m.stepping.modulus as int)) as u32,
            ((k / (m.stepping.modulus as int)) % (m.stepping.modulus as int)) as u32,
        ],
    decreases k,
{
    let mo = m.stepping.modulus as int;
    if k == 0 {
        lemma_small_mod(0nat, mo as nat);
        vstd::arithmetic::div_mod::lemma_basic_div(0, mo);
    } else {
        lemma_two_rotor_progression(m, k - 1);
        let a = ((k - 1) % mo) as u32;
        let b = (((k - 1) / mo) % mo) as u32;
        let prev = m.positions_after(seq![0u32, 0u32], k - 1);
        assert(prev =~= seq![a, b]);
        let q = (k - 1) / mo;
        vstd::arithmetic::div_mod::lemma_fundamental_div_mod(k - 1, mo);
        lemma_mod_division_less_than_divisor(k - 1, mo);
        lemma_mod_division_less_than_divisor(q, mo);
        vstd::arithmetic::div_mod::lemma_div_pos_is_pos(k - 1, mo);
        if a + 1 < mo {
            // The first rotor absorbs the step.
            assert(spec_step(prev, m.stepping.modulus) =~= seq![(a + 1) as u32, b]);
            vstd::arithmetic::div_mod::lemma_fundamental_div_mod_converse(k, mo, q, a + 1);
        } else {
            // The first rotor wraps and carries into the second.
            assert(prev.update(0, 0u32) =~= seq![0u32, b]);
            assert(spec_step(prev, m.stepping.modulus) == crate::stepping::spec_carry(
                seq![0u32, b],
                m.stepping.modulus,
                1,
            ));
            assert((q + 1) * mo == q * mo + mo) by (nonlinear_arith);
            vstd::arithmetic::div_mod::lemma_fundamental_div_mod_converse(k, mo, q + 1, 0);
            lemma_mod_succ(q, mo);
            if b + 1 < mo {
                assert(crate::stepping::spec_carry(seq![0u32, b], m.stepping.modulus, 1)
                    =~= seq![0u32, (b + 1) as u32]);
            } else {
                assert(seq![0u32, b].update(1, 0u32) =~= seq![0u32, 0u32]);
                assert(crate::stepping::spec_carry(seq![0u32, b], m.stepping.modulus, 1)
                    == crate::stepping::spec_carry(seq![0u32, 0u32], m.stepping.modulus, 2));
                assert(crate::stepping::spec_carry(seq![0u32, 0u32], m.stepping.modulus, 2)
                    =~= seq![0u32, 0u32]);
            }
        }
    }
}

/// `(a + 1) % m` either increments `a % m` or wraps it to zero.
proof fn lemma_mod_succ(a: int, m: int)
    requires
        a >= 0,
        m > 0,
    ensures
        a % m + 1 < m ==> (a + 1) % m == a % m + 1,
        a % m + 1 == m ==> (a + 1) % m == 0,
{
    vstd::arithmetic::div_mod::lemma_add_mod_noop(a, 1, m);
    lemma_mod_division_less_than_divisor(a, m);
    if a % m + 1 < m {
        lemma_small_mod(1nat, m as nat);
        lemma_small_mod((a % m + 1) as nat, m as nat);
    } else {
        if m == 1 {
            lemma_small_mod(0nat, 1nat);
            vstd::arithmetic::div_mod::lemma_mod_self_0(1);
            assert((a + 1) % 1 == 0) by {
                vstd::arithmetic::div_mod::lemma_mod_twice(a + 1, 1);
                lemma_mod_division_less_than_divisor(a + 1, 1);
            }
        } else {
            lemma_small_mod(1nat, m as nat);
            vstd::arithmetic::div_mod::lemma_mod_self_0(m);
        }
    }
}

/// Determinism: two machines whose stages carry the same tables, the
/// same rotor slots and the same stepping modulus follow the same
/// position progression and emit the same output for the same input
/// and state, however each machine was built.
pub proof fn lemma_identical_machines_agree(m1: &EnigmaMachine, m2: &EnigmaMachine)
    requires
        m1.plugboard.mapping@ == m2.plugboard.mapping@,
        m1.reflector.mapping@ == m2.reflector.mapping@,
        m1.stepping.modulus == m2.stepping.modulus,
        m1.rotors@.len() == m2.rotors@.len(),
        forall|i: int|
            0 <= i < m1.rotors@.len() ==> (#[trigger] m1.rotors@[i]).forward@
                == m2.rotors@[i].forward@ && m1.rotors@[i].backward@ == m2.rotors@[i].backward@
                && m1.rotors@[i].index == m2.rotors@[i].index,
    ensures
        forall|positions: Seq<u32>, x: u8|
            #[trigger] m1.spec_output(positions, x) == m2.spec_output(positions, x),
        forall|positions: Seq<u32>, k: int|
            #[trigger] m1.positions_after(positions, k) == m2.positions_after(positions, k),
{
    broadcast use vstd::array::group_array_axioms;

    assert forall|i: int| 0 <= i < m1.rotors@.len() implies m1.rotors@[i] == m2.rotors@[i] by {
        let r1 = m1.rotors@[i];
        let r2 = m2.rotors@[i];
        assert(r1.forward@ =~= r2.forward@);
        assert(r1.backward@ =~= r2.backward@);
        assert(r1.forward == r2.forward);
        assert(r1.backward == r2.backward);
    }
    assert(m1.rotors@ =~= m2.rotors@);
    assert(m1.plugboard.mapping == m2.plugboard.mapping);
    assert(m1.reflector.mapping == m2.reflector.mapping);
    assert forall|positions: Seq<u32>, k: int| #[trigger] m1.positions_after(positions, k)
        == m2.positions_after(positions, k) by {
        lemma_positions_after_congruent(m1, m2, positions, k);
    }
}

/// Machines with the same rotor bank and modulus step identically.
proof fn lemma_positions_after_congruent(
    m1: &EnigmaMachine,
    m2: &EnigmaMachine,
    positions: Seq<u32>,
    k: int,
)
    requires
        m1.stepping.modulus == m2.stepping.modulus,
    ensures
        m1.positions_after(positions, k) == m2.positions_after(positions, k),
    decreases k,
{
    if k > 0 {
        lemma_positions_after_congruent(m1, m2, positions, k - 1);
    }
}

/// A fully transparent pipeline: with identity tables everywhere the
/// machine emits each input symbol unchanged, whatever the rotor
/// positions.
pub proof fn lemma_identity_transparent(m: &EnigmaMachine, positions: Seq<u32>, x: u8)
    requires
        forall|i: int| 0 <= i < 256 ==> (#[trigger] m.plugboard.mapping@[i]) == i as u8,
        forall|i: int| 0 <= i < 256 ==> (#[trigger] m.reflector.mapping@[i]) == i as u8,
        m.plugboard.mapping@.len() == 256,
        m.reflector.mapping@.len() == 256,
        forall|i: int, j: int|
            0 <= i < m.rotors@.len() && 0 <= j < 256 ==> (#[trigger] m.rotors@[i].forward@[j])
                == j as u8,
        forall|i: int| 0 <= i < m.rotors@.len() ==> (#[trigger] m.rotors@[i]).forward@.len() == 256
            && m.rotors@[i].backward@ == m.rotors@[i].forward@,
    ensures
        m.spec_output(positions, x) == x,
{
    lemma_identity_pass(m.rotors@, positions, 0, x);
    lemma_identity_pass(m.rotors@, positions, 0, x);
    let a = m.plugboard.mapping@[x as int];
    assert(a == x);
    let b = EnigmaMachine::fwd_pass(m.rotors@, positions, 0, a);
    lemma_identity_pass(m.rotors@, positions, 0, a);
    let c = m.reflector.mapping@[b as int];
    lemma_identity_pass(m.rotors@, positions, 0, c);
}

/// Both passes over identity rotors leave the symbol unchanged.
proof fn lemma_identity_pass(rotors: Seq<Rotor>, positions: Seq<u32>, i: int, x: u8)
    requires
        0 <= i,
        forall|k: int, j: int|
            0 <= k < rotors.len() && 0 <= j < 256 ==> (#[trigger] rotors[k].forward@[j]) == j as u8,
        forall|k: int| 0 <= k < rotors.len() ==> (#[trigger] rotors[k]).forward@.len() == 256
            && rotors[k].backward@ == rotors[k].forward@,
    ensures
        EnigmaMachine::fwd_pass(rotors, positions, i, x) == x,
        EnigmaMachine::bwd_pass(rotors, positions, i, x) == x,
    decreases rotors.len() - i,
{
    if i < rotors.len() {
        lemma_identity_lookup(rotors[i], positions, x);
        lemma_identity_pass(rotors, positions, i + 1, x);
        let y = EnigmaMachine::bwd_pass(rotors, positions, i + 1, x);
        lemma_identity_lookup(rotors[i], positions, y);
    }
}

/// One identity rotor leaves the symbol unchanged: the offset is
/// added, looked up through the identity, then removed again.
proof fn lemma_identity_lookup(rot: Rotor, positions: Seq<u32>, x: u8)
    requires
        rot.forward@.len() == 256,
        forall|j: int| 0 <= j < 256 ==> (#[trigger] rot.forward@[j]) == j as u8,
        rot.backward@ == rot.forward@,
    ensures
        rot.spec_fwd(positions, x) == x,
        rot.spec_bwd(positions, x) == x,
{
    let pos = crate::rotor::spec_position(positions, rot.index as int);
    let p = pos as int % 256;
    let shifted = (x as int + p) % 256;
    vstd::arithmetic::div_mod::lemma_mod_division_less_than_divisor(x as int + p, 256);
    assert(rot.forward@[shifted] == shifted as u8);
    vstd::arithmetic::div_mod::lemma_sub_mod_noop(x as int + p, p, 256);
    lemma_small_mod(x as nat, 256);
}

} // verus!
