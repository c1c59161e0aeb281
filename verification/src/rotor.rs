//! Rotor: a position-dependent bijective substitution.
//!
//! The rotor holds a fixed forward table, its precomputed true
//! inverse, and the index of the state slot that carries its current
//! rotational position.  Both transform directions follow the same
//! add-lookup-subtract pattern: offset the input by the position,
//! look the offset symbol up, then remove the offset again, so the
//! effective permutation changes with the position while the wiring
//! stays fixed.

use vstd::prelude::*;
use vstd::arithmetic::div_mod::{lemma_add_mod_noop, lemma_sub_mod_noop, lemma_small_mod};
use crate::component::EnigmaComponent;
use crate::error::{EnigmaError, EnigmaResult};
use crate::perm::{injective, inverse_tables, lemma_injective_surjective};
use crate::state::EnigmaState;

verus! {

/// The position a rotor reads from the state: the slot at its own
/// index, or zero when that slot does not exist.  The machine checks
/// the state shape before any rotor runs, so the fallback is
/// unreachable from the machine's own pipeline.
pub open spec fn spec_position(positions: Seq<u32>, index: int) -> u32 {
    if 0 <= index < positions.len() {
        positions[index]
    } else {
        0u32
    }
}

/// Add-lookup-subtract through a table: offset the input by the
/// position, look it up, remove the offset (all modulo 256).
pub open spec fn offset_lookup(t: Seq<u8>, pos: u32, x: u8) -> u8
    recommends
        t.len() == 256,
{
    let p = pos as int % 256;
    let shifted = (x as int + p) % 256;
    let mapped = t[shifted] as int;
    ((mapped - p) % 256) as u8
}

/// On mutually inverse tables, the two offset lookups undo each
/// other, whatever the position.
pub proof fn lemma_offset_lookup_inverse(f: Seq<u8>, b: Seq<u8>, pos: u32, x: u8)
    requires
        inverse_tables(f, b),
    ensures
        offset_lookup(b, pos, offset_lookup(f, pos, x)) == x,
        offset_lookup(f, pos, offset_lookup(b, pos, x)) == x,
{
    lemma_offset_lookup_inverse_one(f, b, pos, x);
    lemma_offset_lookup_inverse_one(b, f, pos, x);
}

proof fn lemma_offset_lookup_inverse_one(f: Seq<u8>, b: Seq<u8>, pos: u32, x: u8)
    requires
        inverse_tables(f, b),
    ensures
        offset_lookup(b, pos, offset_lookup(f, pos, x)) == x,
{
    let p = pos as int % 256;
    let shifted = (x as int + p) % 256;
    let mapped = f[shifted] as int;
    let y = ((mapped - p) % 256) as u8;
    // Re-adding the offset recovers the raw table output.
    lemma_add_mod_noop(mapped - p, p, 256);
    lemma_small_mod(mapped as nat, 256);
    assert((y as int + p) % 256 == mapped);
    // The inverse table takes that output back to the shifted input.
    assert(b[mapped] == shifted as u8);
    // Removing the offset recovers the original symbol.
    lemma_sub_mod_noop(x as int + p, p, 256);
    lemma_small_mod(x as nat, 256);
    assert((shifted - p) % 256 == x as int);
}

/// A simple permutation-based rotor over the byte alphabet.
pub struct Rotor {
    /// Forward permutation table.
    pub forward: [u8; 256],
    /// Reverse permutation table: the true inverse of `forward`.
    pub backward: [u8; 256],
    /// Index of this rotor's slot in the state's position vector.
    pub index: usize,
}

impl Rotor {
    /// Well-formedness: the two tables are mutual inverses, which
    /// makes the forward table a bijection.
    pub open spec fn well_formed(&self) -> bool {
        inverse_tables(self.forward@, self.backward@)
    }

    /// Forward transform as a function of the state's position vector.
    pub open spec fn spec_fwd(&self, positions: Seq<u32>, x: u8) -> u8 {
        offset_lookup(self.forward@, spec_position(positions, self.index as int), x)
    }

    /// Backward transform as a function of the state's position vector.
    pub open spec fn spec_bwd(&self, positions: Seq<u32>, x: u8) -> u8 {
        offset_lookup(self.backward@, spec_position(positions, self.index as int), x)
    }

    /// Builds the inverse of a table, or reports `None` when the
    /// table repeats a value and so cannot be inverted.
    fn invert(forward: &[u8; 256]) -> (r: Option<[u8; 256]>)
        ensures
            r is Some <==> injective(forward@),
            r matches Some(b) ==> inverse_tables(forward@, b@),
    {
        let mut backward: [u8; 256] = [0u8; 256];
        let mut seen: [bool; 256] = [false; 256];
        let mut i: usize = 0;
        while i < 256
            invariant
                i <= 256,
                backward@.len() == 256,
                seen@.len() == 256,
                forall|v: int|
                    0 <= v < 256 ==> ((#[trigger] seen@[v]) <==> exists|k: int|
                        0 <= k < i && forward@[k] == v as u8),
                forall|k: int|
                    0 <= k < i ==> (#[trigger] backward@[forward@[k] as int]) == k as u8,
                forall|k1: int, k2: int|
                    0 <= k1 < i && 0 <= k2 < i && k1 != k2 ==> forward@[k1] != forward@[k2],
            decreases 256 - i,
        {
            let v = forward[i] as usize;
            if seen[v] {
                proof {
                    let k = choose|k: int| 0 <= k < i && forward@[k] == v as u8;
                    assert(forward@[k] == forward@[i as int]);
                }
                return None;
            }
            seen[v] = true;
            backward[v] = i as u8;
            i += 1;
        }
        proof {
            lemma_injective_surjective(forward@);
            assert forall|j: int| 0 <= j < 256 implies (#[trigger] forward@[backward@[j] as int])
                == j as u8 by {
                assert(forward@.contains(j as u8));
                let k = choose|k: int| 0 <= k < forward@.len() && forward@[k] == j as u8;
                assert(backward@[forward@[k] as int] == k as u8);
            }
        }
        Some(backward)
    }

    /// Creates a rotor from a permutation table and a state-slot
    /// index, rejecting with `InvalidConfiguration` every table that
    /// is not bijective.
    pub fn new(permutation: [u8; 256], index: usize) -> (r: EnigmaResult<Self>)
        ensures
            r is Ok <==> injective(permutation@),
            r matches Ok(rot) ==> rot.forward@ == permutation@ && rot.index == index
                && rot.well_formed(),
            r matches Err(e) ==> (e matches EnigmaError::InvalidConfiguration(m) && m@
                == "rotor permutation must be bijective"@),
    {
        match Self::invert(&permutation) {
            Some(backward) => Ok(Rotor { forward: permutation, backward, index }),
            None => Err(EnigmaError::InvalidConfiguration(String::from_str(
                "rotor permutation must be bijective",
            ))),
        }
    }

    /// Creates an identity rotor: the wiring changes nothing, though
    /// the position offset still cancels out.
    pub fn identity(index: usize) -> (r: Self)
        ensures
            forall|i: int| 0 <= i < 256 ==> (#[trigger] r.forward@[i]) == i as u8,
            forall|i: int| 0 <= i < 256 ==> (#[trigger] r.backward@[i]) == i as u8,
            r.index == index,
            r.well_formed(),
    {
        let mut perm: [u8; 256] = [0u8; 256];
        let mut i: usize = 0;
        while i < 256
            invariant
                i <= 256,
                forall|k: int| 0 <= k < i ==> (#[trigger] perm@[k]) == k as u8,
            decreases 256 - i,
        {
            perm[i] = i as u8;
            i += 1;
        }
        Rotor { forward: perm, backward: perm, index }
    }

    /// Creates a rotor whose wiring rotates every byte by a fixed
    /// shift (modulo 256).
    pub fn shifted(index: usize, shift: u8) -> (r: Self)
        ensures
            forall|i: int|
                0 <= i < 256 ==> (#[trigger] r.forward@[i]) == ((i + shift) % 256) as u8,
            forall|j: int|
                0 <= j < 256 ==> (#[trigger] r.backward@[j]) == ((j - shift) % 256) as u8,
            r.index == index,
            r.well_formed(),
    {
        let mut forward: [u8; 256] = [0u8; 256];
        let mut backward: [u8; 256] = [0u8; 256];
        let mut i: usize = 0;
        while i < 256
            invariant
                i <= 256,
                forall|k: int|
                    0 <= k < i ==> (#[trigger] forward@[k]) == ((k + shift) % 256) as u8,
                forall|k: int|
                    0 <= k < i ==> (#[trigger] backward@[((k + shift) % 256) as int]) == k as u8,
            decreases 256 - i,
        {
            let v = i as u8;
            let shifted = v.wrapping_add(shift);
            forward[i] = shifted;
            backward[shifted as usize] = v;
            proof {
                assert(shifted == ((i + shift) % 256) as u8);
                assert forall|k: int|
                    0 <= k < i + 1 implies (#[trigger] backward@[((k + shift) % 256) as int])
                        == k as u8 by {
                    if k < i {
                        assert(((k + shift) % 256) != ((i + shift) % 256)) by {
                            lemma_sub_mod_noop(k + shift, i + shift, 256);
                        }
                    }
                }
            }
            i += 1;
        }
        proof {
            assert forall|j: int| 0 <= j < 256 implies (#[trigger] backward@[j])
                == ((j - shift) % 256) as u8 by {
                let k = (j - shift) % 256;
                lemma_add_mod_noop(j - shift, shift as int, 256);
                lemma_small_mod(j as nat, 256);
                assert((k + shift) % 256 == j);
            }
            assert forall|i: int| 0 <= i < 256 implies (#[trigger] backward@[forward@[i] as int])
                == i as u8 by {
                let v = (i + shift) % 256;
                lemma_sub_mod_noop(i + shift, shift as int, 256);
                lemma_small_mod(i as nat, 256);
                assert((v - shift) % 256 == i);
            }
            assert forall|j: int| 0 <= j < 256 implies (#[trigger] forward@[backward@[j] as int])
                == j as u8 by {
                let k = (j - shift) % 256;
                lemma_add_mod_noop(j - shift, shift as int, 256);
                lemma_small_mod(j as nat, 256);
                assert((k + shift) % 256 == j);
            }
        }
        Rotor { forward, backward, index }
    }
}

/// One step of the linear congruential generator used for seeded
/// wirings: deterministic, implementation-defined pseudo-randomness,
/// not a general-purpose generator.
pub open spec fn lcg_next_spec(s: u32) -> u32 {
    vstd::wrapping::u32_specs::wrapping_add(
        vstd::wrapping::u32_specs::wrapping_mul(s, 1664525u32),
        1013904223u32,
    )
}

/// The identity wiring: every byte maps to itself.
pub open spec fn identity_table() -> Seq<u8> {
    Seq::new(256, |i: int| i as u8)
}

/// State of the seeded shuffle after the swaps at positions
/// `255, 254, ..., i + 1` have run: the wiring built so far and the
/// generator state.  `i == 255` is the start, `i == 0` the result.
pub open spec fn shuffle_from(t: Seq<u8>, rng: u32, i: int) -> (Seq<u8>, u32)
    decreases i,
{
    if i <= 0 {
        (t, rng)
    } else {
        let r2 = lcg_next_spec(rng);
        let j = r2 as int % (i + 1);
        let t2 = t.update(i, t[j]).update(j, t[i]);
        shuffle_from(t2, r2, i - 1)
    }
}

/// Generator state a rotor starts from: the seed combined with the
/// rotor index scaled by a golden-ratio constant, so each rotor in a
/// bank gets an independent but reproducible wiring from one shared
/// seed.
pub open spec fn seeded_rng(seed: u64, index: usize) -> u32 {
    let s = (seed % 0x1_0000_0000) as u32;
    let x = ((index as int) % 0x1_0000_0000) as u32;
    vstd::wrapping::u32_specs::wrapping_add(
        s,
        vstd::wrapping::u32_specs::wrapping_mul(x, 0x9E3779B9u32),
    )
}

/// The forward wiring that `Rotor::from_seed` produces for a given
/// seed and rotor index.
pub open spec fn seeded_forward_table(seed: u64, index: usize) -> Seq<u8> {
    shuffle_from(identity_table(), seeded_rng(seed, index), 255).0
}

/// Advances the linear congruential generator and returns its new
/// state.
fn lcg_next(state: &mut u32) -> (r: u32)
    ensures
        *final(state) == lcg_next_spec(*old(state)),
        r == *final(state),
{
    *state = state.wrapping_mul(1664525).wrapping_add(1013904223);
    *state
}

/// Swapping two entries of an injective table keeps it injective.
proof fn lemma_swap_injective(t: Seq<u8>, i: int, j: int)
    requires
        injective(t),
        0 <= i < 256,
        0 <= j < 256,
    ensures
        injective(t.update(i, t[j]).update(j, t[i])),
{
    let t2 = t.update(i, t[j]).update(j, t[i]);
    assert forall|k1: int, k2: int|
        0 <= k1 < 256 && 0 <= k2 < 256 && k1 != k2 implies t2[k1] != t2[k2] by {
        let m1: int = if k1 == i { j } else if k1 == j { i } else { k1 };
        let m2: int = if k2 == i { j } else if k2 == j { i } else { k2 };
        assert(t2[k1] == t[m1]);
        assert(t2[k2] == t[m2]);
        assert(m1 != m2);
    }
}

impl Rotor {
    /// Creates a rotor whose wiring is a seed-derived permutation:
    /// a Fisher-Yates shuffle of the identity wiring driven by the
    /// linear congruential generator, fully determined by the seed
    /// and the rotor index.
    pub fn from_seed(index: usize, seed: u64) -> (r: Self)
        ensures
            r.forward@ == seeded_forward_table(seed, index),
            r.index == index,
            r.well_formed(),
    {
        let mut forward: [u8; 256] = [0u8; 256];
        let mut k: usize = 0;
        while k < 256
            invariant
                k <= 256,
                forall|m: int| 0 <= m < k ==> (#[trigger] forward@[m]) == m as u8,
            decreases 256 - k,
        {
            forward[k] = k as u8;
            k += 1;
        }
        assert(forward@ =~= identity_table());

        let seed32: u32 = (seed % 0x1_0000_0000u64) as u32;
        let idx32: u32 = ((index as u64) % 0x1_0000_0000u64) as u32;
        let mut rng: u32 = seed32.wrapping_add(idx32.wrapping_mul(0x9E3779B9));
        assert(rng == seeded_rng(seed, index));

        let ghost target = shuffle_from(identity_table(), seeded_rng(seed, index), 255);
        let mut i: usize = 255;
        while i >= 1
            invariant
                i <= 255,
                forward@.len() == 256,
                injective(forward@),
                shuffle_from(forward@, rng, i as int) == target,
            decreases i,
        {
            let ghost t_before = forward@;
            let ghost rng_before = rng;
            let r2 = lcg_next(&mut rng);
            let j = (r2 % (i as u32 + 1)) as usize;
            let ti = forward[i];
            let tj = forward[j];
            forward[i] = tj;
            forward[j] = ti;
            proof {
                assert(j as int == r2 as int % (i as int + 1));
                assert(forward@ =~= t_before.update(i as int, t_before[j as int]).update(
                    j as int,
                    t_before[i as int],
                ));
                lemma_swap_injective(t_before, i as int, j as int);
            }
            i -= 1;
        }
        proof {
            assert(shuffle_from(forward@, rng, 0) == (forward@, rng));
            assert(forward@ == seeded_forward_table(seed, index));
        }

        let backward = match Self::invert(&forward) {
            Some(b) => b,
            None => {
                proof {
                    assert(false);
                }
                [0u8; 256]
            },
        };
        Rotor { forward, backward, index }
    }
}

impl EnigmaComponent for Rotor {
    open spec fn wf(&self) -> bool {
        self.well_formed()
    }

    open spec fn spec_forward(&self, input: u8, state: &EnigmaState) -> u8 {
        self.spec_fwd(state.rotor_positions@, input)
    }

    open spec fn spec_backward(&self, input: u8, state: &EnigmaState) -> u8 {
        self.spec_bwd(state.rotor_positions@, input)
    }

    fn forward(&self, input: u8, state: &EnigmaState) -> (r: u8)
        ensures
            r == self.spec_forward(input, state),
    {
        let pos = self.position_or_zero(state);
        let p8 = (pos % 256) as u8;
        let shifted = input.wrapping_add(p8);
        let mapped = self.forward[shifted as usize];
        let r = mapped.wrapping_sub(p8);
        proof {
            lemma_offset_arith(self.forward@, pos, input);
        }
        r
    }

    fn backward(&self, input: u8, state: &EnigmaState) -> (r: u8)
        ensures
            r == self.spec_backward(input, state),
    {
        let pos = self.position_or_zero(state);
        let p8 = (pos % 256) as u8;
        let shifted = input.wrapping_add(p8);
        let mapped = self.backward[shifted as usize];
        let r = mapped.wrapping_sub(p8);
        proof {
            lemma_offset_arith(self.backward@, pos, input);
        }
        r
    }
}

impl Rotor {
    /// Reads this rotor's position from the state, or zero when its
    /// slot does not exist.
    fn position_or_zero(&self, state: &EnigmaState) -> (r: u32)
        ensures
            r == spec_position(state.rotor_positions@, self.index as int),
    {
        if self.index < state.rotor_positions.len() {
            state.rotor_positions[self.index]
        } else {
            0
        }
    }
}

/// The executable add-lookup-subtract steps compute `offset_lookup`.
proof fn lemma_offset_arith(t: Seq<u8>, pos: u32, x: u8)
    requires
        t.len() == 256,
    ensures
        ({
            let p8 = (pos % 256) as u8;
            let shifted = vstd::wrapping::u8_specs::wrapping_add(x, p8);
            let mapped = t[shifted as int];
            vstd::wrapping::u8_specs::wrapping_sub(mapped, p8) == offset_lookup(t, pos, x)
        }),
{
    let p = pos as int % 256;
    let p8 = (pos % 256) as u8;
    assert(p8 as int == p);
    let shifted = vstd::wrapping::u8_specs::wrapping_add(x, p8);
    assert(shifted as int == (x as int + p) % 256) by {
        if x as int + p > 255 {
            lemma_mod_shift_down(x as int + p);
        } else {
            lemma_small_mod((x as int + p) as nat, 256);
        }
    }
    let mapped = t[shifted as int];
    let out = vstd::wrapping::u8_specs::wrapping_sub(mapped, p8);
    assert(out as int == (mapped as int - p) % 256) by {
        if mapped as int - p < 0 {
            lemma_mod_shift_up(mapped as int - p);
        } else {
            lemma_small_mod((mapped as int - p) as nat, 256);
        }
    }
}

/// For `256 <= a < 512`, `a % 256 == a - 256`.
proof fn lemma_mod_shift_down(a: int)
    requires
        256 <= a < 512,
    ensures
        a % 256 == a - 256,
{
    lemma_small_mod((a - 256) as nat, 256);
    lemma_add_mod_noop(a - 256, 256, 256);
}

/// For `-256 <= a < 0`, `a % 256 == a + 256`.
proof fn lemma_mod_shift_up(a: int)
    requires
        -256 <= a < 0,
    ensures
        a % 256 == a + 256,
{
    lemma_small_mod((a + 256) as nat, 256);
    lemma_sub_mod_noop(a + 256, 256, 256);
    lemma_small_mod(0nat, 256);
}

} // verus!
