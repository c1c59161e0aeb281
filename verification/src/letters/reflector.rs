//! Letter reflector: redirects the signal back through the rotors.

use vstd::prelude::*;
use vstd::string::{StrSliceExecFns, StringSliceAdditionalSpecFns};
use crate::letters::common::{
    all_upper, build_inverse, byte_of, index_of, is_upper, reverse_of, spec_index_of,
};
use crate::rng::{is_alphabet_permutation, shuffle_alphabet, shuffled_alphabet};

verus! {

/// The pairing table a shuffled alphabet induces: adjacent letters of
/// the shuffle point at each other, written over a table of blanks,
/// pair by pair.
pub open spec fn apply_refl_pairs(t: Seq<char>, alpha: Seq<char>, k: int) -> Seq<char>
    recommends
        t.len() == 26,
        is_alphabet_permutation(alpha),
    decreases 13 - k,
{
    if k < 0 || k >= 13 {
        t
    } else {
        let a = alpha[2 * k];
        let b = alpha[2 * k + 1];
        apply_refl_pairs(
            t.update(spec_index_of(a), b).update(spec_index_of(b), a),
            alpha,
            k + 1,
        )
    }
}

/// The full seeded pairing table of a shuffled alphabet.
pub open spec fn seeded_refl_table(alpha: Seq<char>) -> Seq<char> {
    apply_refl_pairs(Seq::new(26, |i: int| ' '), alpha, 0)
}

/// The seeded pairing maps each letter of an adjacent pair of the
/// shuffle to the other, so following the table twice returns the
/// start.
pub proof fn lemma_seeded_table_involutive(alpha: Seq<char>)
    requires
        is_alphabet_permutation(alpha),
    ensures
        crate::letters::plugboard::letters_involutive(seeded_refl_table(alpha)),
{
    let t = seeded_refl_table(alpha);
    lemma_refl_pairs_written(alpha, 0, Seq::new(26, |i: int| ' '));
    // Every letter is some element of the shuffle, so every slot is
    // paired.
    assert forall|k: int| 0 <= k < 26 implies is_upper(#[trigger] t[k])
        && t[spec_index_of(t[k])] == crate::letters::common::spec_letter_at(k) by {
        let c = crate::letters::common::spec_letter_at(k);
        crate::letters::common::lemma_letter_index(k);
        assert(alpha.contains(c));
        let j = choose|j: int| 0 <= j < alpha.len() && alpha[j] == c;
        let p = if j % 2 == 0 {
            alpha[j + 1]
        } else {
            alpha[j - 1]
        };
        assert(t[spec_index_of(c)] == p && t[spec_index_of(p)] == c);
    }
}

/// After all thirteen pairs are written, each letter's slot holds its
/// pair partner: the neighbour it shares an adjacent pair of the
/// shuffle with.
proof fn lemma_refl_pairs_written(alpha: Seq<char>, k: int, t: Seq<char>)
    requires
        is_alphabet_permutation(alpha),
        0 <= k <= 13,
        t.len() == 26,
        forall|j: int|
            0 <= j < 2 * k ==> t[spec_index_of(#[trigger] alpha[j])] == (if j % 2 == 0 {
                alpha[j + 1]
            } else {
                alpha[j - 1]
            }),
    ensures
        forall|j: int|
            0 <= j < 26 ==> apply_refl_pairs(t, alpha, k)[spec_index_of(#[trigger] alpha[j])]
                == (if j % 2 == 0 {
                alpha[j + 1]
            } else {
                alpha[j - 1]
            }),
        apply_refl_pairs(t, alpha, k).len() == 26,
    decreases 13 - k,
{
    if k < 13 {
        let a = alpha[2 * k];
        let b = alpha[2 * k + 1];
        let t2 = t.update(spec_index_of(a), b).update(spec_index_of(b), a);
        assert forall|j: int|
            0 <= j < 2 * (k + 1) implies t2[spec_index_of(#[trigger] alpha[j])] == (if j % 2
            == 0 {
            alpha[j + 1]
        } else {
            alpha[j - 1]
        }) by {
            if j < 2 * k {
                // Distinct letters use distinct slots, so the fresh
                // pair leaves the old writes alone.
                assert(alpha[j] != a && alpha[j] != b);
            }
        }
        lemma_refl_pairs_written(alpha, k + 1, t2);
    }
}

/// The table a seeded reflector stores is an involution: the seeded
/// pairing is its own inverse, so inverting it stores it unchanged.
pub proof fn lemma_seeded_reflector_involutive(alpha: Seq<char>)
    requires
        is_alphabet_permutation(alpha),
    ensures
        reverse_of(seeded_refl_table(alpha)) == seeded_refl_table(alpha),
        crate::letters::plugboard::letters_involutive(reverse_of(seeded_refl_table(alpha))),
{
    lemma_seeded_table_involutive(alpha);
    lemma_reverse_of_involution(seeded_refl_table(alpha));
}

/// Inverting an involutive letter table returns the same table.
pub proof fn lemma_reverse_of_involution(t: Seq<char>)
    requires
        crate::letters::plugboard::letters_involutive(t),
    ensures
        reverse_of(t) == t,
{
    // An involution is injective: two slots with the same letter
    // would fold back to the same source letter.
    assert forall|m1: int, m2: int|
        0 <= m1 < 26 && 0 <= m2 < 26 && m1 != m2 implies t[m1] != t[m2] by {
        if t[m1] == t[m2] {
            assert(t[spec_index_of(t[m1])] == crate::letters::common::spec_letter_at(m1));
            assert(t[spec_index_of(t[m2])] == crate::letters::common::spec_letter_at(m2));
            crate::letters::common::lemma_letter_index(m1);
            crate::letters::common::lemma_letter_index(m2);
        }
    }
    let base = Seq::new(26, |i: int| 'A');
    crate::letters::common::lemma_invert_writes(t, 0, base);
    assert forall|j: int| 0 <= j < 26 implies reverse_of(t)[j] == t[j] by {
        // The slot of letter j is written while the inversion scans
        // the slot its partner sits in.
        let c = crate::letters::common::spec_letter_at(j);
        crate::letters::common::lemma_letter_index(j);
        let m = spec_index_of(t[j]);
        assert(t[m] == c);
        assert(spec_index_of(t[m]) == j);
        assert(reverse_of(t)[j] == crate::letters::common::spec_letter_at(m));
        crate::letters::common::lemma_letter_index(m);
        assert(spec_index_of(crate::letters::common::spec_letter_at(m)) == spec_index_of(t[j]));
    }
    assert(reverse_of(t) =~= t);
}

/// Letter reflector component.
#[derive(Debug, PartialEq)]
pub struct Reflector {
    /// The reflection table indexed by letter.
    pub mapping: [char; 26],
}

impl Reflector {
    /// Well-formedness: a full table of uppercase letters.
    pub open spec fn well_formed(&self) -> bool {
        self.mapping@.len() == 26 && all_upper(self.mapping@)
    }

    /// Creates a reflector from an explicit 26-character wiring, or,
    /// when a seed is given, from a seeded pairing of the whole
    /// alphabet (the explicit wiring is then ignored).  The stored
    /// table is the inverse of the wiring; a seeded pairing is its own
    /// inverse, so it is stored as built.
    pub fn new(wiring: Option<&str>, seed: Option<u64>) -> (r: Result<Self, &'static str>)
        requires
            seed is None && wiring is Some && wiring->Some_0.spec_bytes().len() == 26
                ==> forall|i: int|
                0 <= i < wiring->Some_0@.len() ==> byte_of(#[trigger] wiring->Some_0@[i]) < 91,
        ensures
            seed is None && wiring is None ==> (r matches Err(m) && m@
                == "Either wiring or seed must be provided"@),
            seed is None && wiring is Some ==> {
                let w = wiring->Some_0;
                &&& r is Ok <==> w.spec_bytes().len() == 26
                &&& (r matches Ok(refl) ==> refl.mapping@ == reverse_of(w@))
                &&& (r matches Err(m) ==> m@
                    == "The reflector wiring must have exactly 26 characters"@)
            },
            seed matches Some(s) ==> (r matches Ok(refl) && refl.mapping@ == reverse_of(
                seeded_refl_table(shuffled_alphabet(s)),
            ) && is_alphabet_permutation(shuffled_alphabet(s))),
            r matches Ok(refl) ==> refl.well_formed(),
    {
        let chars: Vec<char> = match seed {
            Some(s) => {
                let alpha = shuffle_alphabet(s);
                let mut table: [char; 26] = [' '; 26];
                assert(table@ =~= Seq::new(26, |i: int| ' '));
                let mut k: usize = 0;
                while k < 13
                    invariant
                        k <= 13,
                        is_alphabet_permutation(alpha@),
                        table@.len() == 26,
                        forall|j: int|
                            0 <= j < 26 ==> (#[trigger] table@[j]) == ' ' || is_upper(table@[j]),
                        apply_refl_pairs(table@, alpha@, k as int) == seeded_refl_table(alpha@),
                    decreases 13 - k,
                {
                    let a = alpha[2 * k];
                    let b = alpha[2 * k + 1];
                    let ia = index_of(a);
                    let ib = index_of(b);
                    table[ia] = b;
                    table[ib] = a;
                    k += 1;
                }
                let mut v: Vec<char> = Vec::new();
                let mut i: usize = 0;
                while i < 26
                    invariant
                        i <= 26,
                        table@.len() == 26,
                        v@ =~= table@.take(i as int),
                        forall|j: int|
                            0 <= j < 26 ==> (#[trigger] table@[j]) == ' ' || is_upper(table@[j]),
                    decreases 26 - i,
                {
                    v.push(table[i]);
                    i += 1;
                }
                assert(v@ =~= table@);
                proof {
                    assert forall|j: int| 0 <= j < v@.len() implies byte_of(#[trigger] v@[j])
                        < 91 by {
                        assert(table@[j] == ' ' || is_upper(table@[j]));
                    }
                }
                v
            },
            None => {
                match wiring {
                    Some(w) => {
                        if w.as_bytes().len() != 26 {
                            return Err("The reflector wiring must have exactly 26 characters");
                        }
                        let n = w.unicode_len();
                        let mut v: Vec<char> = Vec::new();
                        let mut i: usize = 0;
                        while i < n
                            invariant
                                i <= n,
                                n == w@.len(),
                                v@ =~= w@.take(i as int),
                            decreases n - i,
                        {
                            v.push(w.get_char(i));
                            i += 1;
                        }
                        assert(v@ =~= w@);
                        proof {
                            lemma_char_len_at_most_bytes(w);
                            assert(v@.len() <= 26);
                            assert forall|j: int| 0 <= j < v@.len() implies byte_of(
                                #[trigger] v@[j],
                            ) < 91 by {
                                assert(byte_of(w@[j]) < 91);
                            }
                        }
                        v
                    },
                    None => {
                        return Err("Either wiring or seed must be provided");
                    },
                }
            },
        };

        let mapping = build_inverse(chars.as_slice());
        Ok(Reflector { mapping })
    }

    /// Reflects a letter through the table; any character that is not
    /// an uppercase letter is rejected.
    pub fn reflect(&self, c: char) -> (r: Result<char, &'static str>)
        requires
            self.well_formed(),
        ensures
            is_upper(c) ==> r == Ok::<char, &'static str>(self.mapping@[spec_index_of(c)]),
            !is_upper(c) ==> (r matches Err(m) && m@
                == "Invalid character: Must be an ASCII uppercase letter"@),
            r matches Ok(out) ==> is_upper(out),
    {
        if !(c >= 'A' && c <= 'Z') {
            return Err("Invalid character: Must be an ASCII uppercase letter");
        }
        let i = index_of(c);
        Ok(self.mapping[i])
    }
}

/// A string never has more characters than bytes.
pub proof fn lemma_char_len_at_most_bytes(w: &str)
    ensures
        w@.len() <= w.spec_bytes().len(),
{
    lemma_encode_at_least_one_byte(w@);
}

/// Every character contributes at least one byte to the encoding.
proof fn lemma_encode_at_least_one_byte(chars: Seq<char>)
    ensures
        chars.len() <= vstd::utf8::encode_utf8(chars).len(),
    decreases chars.len(),
{
    if chars.len() > 0 {
        lemma_encode_at_least_one_byte(chars.drop_first());
    }
}

} // verus!
