//! Letter rotor: a substitution stage with a notch that signals the
//! next rotor to advance.

use vstd::prelude::*;
use vstd::string::{StrSliceExecFns, StringSliceAdditionalSpecFns};
use crate::letters::common::{
    all_upper, build_inverse, byte_of, index_of, invert_wiring, is_upper, reverse_of,
    spec_index_of, spec_letter_at,
};
use crate::rng::{is_alphabet_permutation, shuffle_alphabet, shuffled_alphabet};

verus! {

/// Letter rotor component.
///
/// The rotor carries a substitution table, its precomputed inverse,
/// the notch letter that triggers the next rotor, and its current
/// position.
#[derive(Debug, PartialEq)]
pub struct Rotor {
    /// The substitution table for the forward direction.
    pub mapping: [char; 26],
    /// The substitution table for the reverse direction.
    pub reverse_mapping: [char; 26],
    /// The letter at which this rotor triggers the next one.
    pub notch: char,
    /// The current position, 0 to 25.
    pub position: usize,
}

impl Rotor {
    /// Well-formedness: full uppercase tables, an uppercase notch and
    /// a position on the wheel.
    pub open spec fn well_formed(&self) -> bool {
        &&& self.mapping@.len() == 26
        &&& all_upper(self.mapping@)
        &&& self.reverse_mapping@.len() == 26
        &&& all_upper(self.reverse_mapping@)
        &&& is_upper(self.notch)
        &&& self.position < 26
    }

    /// Creates a rotor from a 26-character wiring, or, when a seed is
    /// given, from a seeded shuffle of the alphabet (the explicit
    /// wiring is then ignored).  The notch and the starting position
    /// must be uppercase letters.
    pub fn new(wiring: Option<&str>, notch: char, position: char, seed: Option<u64>) -> (r: Result<
        Self,
        &'static str,
    >)
        requires
            is_upper(notch) && is_upper(position) && seed is None && wiring is Some
                && wiring->Some_0.spec_bytes().len() == 26 ==> wiring->Some_0@.len() == 26
                && (forall|i: int|
                0 <= i < wiring->Some_0@.len() ==> byte_of(#[trigger] wiring->Some_0@[i]) < 91),
        ensures
            !(is_upper(notch) && is_upper(position)) ==> (r matches Err(m) && m@
                == "The notch and position must be valid ASCII uppercase letters ('A'-'Z')"@),
            is_upper(notch) && is_upper(position) && seed is Some ==> {
                let s = seed->Some_0;
                r matches Ok(rot) && rot.mapping@ == shuffled_alphabet(s)
                    && is_alphabet_permutation(rot.mapping@) && rot.reverse_mapping@ == reverse_of(
                    shuffled_alphabet(s),
                ) && rot.notch == notch && rot.position == spec_index_of(position)
                    && rot.well_formed()
            },
            is_upper(notch) && is_upper(position) && seed is None && wiring is Some ==> {
                let w = wiring->Some_0;
                &&& r is Ok <==> w.spec_bytes().len() == 26
                &&& (r matches Ok(rot) ==> rot.mapping@ == w@ && rot.reverse_mapping@
                    == reverse_of(w@) && rot.notch == notch && rot.position == spec_index_of(
                    position,
                ))
                &&& (r matches Err(m) ==> m@ == "The rotor wiring must have exactly 26 characters"@)
            },
            is_upper(notch) && is_upper(position) && seed is None && wiring is None ==> (r matches
                Err(m) && m@ == "Either wiring or seed must be provided"@),
            r matches Ok(rot) ==> rot.position < 26 && rot.mapping@.len() == 26
                && rot.reverse_mapping@.len() == 26 && all_upper(rot.reverse_mapping@),
    {
        if !((notch >= 'A' && notch <= 'Z') && (position >= 'A' && position <= 'Z')) {
            return Err("The notch and position must be valid ASCII uppercase letters ('A'-'Z')");
        }
        let position_offset = index_of(position);

        let chars: Vec<char> = match seed {
            Some(s) => {
                let alpha = shuffle_alphabet(s);
                proof {
                    assert forall|j: int| 0 <= j < alpha@.len() implies byte_of(#[trigger] alpha@[j])
                        < 91 by {
                        assert(is_upper(alpha@[j]));
                    }
                }
                alpha
            },
            None => {
                match wiring {
                    Some(w) => {
                        if w.as_bytes().len() != 26 {
                            return Err("The rotor wiring must have exactly 26 characters");
                        }
                        let n = w.unicode_len();
                        let mut v: Vec<char> = Vec::new();
                        let mut i: usize = 0;
                        while i < n
                            invariant
                                i <= n,
                                n == w@.len(),
                                v@ =~= w@.take(i as int),
                            decreases n - i,
                        {
                            v.push(w.get_char(i));
                            i += 1;
                        }
                        assert(v@ =~= w@);
                        v
                    },
                    None => {
                        return Err("Either wiring or seed must be provided");
                    },
                }
            },
        };

        let mut mapping: [char; 26] = ['A'; 26];
        let mut i: usize = 0;
        while i < 26
            invariant
                i <= 26,
                chars@.len() == 26,
                forall|j: int| 0 <= j < i ==> (#[trigger] mapping@[j]) == chars@[j],
            decreases 26 - i,
        {
            mapping[i] = chars[i];
            i += 1;
        }
        assert(mapping@ =~= chars@);

        let reverse_mapping = build_inverse(mapping.as_slice());

        Ok(Rotor { mapping, reverse_mapping, notch, position: position_offset })
    }

    /// Transforms a letter in the forward direction (right to left).
    pub fn forward(&self, c: char) -> (r: Result<char, &'static str>)
        ensures
            is_upper(c) ==> r == Ok::<char, &'static str>(self.mapping@[spec_index_of(c)]),
            !is_upper(c) ==> (r matches Err(m) && m@
                == "Invalid character: Must be an ASCII uppercase letter"@),
    {
        if !(c >= 'A' && c <= 'Z') {
            return Err("Invalid character: Must be an ASCII uppercase letter");
        }
        let i = index_of(c);
        Ok(self.mapping[i])
    }

    /// Transforms a letter in the reverse direction (left to right).
    pub fn reverse(&self, c: char) -> (r: Result<char, &'static str>)
        ensures
            is_upper(c) ==> r == Ok::<char, &'static str>(self.reverse_mapping@[spec_index_of(c)]),
            !is_upper(c) ==> (r matches Err(m) && m@
                == "Invalid character: Must be an ASCII uppercase letter"@),
    {
        if !(c >= 'A' && c <= 'Z') {
            return Err("Invalid character: Must be an ASCII uppercase letter");
        }
        let i = index_of(c);
        Ok(self.reverse_mapping[i])
    }

    /// Rotates the rotor by one position and reports whether the
    /// rotation lands on the notch, which tells the next rotor to
    /// advance.
    pub fn rotate(&mut self) -> (r: bool)
        requires
            is_upper(old(self).notch),
            old(self).position < usize::MAX,
        ensures
            final(self).position == (old(self).position + 1) % 26,
            final(self).position < 26,
            final(self).mapping == old(self).mapping,
            final(self).reverse_mapping == old(self).reverse_mapping,
            final(self).notch == old(self).notch,
            r == ((old(self).position + 1) % 26 == spec_index_of(old(self).notch)),
    {
        let notch_pos = index_of(self.notch);
        let will_be_at_notch = (self.position + 1) % 26 == notch_pos;
        self.position = (self.position + 1) % 26;
        will_be_at_notch
    }

    /// Returns the letter of the substitution table at the rotor's
    /// current position.
    pub fn get_current_letter(&self) -> (r: char)
        requires
            self.position < 26,
        ensures
            r == self.mapping@[self.position as int],
    {
        self.mapping[self.position]
    }

    /// Returns the current position of the rotor as an index (0-25).
    pub fn current_position(&self) -> (r: usize)
        requires
            self.position < 26,
        ensures
            r == self.position,
    {
        self.position
    }

    /// Moves the rotor to the position one step before its notch.
    pub fn set_position_before_notch(&mut self)
        requires
            is_upper(old(self).notch),
        ensures
            final(self).position == (if spec_index_of(old(self).notch) == 0 {
                25int
            } else {
                spec_index_of(old(self).notch) - 1
            }),
            final(self).mapping == old(self).mapping,
            final(self).reverse_mapping == old(self).reverse_mapping,
            final(self).notch == old(self).notch,
    {
        let notch_pos = index_of(self.notch);
        self.position = if notch_pos == 0 {
            25
        } else {
            notch_pos - 1
        };
    }

    /// Builds the reverse substitution table of a forward wiring.
    pub fn create_reverse_mapping(wiring: &str) -> (r: [char; 26])
        requires
            all_upper(wiring@),
            wiring@.len() <= 190,
        ensures
            r@ == reverse_of(wiring@),
    {
        let mut reverse: [char; 26] = ['A'; 26];
        assert(reverse@ =~= Seq::new(26, |i: int| 'A'));
        let n = wiring.unicode_len();
        let mut i: usize = 0;
        while i < n
            invariant
                i <= n,
                n == wiring@.len() <= 190,
                all_upper(wiring@),
                reverse@.len() == 26,
                invert_wiring(reverse@, wiring@, i as int) == reverse_of(wiring@),
            decreases n - i,
        {
            let c = wiring.get_char(i);
            let pos = index_of(c);
            reverse[pos] = (65u8 + i as u8) as char;
            proof {
                assert(byte_of(c) == spec_index_of(c) + 65);
                assert((65u8 + i as u8) as char == spec_letter_at(i as int));
            }
            i += 1;
        }
        reverse
    }
}

/// Rotor invertibility for the letter tables: on a wiring that
/// permutes the alphabet, the stored reverse table undoes the forward
/// table and the forward table undoes the reverse, for every letter.
pub proof fn lemma_rotor_tables_inverse(w: Seq<char>)
    requires
        is_alphabet_permutation(w),
    ensures
        forall|c: char|
            is_upper(c) ==> #[trigger] reverse_of(w)[spec_index_of(w[spec_index_of(c)])] == c,
        forall|c: char|
            is_upper(c) ==> #[trigger] w[spec_index_of(reverse_of(w)[spec_index_of(c)])] == c,
{
    let base = Seq::new(26, |i: int| 'A');
    crate::letters::common::lemma_invert_writes(w, 0, base);
    assert forall|c: char|
        is_upper(c) implies #[trigger] reverse_of(w)[spec_index_of(w[spec_index_of(c)])]
        == c by {
        let m = spec_index_of(c);
        assert(reverse_of(w)[spec_index_of(w[m])] == spec_letter_at(m));
        crate::letters::common::lemma_letter_index(m);
        assert(spec_letter_at(m) as int == c as int);
    }
    assert forall|c: char|
        is_upper(c) implies #[trigger] w[spec_index_of(reverse_of(w)[spec_index_of(c)])]
        == c by {
        assert(w.contains(c));
        let j = choose|j: int| 0 <= j < w.len() && w[j] == c;
        assert(reverse_of(w)[spec_index_of(w[j])] == spec_letter_at(j));
        crate::letters::common::lemma_letter_index(j);
    }
}

} // verus!
