//! Shared vocabulary of the letter-alphabet machine: the 26 uppercase
//! letters and the maps between letters and table indices.

use vstd::prelude::*;

verus! {

/// The character is one of the 26 uppercase ASCII letters.
pub open spec fn is_upper(c: char) -> bool {
    'A' <= c && c <= 'Z'
}

/// Every character of the sequence is an uppercase ASCII letter.
pub open spec fn all_upper(s: Seq<char>) -> bool {
    forall|i: int| 0 <= i < s.len() ==> is_upper(#[trigger] s[i])
}

/// Table index of an uppercase letter: 0 for `'A'` up to 25 for `'Z'`.
pub open spec fn spec_index_of(c: char) -> int {
    c as int - 65
}

/// The uppercase letter at a table index.
pub open spec fn spec_letter_at(i: int) -> char {
    ((65 + i) as u8) as char
}

/// Index of an uppercase letter, as executable code.
pub fn index_of(c: char) -> (r: usize)
    requires
        is_upper(c),
    ensures
        r == spec_index_of(c),
        r < 26,
{
    (c as u32 - 65) as usize
}

/// The uppercase letter at a table index, as executable code.
pub fn letter_at(i: usize) -> (r: char)
    requires
        i < 26,
    ensures
        r == spec_letter_at(i as int),
        is_upper(r),
{
    (65u8 + i as u8) as char
}

/// The low byte of a character's code point, as a truncating cast to
/// a byte reads it.
pub open spec fn byte_of(c: char) -> int {
    ((c as u32) as int) % 256
}

/// The inverse-wiring build over `w` from position `i` on: each
/// character whose low byte is at least `'A'` writes the letter of its
/// own position into the slot the byte names; anything below `'A'` is
/// skipped.
pub open spec fn invert_wiring(t: Seq<char>, w: Seq<char>, i: int) -> Seq<char>
    recommends
        t.len() == 26,
        forall|k: int| 0 <= k < w.len() ==> byte_of(#[trigger] w[k]) < 91,
    decreases w.len() - i,
{
    if i < 0 || i >= w.len() {
        t
    } else {
        let b = byte_of(w[i]);
        if b >= 65 {
            invert_wiring(t.update(b - 65, spec_letter_at(i)), w, i + 1)
        } else {
            invert_wiring(t, w, i + 1)
        }
    }
}

/// The inverse of a wiring, built over a table of `'A'` filler.
pub open spec fn reverse_of(w: Seq<char>) -> Seq<char> {
    invert_wiring(Seq::new(26, |i: int| 'A'), w, 0)
}

/// Builds the inverse of a wiring of at most 26 characters, as
/// executable code.
pub fn build_inverse(w: &[char]) -> (r: [char; 26])
    requires
        w@.len() <= 26,
        forall|k: int| 0 <= k < w@.len() ==> byte_of(#[trigger] w@[k]) < 91,
    ensures
        r@ == reverse_of(w@),
        r@.len() == 26,
        all_upper(r@),
{
    let mut rev: [char; 26] = ['A'; 26];
    assert(rev@ =~= Seq::new(26, |i: int| 'A'));
    let n = w.len();
    let mut i: usize = 0;
    while i < n
        invariant
            i <= n,
            n == w@.len() <= 26,
            forall|k: int| 0 <= k < n ==> byte_of(#[trigger] w@[k]) < 91,
            rev@.len() == 26,
            all_upper(rev@),
            invert_wiring(rev@, w@, i as int) == reverse_of(w@),
        decreases n - i,
    {
        let c = w[i];
        let b = (c as u32) % 256;
        assert(b == byte_of(c));
        if b >= 65 {
            rev[(b - 65) as usize] = letter_at(i);
        }
        i += 1;
    }
    rev
}

/// An ASCII letter of either case, the only characters the message
/// loop encrypts.
pub open spec fn is_ascii_letter(c: char) -> bool {
    is_upper(c) || ('a' <= c && c <= 'z')
}

/// The inversion writes the source slot's letter at each target slot
/// and leaves slots no letter points at untouched.
pub proof fn lemma_invert_writes(t: Seq<char>, i: int, acc: Seq<char>)
    requires
        t.len() == 26,
        all_upper(t),
        forall|m1: int, m2: int|
            0 <= m1 < 26 && 0 <= m2 < 26 && m1 != m2 ==> t[m1] != t[m2],
        0 <= i <= 26,
        acc.len() == 26,
    ensures
        invert_wiring(acc, t, i).len() == 26,
        forall|m: int|
            i <= m < 26 ==> invert_wiring(acc, t, i)[spec_index_of(#[trigger] t[m])]
                == spec_letter_at(m),
        forall|j: int|
            0 <= j < 26 && (forall|m: int| i <= m < 26 ==> spec_index_of(#[trigger] t[m]) != j)
                ==> invert_wiring(acc, t, i)[j] == acc[j],
    decreases 26 - i,
{
    if i < 26 {
        assert(byte_of(t[i]) == spec_index_of(t[i]) + 65);
        let acc2 = acc.update(spec_index_of(t[i]), spec_letter_at(i));
        let done = invert_wiring(acc, t, i);
        assert(done == invert_wiring(acc2, t, i + 1));
        lemma_invert_writes(t, i + 1, acc2);
        assert forall|m: int| i + 1 <= m < 26 implies spec_index_of(#[trigger] t[m])
            != spec_index_of(t[i]) by {
            assert(t[m] != t[i]);
        }
        assert(done[spec_index_of(t[i])] == acc2[spec_index_of(t[i])]);
        assert forall|m: int| i <= m < 26 implies done[spec_index_of(#[trigger] t[m])]
            == spec_letter_at(m) by {
            if m == i {
                assert(done[spec_index_of(t[i])] == spec_letter_at(i));
            }
        }
        assert forall|j: int|
            0 <= j < 26 && (forall|m: int| i <= m < 26 ==> spec_index_of(#[trigger] t[m]) != j)
                implies done[j] == acc[j] by {
            assert(spec_index_of(t[i]) != j);
            assert(acc2[j] == acc[j]);
        }
    }
}

/// The inverse of a full 26-letter wiring is all uppercase: every
/// slot is written with a source letter.
pub proof fn lemma_invert_writes_upper(w: Seq<char>)
    requires
        crate::rng::is_alphabet_permutation(w),
    ensures
        all_upper(reverse_of(w)),
        reverse_of(w).len() == 26,
{
    let base = Seq::new(26, |i: int| 'A');
    assert forall|m1: int, m2: int|
        0 <= m1 < 26 && 0 <= m2 < 26 && m1 != m2 implies w[m1] != w[m2] by {}
    lemma_invert_writes(w, 0, base);
    assert forall|j: int| 0 <= j < 26 implies is_upper(#[trigger] reverse_of(w)[j]) by {
        let c = spec_letter_at(j);
        lemma_letter_index(j);
        assert(w.contains(c));
        let m = choose|m: int| 0 <= m < w.len() && w[m] == c;
        assert(reverse_of(w)[spec_index_of(w[m])] == spec_letter_at(m));
        lemma_letter_index(m);
    }
}

/// Indexing and lettering invert each other.
pub proof fn lemma_letter_index(i: int)
    requires
        0 <= i < 26,
    ensures
        spec_index_of(spec_letter_at(i)) == i,
        is_upper(spec_letter_at(i)),
{
    assert(spec_index_of(spec_letter_at(i)) == i);
    assert(is_upper(spec_letter_at(i)));
}

} // verus!
