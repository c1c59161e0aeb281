//! Specification vocabulary for whole-alphabet permutation tables.
//!
//! A table is a sequence of 256 bytes read as a map from symbol to
//! symbol.  The rotor needs a bijective table (so that a true inverse
//! exists); the plugboard and the reflector need an involutive one
//! (so that forward and backward collapse to the same lookup).

use vstd::prelude::*;

verus! {

/// The table has one entry for every byte.
pub open spec fn full_table(t: Seq<u8>) -> bool {
    t.len() == 256
}

/// The table is an involution: following it twice returns the start.
pub open spec fn involutive(t: Seq<u8>) -> bool {
    full_table(t) && forall|i: int| 0 <= i < 256 ==> (#[trigger] t[t[i] as int]) == i as u8
}

/// No two entries collide; over a full table this makes it a bijection.
pub open spec fn injective(t: Seq<u8>) -> bool {
    full_table(t) && forall|i: int, j: int|
        0 <= i < 256 && 0 <= j < 256 && i != j ==> t[i] != t[j]
}

/// `b` undoes `f`: composing the two lookups in either order is the
/// identity.
pub open spec fn inverse_tables(f: Seq<u8>, b: Seq<u8>) -> bool {
    full_table(f) && full_table(b)
        && (forall|i: int| 0 <= i < 256 ==> (#[trigger] b[f[i] as int]) == i as u8)
        && (forall|j: int| 0 <= j < 256 ==> (#[trigger] f[b[j] as int]) == j as u8)
}

/// A full injective table hits every byte: 256 distinct values drawn
/// from a space of 256 leave no value out.
pub proof fn lemma_injective_surjective(t: Seq<u8>)
    requires
        injective(t),
    ensures
        forall|v: u8| #[trigger] t.contains(v),
{
    broadcast use vstd::set::group_set_axioms;
    broadcast use vstd::set_lib::full_set_properties;

    assert(t.no_duplicates());
    t.unique_seq_to_set();
    let img = t.to_set();
    assert(img.len() == 256);
    let full = Set::<u8>::full();
    assert(full.finite());
    assert forall|v: u8| #[trigger] t.contains(v) by {
        if !img.contains(v) {
            lemma_full_u8_len();
            assert(img.subset_of(full.remove(v)));
            assert(full.remove(v).len() == 255);
            vstd::set_lib::lemma_len_subset(img, full.remove(v));
            assert(false);
        }
        assert(img.contains(v));
    }
}

/// The set of all bytes has exactly 256 elements.
pub proof fn lemma_full_u8_len()
    ensures
        Set::<u8>::full().finite(),
        Set::<u8>::full().len() == 256,
{
    broadcast use vstd::set::group_set_axioms;
    broadcast use vstd::set_lib::full_set_properties;
    broadcast use vstd::set_lib::range_set_properties;

    let r = Set::<u8>::range(0u8, 255u8);
    assert(r.len() == 255);
    assert(!r.contains(255u8));
    assert(Set::<u8>::full() =~= r.insert(255u8));
}

} // verus!
