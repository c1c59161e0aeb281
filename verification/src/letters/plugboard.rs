//! Letter plugboard: swaps pairs of letters before and after the
//! rotor/reflector stage.

use vstd::prelude::*;
use crate::letters::common::{
    all_upper, index_of, is_upper, letter_at, spec_index_of, spec_letter_at,
};
use crate::rng::{is_alphabet_permutation, shuffle_alphabet, shuffled_alphabet};

verus! {

/// Outcome of scanning a pair list in order, carrying the set of
/// letters already used: 0 for a valid list, 1 for a character that is
/// not an uppercase letter, 2 for a self-mapped pair, 3 for a repeated
/// character.
pub open spec fn spec_validate_code(pairs: Seq<(char, char)>, i: int, used: Set<char>) -> int
    decreases pairs.len() - i,
{
    if i < 0 || i >= pairs.len() {
        0
    } else {
        let (a, b) = pairs[i];
        if !(is_upper(a) && is_upper(b)) {
            1
        } else if a == b {
            2
        } else if used.contains(a) || used.contains(b) {
            3
        } else {
            spec_validate_code(pairs, i + 1, used.insert(a).insert(b))
        }
    }
}

/// The letters used by the first `i` pairs.
pub open spec fn used_chars(pairs: Seq<(char, char)>, i: int) -> Set<char>
    decreases i,
{
    if i <= 0 {
        Set::empty()
    } else {
        used_chars(pairs, i - 1).insert(pairs[i - 1].0).insert(pairs[i - 1].1)
    }
}

/// The pair list is accepted by validation.
pub open spec fn pairs_ok(pairs: Seq<(char, char)>) -> bool {
    spec_validate_code(pairs, 0, Set::empty()) == 0
}

/// The message reported for each validation outcome.
pub open spec fn spec_validate_msg(code: int) -> Seq<char> {
    if code == 1 {
        "Invalid character in plugboard pairs: Must be ASCII uppercase letters"@
    } else if code == 2 {
        "Self-mapping is not allowed in plugboard pairs"@
    } else {
        "Duplicate character in plugboard pairs"@
    }
}

/// The identity table over the letter alphabet.
pub open spec fn identity_letters() -> Seq<char> {
    Seq::new(26, |i: int| spec_letter_at(i))
}

/// The table after the swaps of pairs `i, i + 1, ...` are written
/// over `t`.
pub open spec fn apply_pairs(t: Seq<char>, pairs: Seq<(char, char)>, i: int) -> Seq<char>
    recommends
        t.len() == 26,
    decreases pairs.len() - i,
{
    if i < 0 || i >= pairs.len() {
        t
    } else {
        let (a, b) = pairs[i];
        apply_pairs(
            t.update(spec_index_of(a), b).update(spec_index_of(b), a),
            pairs,
            i + 1,
        )
    }
}

/// The swap table of a pair list: identity except that the letters of
/// each pair map to one another.
pub open spec fn table_of_pairs(pairs: Seq<(char, char)>) -> Seq<char> {
    apply_pairs(identity_letters(), pairs, 0)
}

/// The pair list that a seeded shuffle of the alphabet induces:
/// adjacent elements paired, thirteen pairs covering all 26 letters.
pub open spec fn seeded_pairs(alpha: Seq<char>) -> Seq<(char, char)> {
    Seq::new(13, |i: int| (alpha[2 * i], alpha[2 * i + 1]))
}

/// A valid pair list holds only uppercase letters.
pub proof fn lemma_valid_pairs_upper(pairs: Seq<(char, char)>, i: int, used: Set<char>)
    requires
        0 <= i <= pairs.len(),
        spec_validate_code(pairs, i, used) == 0,
    ensures
        forall|k: int|
            i <= k < pairs.len() ==> is_upper((#[trigger] pairs[k]).0) && is_upper(pairs[k].1),
    decreases pairs.len() - i,
{
    if i < pairs.len() {
        let (a, b) = pairs[i];
        lemma_valid_pairs_upper(pairs, i + 1, used.insert(a).insert(b));
    }
}

/// `used_chars` collects exactly the letters of the first `i` pairs.
proof fn lemma_used_chars(pairs: Seq<(char, char)>, i: int, c: char)
    requires
        0 <= i <= pairs.len(),
    ensures
        used_chars(pairs, i).contains(c) <==> exists|k: int|
            0 <= k < i && ((#[trigger] pairs[k]).0 == c || pairs[k].1 == c),
    decreases i,
{
    if i > 0 {
        lemma_used_chars(pairs, i - 1, c);
    }
}

/// The pairs induced by a permutation of the alphabet always pass
/// validation: their letters are uppercase, distinct, and none
/// repeats.
pub proof fn lemma_seeded_pairs_valid(alpha: Seq<char>)
    requires
        is_alphabet_permutation(alpha),
    ensures
        pairs_ok(seeded_pairs(alpha)),
{
    lemma_seeded_pairs_valid_from(alpha, 0);
}

proof fn lemma_seeded_pairs_valid_from(alpha: Seq<char>, i: int)
    requires
        is_alphabet_permutation(alpha),
        0 <= i <= 13,
    ensures
        spec_validate_code(seeded_pairs(alpha), i, used_chars(seeded_pairs(alpha), i)) == 0,
    decreases 13 - i,
{
    let sp = seeded_pairs(alpha);
    if i < 13 {
        let a = alpha[2 * i];
        let b = alpha[2 * i + 1];
        assert(!used_chars(sp, i).contains(a) && !used_chars(sp, i).contains(b)) by {
            lemma_used_chars(sp, i, a);
            lemma_used_chars(sp, i, b);
        }
        assert(used_chars(sp, i).insert(a).insert(b) =~= used_chars(sp, i + 1));
        lemma_seeded_pairs_valid_from(alpha, i + 1);
    }
}

/// A letter table that is an involution: following it twice returns
/// the starting letter.
pub open spec fn letters_involutive(t: Seq<char>) -> bool {
    &&& t.len() == 26
    &&& all_upper(t)
    &&& forall|i: int| 0 <= i < 26 ==> t[spec_index_of(#[trigger] t[i])] == spec_letter_at(i)
}

/// Involution of the letter plugboard: the table of any validated
/// pair list maps each letter of a pair to its partner and every
/// other letter to itself, so following it twice returns the start.
pub proof fn lemma_plugboard_involutive(pairs: Seq<(char, char)>)
    requires
        pairs_ok(pairs),
    ensures
        letters_involutive(table_of_pairs(pairs)),
{
    assert forall|c: char| is_upper(c) implies !used_chars(pairs, 0).contains(c) by {
        lemma_used_chars(pairs, 0, c);
    }
    assert forall|c: char|
        is_upper(c) implies identity_letters()[spec_index_of(c)] == c by {
        crate::letters::common::lemma_letter_index(spec_index_of(c));
    }
    lemma_apply_pairs_involutive(pairs, 0, Set::empty(), identity_letters());
}

/// The paired-or-identity shape is kept as the swaps are written:
/// letters already paired point at one another, letters not yet used
/// still point at themselves.
proof fn lemma_apply_pairs_involutive(
    pairs: Seq<(char, char)>,
    i: int,
    used: Set<char>,
    t: Seq<char>,
)
    requires
        0 <= i <= pairs.len(),
        spec_validate_code(pairs, i, used) == 0,
        t.len() == 26,
        all_upper(t),
        forall|c: char| #[trigger] used.contains(c) ==> is_upper(c),
        forall|c: char|
            is_upper(c) && !used.contains(c) ==> t[spec_index_of(c)] == c,
        forall|c: char| #[trigger]
            used.contains(c) ==> used.contains(t[spec_index_of(c)]) && t[spec_index_of(
                t[spec_index_of(c)],
            )] == c,
    ensures
        letters_involutive(apply_pairs(t, pairs, i)),
    decreases pairs.len() - i,
{
    crate::letters::common::lemma_letter_index(0);
    if i >= pairs.len() {
        assert forall|k: int| 0 <= k < 26 implies t[spec_index_of(#[trigger] t[k])]
            == spec_letter_at(k) by {
            let c = spec_letter_at(k);
            crate::letters::common::lemma_letter_index(k);
            if used.contains(c) {
            } else {
                assert(t[spec_index_of(c)] == c);
            }
        }
    } else {
        let (a, b) = pairs[i];
        let t2 = t.update(spec_index_of(a), b).update(spec_index_of(b), a);
        let used2 = used.insert(a).insert(b);
        assert forall|c: char|
            is_upper(c) && !used2.contains(c) implies t2[spec_index_of(c)] == c by {
            assert(spec_index_of(c) != spec_index_of(a) && spec_index_of(c) != spec_index_of(b));
        }
        assert forall|c: char| #[trigger]
            used2.contains(c) implies used2.contains(t2[spec_index_of(c)]) && t2[spec_index_of(
                t2[spec_index_of(c)],
            )] == c by {
            if c == a {
                assert(t2[spec_index_of(a)] == b && t2[spec_index_of(b)] == a);
            } else if c == b {
                assert(t2[spec_index_of(b)] == a && t2[spec_index_of(a)] == b);
            } else {
                // An already-paired letter and its partner are both
                // distinct from the fresh pair, so their slots are
                // untouched.
                let d = t[spec_index_of(c)];
                assert(used.contains(c) && used.contains(d));
                assert(c != a && c != b && d != a && d != b);
                assert(t2[spec_index_of(c)] == d);
                assert(t2[spec_index_of(d)] == t[spec_index_of(d)]);
            }
        }
        lemma_apply_pairs_involutive(pairs, i + 1, used2, t2);
    }
}

/// Letter plugboard component.
///
/// The swap table is total over the alphabet: a letter not taken by
/// any pair maps to itself.
#[derive(Debug, PartialEq)]
pub struct Plugboard {
    /// Swap table indexed by letter: entry `i` is the partner of the
    /// letter with index `i`.
    pub mapping: [char; 26],
}

impl Plugboard {
    /// Well-formedness: a full table of uppercase letters.
    pub open spec fn well_formed(&self) -> bool {
        self.mapping@.len() == 26 && all_upper(self.mapping@)
    }

    /// Creates a plugboard from explicit swap pairs, or, when a seed
    /// is given, from a seeded pairing of the whole alphabet (the
    /// explicit pairs are then ignored).  Every pair list is
    /// validated; the seed-induced list always passes.
    pub fn new(pairs: Option<Vec<(char, char)>>, seed: Option<u64>) -> (r: Result<
        Self,
        &'static str,
    >)
        ensures
            seed is None && pairs is None ==> (r matches Err(m) && m@
                == "Either pairs or seed must be provided"@),
            seed is None && pairs is Some ==> {
                let ps = pairs->Some_0;
                &&& r is Ok <==> pairs_ok(ps@)
                &&& (r matches Ok(p) ==> p.mapping@ == table_of_pairs(ps@))
                &&& (r matches Err(m) ==> m@ == spec_validate_msg(
                    spec_validate_code(ps@, 0, Set::empty()),
                ))
            },
            seed matches Some(s) ==> (r matches Ok(p) && p.mapping@ == table_of_pairs(
                seeded_pairs(shuffled_alphabet(s)),
            ) && is_alphabet_permutation(shuffled_alphabet(s))),
            r matches Ok(p) ==> p.well_formed(),
    {
        let pair_vec: Vec<(char, char)> = match seed {
            Some(s) => {
                let alpha = shuffle_alphabet(s);
                let mut pv: Vec<(char, char)> = Vec::new();
                let mut k: usize = 0;
                while k < 13
                    invariant
                        k <= 13,
                        alpha@.len() == 26,
                        pv@.len() == k,
                        forall|j: int|
                            0 <= j < k ==> (#[trigger] pv@[j]) == (alpha@[2 * j], alpha@[2 * j + 1]),
                    decreases 13 - k,
                {
                    let a = alpha[2 * k];
                    let b = alpha[2 * k + 1];
                    pv.push((a, b));
                    k += 1;
                }
                assert(pv@ =~= seeded_pairs(alpha@));
                proof {
                    lemma_seeded_pairs_valid(alpha@);
                }
                pv
            },
            None => {
                match pairs {
                    Some(p) => p,
                    None => {
                        return Err("Either pairs or seed must be provided");
                    },
                }
            },
        };

        match Self::validate_plugboard_pairs(pair_vec.as_slice()) {
            Ok(()) => {},
            Err(e) => {
                return Err(e);
            },
        }
        proof {
            lemma_valid_pairs_upper(pair_vec@, 0, Set::empty());
        }

        // Identity table, then write each swap pair over it.
        let mut mapping: [char; 26] = ['A'; 26];
        let mut i: usize = 0;
        while i < 26
            invariant
                i <= 26,
                forall|j: int| 0 <= j < i ==> (#[trigger] mapping@[j]) == spec_letter_at(j),
            decreases 26 - i,
        {
            mapping[i] = letter_at(i);
            i += 1;
        }
        assert(mapping@ =~= identity_letters());

        let n = pair_vec.len();
        let mut k: usize = 0;
        while k < n
            invariant
                k <= n,
                n == pair_vec@.len(),
                mapping@.len() == 26,
                all_upper(mapping@),
                forall|j: int|
                    0 <= j < n ==> is_upper((#[trigger] pair_vec@[j]).0) && is_upper(
                        pair_vec@[j].1,
                    ),
                apply_pairs(mapping@, pair_vec@, k as int) == table_of_pairs(pair_vec@),
            decreases n - k,
        {
            let (a, b) = pair_vec[k];
            let ia = index_of(a);
            let ib = index_of(b);
            mapping[ia] = b;
            mapping[ib] = a;
            k += 1;
        }

        Ok(Plugboard { mapping })
    }

    /// Swaps a letter through the plugboard table; any character that
    /// is not an uppercase letter is rejected.
    pub fn swap(&self, c: char) -> (r: Result<char, &'static str>)
        requires
            self.well_formed(),
        ensures
            is_upper(c) ==> r == Ok::<char, &'static str>(self.mapping@[spec_index_of(c)]),
            !is_upper(c) ==> (r matches Err(m) && m@
                == "Invalid character: Must be an ASCII uppercase letter"@),
            r matches Ok(out) ==> is_upper(out),
    {
        if !(c >= 'A' && c <= 'Z') {
            return Err("Invalid character: Must be an ASCII uppercase letter");
        }
        let i = index_of(c);
        Ok(self.mapping[i])
    }

    /// Validates a pair list: every character must be an uppercase
    /// letter, no pair may map a letter to itself, and no letter may
    /// appear twice.
    pub fn validate_plugboard_pairs(pairs: &[(char, char)]) -> (r: Result<(), &'static str>)
        ensures
            r is Ok <==> pairs_ok(pairs@),
            r matches Err(m) ==> m@ == spec_validate_msg(
                spec_validate_code(pairs@, 0, Set::empty()),
            ),
    {
        let mut used: [bool; 26] = [false; 26];
        let n = pairs.len();
        let mut i: usize = 0;
        while i < n
            invariant
                i <= n,
                n == pairs@.len(),
                used@.len() == 26,
                forall|c: char|
                    is_upper(c) ==> ((#[trigger] used@[spec_index_of(c)]) <==> used_chars(
                        pairs@,
                        i as int,
                    ).contains(c)),
                spec_validate_code(pairs@, i as int, used_chars(pairs@, i as int))
                    == spec_validate_code(pairs@, 0, Set::empty()),
            decreases n - i,
        {
            let (a, b) = pairs[i];
            if !((a >= 'A' && a <= 'Z') && (b >= 'A' && b <= 'Z')) {
                return Err("Invalid character in plugboard pairs: Must be ASCII uppercase letters");
            }
            if a == b {
                return Err("Self-mapping is not allowed in plugboard pairs");
            }
            let ia = index_of(a);
            let ib = index_of(b);
            if used[ia] || used[ib] {
                return Err("Duplicate character in plugboard pairs");
            }
            used[ia] = true;
            used[ib] = true;
            proof {
                assert(used_chars(pairs@, i as int).insert(a).insert(b) =~= used_chars(
                    pairs@,
                    i + 1,
                ));
                assert forall|c: char| is_upper(c) implies ((#[trigger] used@[spec_index_of(c)])
                    <==> used_chars(pairs@, i + 1).contains(c)) by {
                    crate::letters::common::lemma_letter_index(spec_index_of(c));
                }
            }
            i += 1;
        }
        Ok(())
    }
}

} // verus!
