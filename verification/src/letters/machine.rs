//! The letter machine: seeded rotors, reflector and plugboard driven
//! by a date-derived seed, with notch-based stepping.

use vstd::prelude::*;
use vstd::string::StrSliceExecFns;
use crate::config::FIXED_HASH;
use crate::dates::{date_parts, parse_date_ymd};
use crate::letters::common::{
    all_upper, is_ascii_letter, is_upper, reverse_of, spec_index_of,
};
use crate::letters::plugboard::{
    pairs_ok, seeded_pairs, spec_validate_code, spec_validate_msg, table_of_pairs, Plugboard,
};
use crate::letters::reflector::{seeded_refl_table, Reflector};
use crate::letters::rotor::Rotor;
use crate::rng::{shuffle_alphabet, shuffled_alphabet};
use crate::text::{chars_to_string, post_of, spec_to_upper};

verus! {

/// Wrapping 64-bit addition, the arithmetic of the seed derivation.
pub open spec fn wadd(a: u64, b: u64) -> u64 {
    vstd::wrapping::u64_specs::wrapping_add(a, b)
}

/// Wrapping 64-bit multiplication.
pub open spec fn wmul(a: u64, b: u64) -> u64 {
    vstd::wrapping::u64_specs::wrapping_mul(a, b)
}

/// The date- and key-dependent base of every derived seed:
/// `day * sstk + month * sstk + year`, wrapping.
pub open spec fn spec_seed_base(parts: (u64, u64, u64), sstk: u64) -> u64 {
    wadd(wadd(wmul(parts.0, sstk), wmul(parts.1, sstk)), parts.2)
}

/// The seed of the notches, the plugboard and the reflector.
pub open spec fn spec_component_seed(parts: (u64, u64, u64), sstk: u64) -> u64 {
    wadd(spec_seed_base(parts, sstk), FIXED_HASH)
}

/// The seed of rotor number `idx` (counted from one).
pub open spec fn spec_rotor_seed(parts: (u64, u64, u64), sstk: u64, idx: u64) -> u64 {
    wadd(wadd(spec_seed_base(parts, sstk), idx), FIXED_HASH)
}

/// Computes the shared seed base, wrapping on overflow.
fn seed_base(parts: (u64, u64, u64), sstk: u64) -> (r: u64)
    ensures
        r == spec_seed_base(parts, sstk),
{
    parts.0.wrapping_mul(sstk).wrapping_add(parts.1.wrapping_mul(sstk)).wrapping_add(parts.2)
}

/// The forward pass of a letter through rotors `i, i + 1, ...`.
pub open spec fn fwd_chain(rotors: Seq<Rotor>, i: int, c: char) -> char
    decreases rotors.len() - i,
{
    if i < 0 || i >= rotors.len() {
        c
    } else {
        fwd_chain(rotors, i + 1, rotors[i].mapping@[spec_index_of(c)])
    }
}

/// The reverse pass of a letter through rotors `len - 1, ..., i`.
pub open spec fn rev_chain(rotors: Seq<Rotor>, i: int, c: char) -> char
    decreases rotors.len() - i,
{
    if i < 0 || i >= rotors.len() {
        c
    } else {
        rotors[i].reverse_mapping@[spec_index_of(rev_chain(rotors, i + 1, c))]
    }
}

/// One letter through the whole pipeline: plugboard, rotors forward,
/// reflector, rotors in reverse, plugboard again.
pub open spec fn enc_char(plug: Seq<char>, refl: Seq<char>, rotors: Seq<Rotor>, c: char) -> char {
    let a = plug[spec_index_of(c)];
    let b = fwd_chain(rotors, 0, a);
    let d = refl[spec_index_of(b)];
    let e = rev_chain(rotors, 0, d);
    plug[spec_index_of(e)]
}

/// A rotor advanced by one position.
pub open spec fn rotated(r: Rotor) -> Rotor {
    Rotor { position: ((r.position + 1) % 26) as usize, ..r }
}

/// Whether advancing the rotor lands it on its notch, which carries
/// the movement to the next rotor.
pub open spec fn rot_signal(r: Rotor) -> bool {
    (r.position + 1) % 26 == spec_index_of(r.notch)
}

/// The rotor bank after a stepping wave that starts at rotor `i`:
/// the rotor advances, and the wave continues while rotors land on
/// their notches.
pub open spec fn step_from(rotors: Seq<Rotor>, i: int) -> Seq<Rotor>
    decreases rotors.len() - i,
{
    if i < 0 || i >= rotors.len() {
        rotors
    } else {
        let r = rotors[i];
        let stepped = rotors.update(i, rotated(r));
        if rot_signal(r) {
            step_from(stepped, i + 1)
        } else {
            stepped
        }
    }
}

/// The rotor bank after one step: the first rotor always advances.
pub open spec fn spec_step_rotors(rotors: Seq<Rotor>) -> Seq<Rotor> {
    step_from(rotors, 0)
}

/// The letters of a sequence that are uppercase, in order.
pub open spec fn upper_only(s: Seq<char>, i: int) -> Seq<char>
    decreases s.len() - i,
{
    if i < 0 || i >= s.len() {
        Seq::empty()
    } else {
        (if is_upper(s[i]) {
            seq![s[i]]
        } else {
            Seq::<char>::empty()
        }) + upper_only(s, i + 1)
    }
}

/// Characters grouped in blocks of four separated by dashes.
pub open spec fn dashed_of(t: Seq<char>) -> Seq<char>
    decreases t.len(),
{
    if t.len() <= 4 {
        t
    } else {
        t.take(4) + seq!['-'] + dashed_of(t.skip(4))
    }
}

/// The sequence with every dash removed.
pub open spec fn cont_of(s: Seq<char>) -> Seq<char> {
    s.filter(|c: char| c != '-')
}

/// Outcome of a whole message run: the rotor bank reached, the
/// letters emitted so far, and whether a dash was seen (marking the
/// text as ciphertext to post-process).
pub struct MessageRun {
    /// The rotor bank after the run.
    pub rotors: Seq<Rotor>,
    /// The letters emitted, before output formatting.
    pub acc: Seq<char>,
    /// A dash was seen in the input.
    pub cyph: bool,
}

/// The message loop: each ASCII letter first steps the rotors and is
/// then encrypted, uppercased, at the new positions; dashes set the
/// ciphertext flag; everything else is skipped.
pub open spec fn run_message(
    plug: Seq<char>,
    refl: Seq<char>,
    rotors: Seq<Rotor>,
    text: Seq<char>,
    i: int,
    acc: Seq<char>,
    cyph: bool,
) -> MessageRun
    decreases text.len() - i,
{
    if i < 0 || i >= text.len() {
        MessageRun { rotors, acc, cyph }
    } else {
        let c = text[i];
        if is_ascii_letter(c) {
            let rot2 = spec_step_rotors(rotors);
            let u = spec_to_upper(c);
            run_message(plug, refl, rot2, text, i + 1, acc.push(enc_char(plug, refl, rot2, u)), cyph)
        } else if c == '-' {
            run_message(plug, refl, rotors, text, i + 1, acc, true)
        } else {
            run_message(plug, refl, rotors, text, i + 1, acc, cyph)
        }
    }
}

/// The display form of a finished message run: post-processed when a
/// dash marked the input as ciphertext, dash-grouped otherwise.
pub open spec fn message_output(run: MessageRun) -> Seq<char> {
    if run.cyph {
        cont_of(crate::text::post_of(run.acc, 0))
    } else {
        dashed_of(upper_only(run.acc, 0))
    }
}

/// The letter machine: seeded rotor bank, reflector and plugboard.
#[derive(Debug, PartialEq)]
pub struct EnigmaMachine {
    /// The rotor bank, first rotor stepping fastest.
    pub rotors: Vec<Rotor>,
    /// The reflector between the two rotor passes.
    pub reflector: Reflector,
    /// The plugboard around the rotor/reflector stage.
    pub plugboard: Plugboard,
    /// The plugboard pairs in clear text, kept for reference.
    pub vec_plug: Vec<(char, char)>,
}

/// Generates the notch letters of a rotor bank: the first `n_rt`
/// letters of a seeded shuffle of the alphabet, so all distinct.
pub fn generate_notches(sstk: usize, n_rt: usize, date: &str) -> (r: Vec<char>)
    requires
        date_parts(date@) is Some,
    ensures
        r@ == shuffled_alphabet(
            spec_component_seed(date_parts(date@)->Some_0, sstk as u64),
        ).take(if n_rt <= 26 { n_rt as int } else { 26 }),
        r@.len() == (if n_rt <= 26 { n_rt as int } else { 26 }),
        all_upper(r@),
        crate::rng::is_alphabet_permutation(
            shuffled_alphabet(spec_component_seed(date_parts(date@)->Some_0, sstk as u64)),
        ),
{
    let parts = match parse_date_ymd(date) {
        Some(p) => p,
        None => {
            proof {
                assert(false);
            }
            (1, 1, 1970)
        },
    };
    let seed = seed_base(parts, sstk as u64).wrapping_add(FIXED_HASH);
    let alpha = shuffle_alphabet(seed);
    let mut out: Vec<char> = Vec::new();
    let mut i: usize = 0;
    while i < n_rt && i < 26
        invariant
            i <= 26,
            alpha@.len() == 26,
            n_rt <= 26 ==> i <= n_rt,
            out@ =~= alpha@.take(i as int),
        decreases 26 - i,
    {
        out.push(alpha[i]);
        i += 1;
    }
    proof {
        assert(out@ =~= alpha@.take(if n_rt <= 26 { n_rt as int } else { 26 }));
        assert forall|j: int| 0 <= j < out@.len() implies is_upper(#[trigger] out@[j]) by {
            assert(out@[j] == alpha@[j]);
        }
    }
    out
}

/// Builds the rotor bank: one seeded rotor per slot, each with its
/// own derived seed and one of the generated notches, starting at
/// position `'A'`.
pub fn create_rotors(n_rt: usize, sstk: usize, date: &str) -> (r: Result<Vec<Rotor>, &'static str>)
    requires
        n_rt <= 26,
    ensures
        r is Ok <==> date_parts(date@) is Some,
        r matches Err(m) ==> m@ == "The date must be a valid YYYYMMDD date"@,
        r matches Ok(v) ==> {
            let parts = date_parts(date@)->Some_0;
            let notches = shuffled_alphabet(spec_component_seed(parts, sstk as u64));
            &&& crate::rng::is_alphabet_permutation(notches)
            &&& v@.len() == n_rt
            &&& forall|i: int|
                0 <= i < n_rt ==> {
                    let rot = #[trigger] v@[i];
                    let seed = spec_rotor_seed(parts, sstk as u64, (i + 1) as u64);
                    &&& rot.mapping@ == shuffled_alphabet(seed)
                    &&& crate::rng::is_alphabet_permutation(rot.mapping@)
                    &&& rot.reverse_mapping@ == reverse_of(shuffled_alphabet(seed))
                    &&& rot.notch == notches[i]
                    &&& rot.position == 0
                    &&& rot.well_formed()
                }
        },
{
    let parts = match parse_date_ymd(date) {
        Some(p) => p,
        None => {
            return Err("The date must be a valid YYYYMMDD date");
        },
    };
    let notches = generate_notches(sstk, n_rt, date);
    let base = seed_base(parts, sstk as u64);
    let mut rotors: Vec<Rotor> = Vec::new();
    let mut idx: usize = 0;
    while idx < n_rt
        invariant
            idx <= n_rt <= 26,
            parts == date_parts(date@)->Some_0,
            date_parts(date@) is Some,
            base == spec_seed_base(parts, sstk as u64),
            notches@.len() == n_rt,
            notches@ == shuffled_alphabet(spec_component_seed(parts, sstk as u64)).take(
                n_rt as int,
            ),
            crate::rng::is_alphabet_permutation(
                shuffled_alphabet(spec_component_seed(parts, sstk as u64)),
            ),
            all_upper(notches@),
            rotors@.len() == idx,
            forall|i: int|
                0 <= i < idx ==> {
                    let rot = #[trigger] rotors@[i];
                    let seed = spec_rotor_seed(parts, sstk as u64, (i + 1) as u64);
                    &&& rot.mapping@ == shuffled_alphabet(seed)
                    &&& crate::rng::is_alphabet_permutation(rot.mapping@)
                    &&& rot.reverse_mapping@ == reverse_of(shuffled_alphabet(seed))
                    &&& rot.notch == notches@[i]
                    &&& rot.position == 0
                    &&& rot.well_formed()
                },
        decreases n_rt - idx,
    {
        let seed = base.wrapping_add((idx + 1) as u64).wrapping_add(FIXED_HASH);
        assert(seed == spec_rotor_seed(parts, sstk as u64, (idx + 1) as u64));
        let notch = notches[idx];
        let rotor = match Rotor::new(None, notch, 'A', Some(seed)) {
            Ok(rot) => rot,
            Err(_) => {
                proof {
                    assert(false);
                }
                return Err("The date must be a valid YYYYMMDD date");
            },
        };
        rotors.push(rotor);
        idx += 1;
    }
    Ok(rotors)
}

/// Builds the plugboard: from the given pairs when there are any,
/// otherwise from the seeded pairing of the whole alphabet.
pub fn create_plugboard(sstk: usize, date: &str, pairs: Vec<(char, char)>) -> (r: Result<
    Plugboard,
    &'static str,
>)
    ensures
        pairs@.len() > 0 ==> {
            &&& r is Ok <==> pairs_ok(pairs@)
            &&& (r matches Ok(p) ==> p.mapping@ == table_of_pairs(pairs@))
            &&& (r matches Err(m) ==> m@ == spec_validate_msg(
                spec_validate_code(pairs@, 0, Set::empty()),
            ))
        },
        pairs@.len() == 0 ==> {
            &&& r is Ok <==> date_parts(date@) is Some
            &&& (r matches Ok(p) ==> p.mapping@ == table_of_pairs(
                seeded_pairs(
                    shuffled_alphabet(
                        spec_component_seed(date_parts(date@)->Some_0, sstk as u64),
                    ),
                ),
            ))
            &&& (r matches Err(m) ==> m@ == "The date must be a valid YYYYMMDD date"@)
        },
        r matches Ok(p) ==> p.well_formed(),
{
    if pairs.len() > 0 {
        Plugboard::new(Some(pairs), None)
    } else {
        let parts = match parse_date_ymd(date) {
            Some(p) => p,
            None => {
                return Err("The date must be a valid YYYYMMDD date");
            },
        };
        let seed = seed_base(parts, sstk as u64).wrapping_add(FIXED_HASH);
        Plugboard::new(None, Some(seed))
    }
}

/// Builds the reflector from the seeded pairing of the whole
/// alphabet.
pub fn create_reflector(sstk: usize, date: &str) -> (r: Result<Reflector, &'static str>)
    ensures
        r is Ok <==> date_parts(date@) is Some,
        r matches Err(m) ==> m@ == "The date must be a valid YYYYMMDD date"@,
        r matches Ok(refl) ==> refl.mapping@ == reverse_of(
            seeded_refl_table(
                shuffled_alphabet(spec_component_seed(date_parts(date@)->Some_0, sstk as u64)),
            ),
        ) && refl.well_formed(),
{
    let parts = match parse_date_ymd(date) {
        Some(p) => p,
        None => {
            return Err("The date must be a valid YYYYMMDD date");
        },
    };
    let seed = seed_base(parts, sstk as u64).wrapping_add(FIXED_HASH);
    Reflector::new(None, Some(seed))
}

impl EnigmaMachine {
    /// Well-formedness: at least one rotor, every stage with full
    /// uppercase tables.
    pub open spec fn well_formed(&self) -> bool {
        &&& self.rotors@.len() >= 1
        &&& forall|i: int| 0 <= i < self.rotors@.len() ==> (#[trigger] self.rotors@[i]).well_formed()
        &&& self.reflector.well_formed()
        &&& self.plugboard.well_formed()
    }

    /// One letter through this machine's pipeline at the current
    /// rotor positions.
    pub open spec fn spec_encrypt_char(&self, c: char) -> char {
        enc_char(self.plugboard.mapping@, self.reflector.mapping@, self.rotors@, c)
    }

    /// Creates a letter machine from a seed, a rotor count between
    /// one and five, a `YYYYMMDD` date and a list of plugboard pairs
    /// (an empty list asks for a seeded plugboard).
    pub fn new_from_params(
        sstk: usize,
        n_rt: usize,
        date: &str,
        plugboard_pairs: Vec<(char, char)>,
    ) -> (r: Result<Self, &'static str>)
        ensures
            !(1 <= n_rt <= 5) ==> (r matches Err(m) && m@
                == "Invalid number of rotors. Expected a value between 1 and 5."@),
            1 <= n_rt <= 5 && !pairs_ok(plugboard_pairs@) ==> (r matches Err(m) && m@
                == spec_validate_msg(spec_validate_code(plugboard_pairs@, 0, Set::empty()))),
            1 <= n_rt <= 5 && pairs_ok(plugboard_pairs@) ==> {
                &&& r is Ok <==> date_parts(date@) is Some
                &&& (r matches Err(m) ==> m@ == "The date must be a valid YYYYMMDD date"@)
            },
            r matches Ok(m) ==> {
                let parts = date_parts(date@)->Some_0;
                let cseed = spec_component_seed(parts, sstk as u64);
                &&& m.rotors@.len() == n_rt
                &&& forall|i: int|
                    0 <= i < n_rt ==> {
                        let rot = #[trigger] m.rotors@[i];
                        let seed = spec_rotor_seed(parts, sstk as u64, (i + 1) as u64);
                        &&& rot.mapping@ == shuffled_alphabet(seed)
                        &&& crate::rng::is_alphabet_permutation(rot.mapping@)
                        &&& rot.reverse_mapping@ == reverse_of(shuffled_alphabet(seed))
                        &&& rot.notch == shuffled_alphabet(cseed)[i]
                        &&& rot.position == 0
                    }
                &&& m.reflector.mapping@ == reverse_of(seeded_refl_table(shuffled_alphabet(cseed)))
                &&& m.plugboard.mapping@ == (if plugboard_pairs@.len() > 0 {
                    table_of_pairs(plugboard_pairs@)
                } else {
                    table_of_pairs(seeded_pairs(shuffled_alphabet(cseed)))
                })
                &&& m.vec_plug@ == plugboard_pairs@
                &&& m.well_formed()
                &&& crate::letters::plugboard::letters_involutive(m.plugboard.mapping@)
                &&& crate::letters::plugboard::letters_involutive(m.reflector.mapping@)
                &&& rotors_paired(m.rotors@)
            },
    {
        if n_rt < 1 || n_rt > 5 {
            return Err("Invalid number of rotors. Expected a value between 1 and 5.");
        }

        match Plugboard::validate_plugboard_pairs(plugboard_pairs.as_slice()) {
            Ok(()) => {},
            Err(e) => {
                return Err(e);
            },
        }

        let rotors = match create_rotors(n_rt, sstk, date) {
            Ok(v) => v,
            Err(e) => {
                return Err(e);
            },
        };

        let reflector = match create_reflector(sstk, date) {
            Ok(refl) => refl,
            Err(e) => {
                return Err(e);
            },
        };

        // Keep the pairs in clear text beside the built plugboard.
        let mut vec_plug: Vec<(char, char)> = Vec::new();
        let mut i: usize = 0;
        while i < plugboard_pairs.len()
            invariant
                i <= plugboard_pairs@.len(),
                vec_plug@ =~= plugboard_pairs@.take(i as int),
            decreases plugboard_pairs@.len() - i,
        {
            vec_plug.push(plugboard_pairs[i]);
            i += 1;
        }
        assert(vec_plug@ =~= plugboard_pairs@);

        let plugboard = match create_plugboard(sstk, date, plugboard_pairs) {
            Ok(p) => p,
            Err(e) => {
                proof {
                    assert(false);
                }
                return Err(e);
            },
        };

        let machine = EnigmaMachine { rotors, reflector, plugboard, vec_plug };
        proof {
            let parts = date_parts(date@)->Some_0;
            let alpha = shuffled_alphabet(spec_component_seed(parts, sstk as u64));
            if machine.vec_plug@.len() > 0 {
                crate::letters::plugboard::lemma_plugboard_involutive(machine.vec_plug@);
            } else {
                crate::letters::plugboard::lemma_seeded_pairs_valid(alpha);
                crate::letters::plugboard::lemma_plugboard_involutive(
                    crate::letters::plugboard::seeded_pairs(alpha),
                );
            }
            crate::letters::reflector::lemma_seeded_reflector_involutive(alpha);
            assert forall|i: int|
                0 <= i < machine.rotors@.len() implies crate::rng::is_alphabet_permutation(
                (#[trigger] machine.rotors@[i]).mapping@,
            ) && machine.rotors@[i].reverse_mapping@ == reverse_of(
                machine.rotors@[i].mapping@,
            ) by {}
        }
        Ok(machine)
    }

    /// Encrypts a message of uppercase letters at the current rotor
    /// positions, without stepping.
    pub fn encrypt(&self, message: &str) -> (r: Result<String, &'static str>)
        requires
            self.well_formed(),
        ensures
            r is Ok <==> all_upper(message@),
            r matches Ok(out) ==> out@.len() == message@.len() && (forall|k: int|
                0 <= k < message@.len() ==> (#[trigger] out@[k]) == self.spec_encrypt_char(
                    message@[k],
                )) && all_upper(out@),
            r matches Err(m) ==> m@ == "Invalid character: Must be an ASCII uppercase letter"@,
    {
        let n = message.unicode_len();
        let mut out: Vec<char> = Vec::new();
        let mut i: usize = 0;
        while i < n
            invariant
                i <= n,
                n == message@.len(),
                self.well_formed(),
                out@.len() == i,
                forall|k: int| 0 <= k < i ==> is_upper(#[trigger] message@[k]),
                forall|k: int|
                    0 <= k < i ==> (#[trigger] out@[k]) == self.spec_encrypt_char(message@[k])
                        && is_upper(out@[k]),
            decreases n - i,
        {
            let c = message.get_char(i);
            if !(c >= 'A' && c <= 'Z') {
                return Err("Invalid character: Must be an ASCII uppercase letter");
            }
            let e = self.encrypt_letter(c);
            out.push(e);
            i += 1;
        }
        Ok(chars_to_string(&out))
    }

    /// One uppercase letter through the pipeline.
    fn encrypt_letter(&self, c: char) -> (r: char)
        requires
            self.well_formed(),
            is_upper(c),
        ensures
            r == self.spec_encrypt_char(c),
            is_upper(r),
    {
        let mut value = match self.plugboard.swap(c) {
            Ok(v) => v,
            Err(_) => {
                proof {
                    assert(false);
                }
                c
            },
        };
        let ghost a = value;
        let n = self.rotors.len();
        let mut i: usize = 0;
        while i < n
            invariant
                i <= n,
                n == self.rotors@.len(),
                self.well_formed(),
                is_upper(value),
                fwd_chain(self.rotors@, i as int, value) == fwd_chain(self.rotors@, 0, a),
            decreases n - i,
        {
            value = match self.rotors[i].forward(value) {
                Ok(v) => v,
                Err(_) => {
                    proof {
                        assert(false);
                    }
                    value
                },
            };
            i += 1;
        }

        value = match self.reflector.reflect(value) {
            Ok(v) => v,
            Err(_) => {
                proof {
                    assert(false);
                }
                value
            },
        };
        let ghost d = value;

        let mut j: usize = n;
        while j > 0
            invariant
                j <= n,
                n == self.rotors@.len(),
                self.well_formed(),
                is_upper(value),
                value == rev_chain(self.rotors@, j as int, d),
            decreases j,
        {
            j -= 1;
            value = match self.rotors[j].reverse(value) {
                Ok(v) => v,
                Err(_) => {
                    proof {
                        assert(false);
                    }
                    value
                },
            };
        }

        match self.plugboard.swap(value) {
            Ok(v) => v,
            Err(_) => {
                proof {
                    assert(false);
                }
                value
            },
        }
    }

    /// Groups the uppercase letters of a text into blocks of four
    /// separated by dashes.
    pub fn format_dashed(&self, text: &str) -> (r: String)
        ensures
            r@ == dashed_of(upper_only(text@, 0)),
    {
        let n = text.unicode_len();
        let mut filtered: Vec<char> = Vec::new();
        let mut i: usize = 0;
        while i < n
            invariant
                i <= n,
                n == text@.len(),
                filtered@ + upper_only(text@, i as int) == upper_only(text@, 0),
            decreases n - i,
        {
            let c = text.get_char(i);
            if c >= 'A' && c <= 'Z' {
                filtered.push(c);
            }
            i += 1;
            proof {
                assert(filtered@ + upper_only(text@, i as int) =~= upper_only(text@, 0));
            }
        }
        proof {
            assert(filtered@ =~= upper_only(text@, 0));
        }

        let ghost f = filtered@;
        let flen = filtered.len();
        let mut out: Vec<char> = Vec::new();
        let mut k: usize = 0;
        while k < flen
            invariant
                k <= flen,
                flen == f.len(),
                filtered@ == f,
                k % 4 == 0 || k == flen,
                k == 0 ==> out@.len() == 0,
                k > 0 && k < flen ==> dashed_of(f) == out@ + seq!['-'] + dashed_of(
                    f.skip(k as int),
                ),
                k > 0 && k >= flen ==> out@ == dashed_of(f),
            decreases flen - k,
        {
            let ghost rest = f.skip(k as int);
            if k > 0 {
                out.push('-');
            }
            let ghost out_mid = out@;
            let upto = if flen - k >= 4 {
                k + 4
            } else {
                flen
            };
            let mut m: usize = k;
            while m < upto
                invariant
                    k <= m <= upto <= flen,
                    flen == f.len(),
                    filtered@ == f,
                    out@ == out_mid + f.subrange(k as int, m as int),
                decreases upto - m,
            {
                out.push(filtered[m]);
                m += 1;
            }
            proof {
                if flen - k <= 4 {
                    assert(dashed_of(rest) == rest);
                    assert(f.subrange(k as int, upto as int) =~= rest);
                    assert(out@ =~= out_mid + rest);
                    assert(out@ =~= dashed_of(f));
                } else {
                    assert(dashed_of(rest) == rest.take(4) + seq!['-'] + dashed_of(rest.skip(4)));
                    assert(f.subrange(k as int, upto as int) =~= rest.take(4));
                    assert(f.skip(k as int + 4) =~= rest.skip(4));
                    assert(dashed_of(f) =~= out@ + seq!['-'] + dashed_of(f.skip(upto as int)));
                }
            }
            k = upto;
        }
        proof {
            if flen == 0 {
                assert(out@ =~= dashed_of(f));
            }
        }
        chars_to_string(&out)
    }

    /// Removes every dash from a text.
    pub fn format_continuous(&self, text: &str) -> (r: String)
        ensures
            r@ == cont_of(text@),
    {
        let n = text.unicode_len();
        let mut out: Vec<char> = Vec::new();
        let mut i: usize = 0;
        while i < n
            invariant
                i <= n,
                n == text@.len(),
                out@ == text@.take(i as int).filter(|c: char| c != '-'),
            decreases n - i,
        {
            let c = text.get_char(i);
            if c != '-' {
                out.push(c);
            }
            proof {
                reveal(Seq::filter);
                let t1 = text@.take(i + 1);
                assert(t1.drop_last() =~= text@.take(i as int));
                assert(t1.last() == text@[i as int]);
                assert(out@ == t1.filter(|c: char| c != '-'));
            }
            i += 1;
        }
        proof {
            assert(text@.take(n as int) =~= text@);
        }
        chars_to_string(&out)
    }

    /// Rotates the rotor bank one step: the first rotor always
    /// advances, each later rotor advances only when its predecessor
    /// lands on its notch.
    pub fn step_rotors(&mut self)
        requires
            old(self).well_formed(),
        ensures
            final(self).rotors@ == spec_step_rotors(old(self).rotors@),
            final(self).reflector == old(self).reflector,
            final(self).plugboard == old(self).plugboard,
            final(self).vec_plug == old(self).vec_plug,
            final(self).well_formed(),
    {
        let ghost orig = self.rotors@;
        let n = self.rotors.len();
        let mut should = rotate_at(&mut self.rotors, 0);
        let mut i: usize = 1;
        while i < n && should
            invariant
                1 <= i <= n,
                n == self.rotors@.len(),
                forall|k: int| 0 <= k < n ==> (#[trigger] self.rotors@[k]).well_formed(),
                self.reflector == old(self).reflector,
                self.plugboard == old(self).plugboard,
                self.vec_plug == old(self).vec_plug,
                self.reflector.well_formed(),
                self.plugboard.well_formed(),
                if should {
                    step_from(self.rotors@, i as int) == spec_step_rotors(orig)
                } else {
                    self.rotors@ == spec_step_rotors(orig)
                },
            decreases n - i,
        {
            should = rotate_at(&mut self.rotors, i);
            i += 1;
        }
        proof {
            if should {
                assert(step_from(self.rotors@, i as int) == self.rotors@);
            }
        }
    }

    /// Encrypts a message, stepping the rotors before each ASCII
    /// letter and skipping everything else; a text carrying dashes is
    /// treated as ciphertext and post-processed, anything else is
    /// dash-grouped.  On a well-formed machine the call always
    /// succeeds.
    #[verifier::loop_isolation(false)]
    pub fn encrypt_message(&mut self, text: &str) -> (r: Result<String, &'static str>)
        requires
            old(self).well_formed(),
        ensures
            r is Ok,
            ({
                let run = run_message(
                    old(self).plugboard.mapping@,
                    old(self).reflector.mapping@,
                    old(self).rotors@,
                    text@,
                    0,
                    Seq::empty(),
                    false,
                );
                &&& final(self).rotors@ == run.rotors
                &&& (r matches Ok(out) ==> out@ == message_output(run))
            }),
            final(self).reflector == old(self).reflector,
            final(self).plugboard == old(self).plugboard,
            final(self).vec_plug == old(self).vec_plug,
            final(self).well_formed(),
    {
        let ghost plug = self.plugboard.mapping@;
        let ghost refl = self.reflector.mapping@;
        let ghost orig = self.rotors@;
        let n = text.unicode_len();
        let mut acc: Vec<char> = Vec::new();
        let mut is_cyphred = false;
        let mut i: usize = 0;
        while i < n
            invariant
                i <= n,
                n == text@.len(),
                self.well_formed(),
                self.plugboard == old(self).plugboard,
                self.reflector == old(self).reflector,
                self.vec_plug == old(self).vec_plug,
                plug == self.plugboard.mapping@,
                refl == self.reflector.mapping@,
                run_message(plug, refl, self.rotors@, text@, i as int, acc@, is_cyphred)
                    == run_message(plug, refl, orig, text@, 0, Seq::empty(), false),
            decreases n - i,
        {
            let c = text.get_char(i);
            let ghost rb = self.rotors@;
            let ghost acc_before = acc@;
            if (c >= 'A' && c <= 'Z') || (c >= 'a' && c <= 'z') {
                self.step_rotors();
                let u = if c >= 'a' && c <= 'z' {
                    ((c as u32 - 32) as u8) as char
                } else {
                    c
                };
                assert(u == spec_to_upper(c));
                assert(is_upper(u));
                let e = self.encrypt_letter(u);
                acc.push(e);
                proof {
                    assert(acc@ =~= acc_before.push(
                        enc_char(plug, refl, self.rotors@, spec_to_upper(c)),
                    ));
                    assert(run_message(plug, refl, rb, text@, i as int, acc_before, is_cyphred)
                        == run_message(
                        plug,
                        refl,
                        self.rotors@,
                        text@,
                        i + 1,
                        acc@,
                        is_cyphred,
                    ));
                }
            } else if c == '-' {
                is_cyphred = true;
            }
            i += 1;
        }

        let run_acc = chars_to_string(&acc);
        if is_cyphred {
            let post = crate::text::postprocess_output(run_acc.as_str());
            Ok(self.format_continuous(post.as_str()))
        } else {
            Ok(self.format_dashed(run_acc.as_str()))
        }
    }
}

/// Rotates the rotor at `i` in place and reports its notch signal.
fn rotate_at(rotors: &mut Vec<Rotor>, i: usize) -> (r: bool)
    requires
        i < old(rotors)@.len(),
        old(rotors)@[i as int].well_formed(),
    ensures
        final(rotors)@ == old(rotors)@.update(i as int, rotated(old(rotors)@[i as int])),
        r == rot_signal(old(rotors)@[i as int]),
        final(rotors)@[i as int].well_formed(),
{
    let mut rot = rotors.remove(i);
    let r = rot.rotate();
    rotors.insert(i, rot);
    proof {
        assert(rotors@ =~= old(rotors)@.update(i as int, rotated(old(rotors)@[i as int])));
    }
    r
}

/// A run emits at most one letter per character it reads.
pub proof fn lemma_run_acc_len(
    plug: Seq<char>,
    refl: Seq<char>,
    rotors: Seq<Rotor>,
    text: Seq<char>,
    i: int,
    acc: Seq<char>,
    cyph: bool,
)
    requires
        0 <= i <= text.len(),
    ensures
        run_message(plug, refl, rotors, text, i, acc, cyph).acc.len() <= acc.len() + text.len()
            - i,
    decreases text.len() - i,
{
    if i < text.len() {
        let c = text[i];
        if is_ascii_letter(c) {
            let rot2 = spec_step_rotors(rotors);
            lemma_run_acc_len(
                plug,
                refl,
                rot2,
                text,
                i + 1,
                acc.push(enc_char(plug, refl, rot2, spec_to_upper(c))),
                cyph,
            );
        } else if c == '-' {
            lemma_run_acc_len(plug, refl, rotors, text, i + 1, acc, true);
        } else {
            lemma_run_acc_len(plug, refl, rotors, text, i + 1, acc, cyph);
        }
    }
}

/// Keeping only the uppercase letters never lengthens a text.
pub proof fn lemma_upper_only_len(s: Seq<char>, i: int)
    requires
        0 <= i <= s.len(),
    ensures
        upper_only(s, i).len() <= s.len() - i,
    decreases s.len() - i,
{
    if i < s.len() {
        lemma_upper_only_len(s, i + 1);
    }
}

/// Dash grouping at most doubles a text.
pub proof fn lemma_dashed_len(t: Seq<char>)
    ensures
        dashed_of(t).len() <= 2 * t.len(),
    decreases t.len(),
{
    if t.len() > 4 {
        lemma_dashed_len(t.skip(4));
    }
}

/// The display form of a run is at most twice as long as the letters
/// it emitted.
pub proof fn lemma_message_output_len(run: MessageRun)
    ensures
        message_output(run).len() <= 2 * run.acc.len(),
{
    if run.cyph {
        crate::text::lemma_post_of_len(run.acc, 0);
        crate::text::post_of(run.acc, 0).lemma_filter_len(|c: char| c != '-');
    } else {
        lemma_upper_only_len(run.acc, 0);
        lemma_dashed_len(upper_only(run.acc, 0));
    }
}

/// Every rotor wiring permutes the alphabet and carries its true
/// inverse beside it.
pub open spec fn rotors_paired(rotors: Seq<Rotor>) -> bool {
    forall|i: int|
        0 <= i < rotors.len() ==> crate::rng::is_alphabet_permutation(
            (#[trigger] rotors[i]).mapping@,
        ) && rotors[i].reverse_mapping@ == crate::letters::common::reverse_of(rotors[i].mapping@)
}

/// Both letter chains keep the symbol inside the alphabet.
proof fn lemma_chains_upper(rotors: Seq<Rotor>, i: int, c: char)
    requires
        rotors_paired(rotors),
        is_upper(c),
        0 <= i,
    ensures
        is_upper(fwd_chain(rotors, i, c)),
        is_upper(rev_chain(rotors, i, c)),
    decreases rotors.len() - i,
{
    if i < rotors.len() {
        assert(is_upper(rotors[i].mapping@[spec_index_of(c)]));
        lemma_chains_upper(rotors, i + 1, rotors[i].mapping@[spec_index_of(c)]);
        lemma_chains_upper(rotors, i + 1, c);
        let inner = rev_chain(rotors, i + 1, c);
        crate::letters::rotor::lemma_rotor_tables_inverse(rotors[i].mapping@);
        assert(rev_chain(rotors, i, c) == rotors[i].reverse_mapping@[spec_index_of(inner)]);
        assert(rotors[i].mapping@[spec_index_of(rotors[i].reverse_mapping@[spec_index_of(inner)])]
            == inner);
        assert(is_upper(rotors[i].reverse_mapping@[spec_index_of(inner)])) by {
            assert(crate::letters::common::all_upper(rotors[i].reverse_mapping@)) by {
                crate::letters::common::lemma_invert_writes_upper(rotors[i].mapping@);
            }
        }
    }
}

/// The reverse chain undoes the forward chain and the forward chain
/// undoes the reverse chain, rotor by rotor.
proof fn lemma_chains_inverse(rotors: Seq<Rotor>, i: int, c: char)
    requires
        rotors_paired(rotors),
        is_upper(c),
        0 <= i,
    ensures
        fwd_chain(rotors, i, rev_chain(rotors, i, c)) == c,
        rev_chain(rotors, i, fwd_chain(rotors, i, c)) == c,
    decreases rotors.len() - i,
{
    if i < rotors.len() {
        let rot = rotors[i];
        crate::letters::rotor::lemma_rotor_tables_inverse(rot.mapping@);
        // Forward undoes reverse: the reverse chain applies this
        // rotor last, the forward chain strips it first.
        let inner = rev_chain(rotors, i + 1, c);
        lemma_chains_upper(rotors, i + 1, c);
        assert(rot.mapping@[spec_index_of(rot.reverse_mapping@[spec_index_of(inner)])] == inner);
        lemma_chains_inverse(rotors, i + 1, c);
        // Reverse undoes forward: the forward chain applies this
        // rotor first, the reverse chain strips it last.
        let pushed = rot.mapping@[spec_index_of(c)];
        assert(is_upper(pushed));
        lemma_chains_inverse(rotors, i + 1, pushed);
        assert(rot.reverse_mapping@[spec_index_of(rot.mapping@[spec_index_of(c)])] == c);
    }
}

/// Per-symbol reciprocity of the letter machine: with an involutive
/// plugboard and reflector and paired rotor tables, sending a letter
/// through the pipeline twice at the same rotor positions returns the
/// original letter.
pub proof fn lemma_letters_output_involutive(m: &EnigmaMachine, c: char)
    requires
        crate::letters::plugboard::letters_involutive(m.plugboard.mapping@),
        crate::letters::plugboard::letters_involutive(m.reflector.mapping@),
        rotors_paired(m.rotors@),
        is_upper(c),
    ensures
        m.spec_encrypt_char(m.spec_encrypt_char(c)) == c,
{
    lemma_enc_char_involutive(m.plugboard.mapping@, m.reflector.mapping@, m.rotors@, c);
}

/// The same reciprocity, over the raw stage tables.
pub proof fn lemma_enc_char_involutive(
    plug: Seq<char>,
    refl: Seq<char>,
    rotors: Seq<Rotor>,
    c: char,
)
    requires
        crate::letters::plugboard::letters_involutive(plug),
        crate::letters::plugboard::letters_involutive(refl),
        rotors_paired(rotors),
        is_upper(c),
    ensures
        enc_char(plug, refl, rotors, enc_char(plug, refl, rotors, c)) == c,
        is_upper(enc_char(plug, refl, rotors, c)),
{
    let a = plug[spec_index_of(c)];
    assert(is_upper(a));
    let b = fwd_chain(rotors, 0, a);
    lemma_chains_upper(rotors, 0, a);
    let d = refl[spec_index_of(b)];
    assert(is_upper(d));
    let e = rev_chain(rotors, 0, d);
    lemma_chains_upper(rotors, 0, d);
    let y = plug[spec_index_of(e)];
    assert(is_upper(y));

    // The second pass unwinds the first, stage by stage.
    lemma_table_pair(plug, e);
    lemma_chains_inverse(rotors, 0, d);
    lemma_table_pair(refl, b);
    lemma_chains_inverse(rotors, 0, a);
    lemma_table_pair(plug, c);
}

/// Following an involutive letter table twice returns the start.
proof fn lemma_table_pair(t: Seq<char>, c: char)
    requires
        crate::letters::plugboard::letters_involutive(t),
        is_upper(c),
    ensures
        t[spec_index_of(t[spec_index_of(c)])] == c,
{
    let i = spec_index_of(c);
    assert(t[spec_index_of(t[i])] == crate::letters::common::spec_letter_at(i));
    crate::letters::common::lemma_letter_index(i);
    assert(crate::letters::common::spec_letter_at(i) as int == c as int);
}


/// The uppercased ASCII letters of a text from position `i` on, in
/// order: exactly the characters the message loop encrypts.
pub open spec fn letters_of(s: Seq<char>, i: int) -> Seq<char>
    decreases s.len() - i,
{
    if i < 0 || i >= s.len() {
        Seq::empty()
    } else {
        (if is_ascii_letter(s[i]) {
            seq![spec_to_upper(s[i])]
        } else {
            Seq::<char>::empty()
        }) + letters_of(s, i + 1)
    }
}

/// Whether a dash occurs from position `i` on.
pub open spec fn has_dash(s: Seq<char>, i: int) -> bool
    decreases s.len() - i,
{
    if i < 0 || i >= s.len() {
        false
    } else {
        s[i] == '-' || has_dash(s, i + 1)
    }
}

/// The run over a letters-only sequence: one step and one encrypted
/// letter per element, from position `k` on.
pub open spec fn run_core(
    plug: Seq<char>,
    refl: Seq<char>,
    rotors: Seq<Rotor>,
    letters: Seq<char>,
    k: int,
) -> (Seq<Rotor>, Seq<char>)
    decreases letters.len() - k,
{
    if k < 0 || k >= letters.len() {
        (rotors, Seq::empty())
    } else {
        let rot2 = spec_step_rotors(rotors);
        let rest = run_core(plug, refl, rot2, letters, k + 1);
        (rest.0, seq![enc_char(plug, refl, rot2, letters[k])] + rest.1)
    }
}

/// Prepending one element shifts the core run by one position.
proof fn lemma_run_core_shift(
    plug: Seq<char>,
    refl: Seq<char>,
    rotors: Seq<Rotor>,
    x: char,
    s: Seq<char>,
    k: int,
)
    requires
        0 <= k,
    ensures
        run_core(plug, refl, rotors, seq![x] + s, k + 1) == run_core(plug, refl, rotors, s, k),
    decreases s.len() - k,
{
    if k < s.len() {
        assert((seq![x] + s)[k + 1] == s[k]);
        lemma_run_core_shift(plug, refl, spec_step_rotors(rotors), x, s, k + 1);
    }
}

/// Stepping the bank changes positions only, never the tables.
proof fn lemma_step_preserves_paired(rotors: Seq<Rotor>, i: int)
    requires
        rotors_paired(rotors),
        0 <= i,
    ensures
        rotors_paired(step_from(rotors, i)),
    decreases rotors.len() - i,
{
    if 0 <= i < rotors.len() {
        let r = rotors[i];
        let stepped = rotors.update(i, rotated(r));
        assert(rotors_paired(stepped));
        if rot_signal(r) {
            lemma_step_preserves_paired(stepped, i + 1);
        }
    }
}

/// A core run emits one uppercase letter per input letter.
proof fn lemma_run_core_upper(
    plug: Seq<char>,
    refl: Seq<char>,
    rotors: Seq<Rotor>,
    letters: Seq<char>,
    k: int,
)
    requires
        crate::letters::plugboard::letters_involutive(plug),
        crate::letters::plugboard::letters_involutive(refl),
        rotors_paired(rotors),
        all_upper(letters),
        0 <= k,
    ensures
        run_core(plug, refl, rotors, letters, k).1.len() == (if k <= letters.len() {
            letters.len() - k
        } else {
            0
        }),
        all_upper(run_core(plug, refl, rotors, letters, k).1),
        rotors_paired(run_core(plug, refl, rotors, letters, k).0),
    decreases letters.len() - k,
{
    if k < letters.len() {
        let rot2 = spec_step_rotors(rotors);
        lemma_step_preserves_paired(rotors, 0);
        lemma_run_core_upper(plug, refl, rot2, letters, k + 1);
        lemma_enc_char_involutive(plug, refl, rot2, letters[k]);
        assert forall|j: int|
            0 <= j < run_core(plug, refl, rotors, letters, k).1.len() implies is_upper(
            #[trigger] run_core(plug, refl, rotors, letters, k).1[j],
        ) by {
            if j > 0 {
                assert(run_core(plug, refl, rotors, letters, k).1[j] == run_core(
                    plug,
                    refl,
                    rot2,
                    letters,
                    k + 1,
                ).1[j - 1]);
            }
        }
    }
}

/// A message run is the core run over the text's letters, appended to
/// the starting accumulator, with the dash flag read off the text.
proof fn lemma_run_message_core(
    plug: Seq<char>,
    refl: Seq<char>,
    rotors: Seq<Rotor>,
    text: Seq<char>,
    i: int,
    acc: Seq<char>,
    cyph: bool,
)
    requires
        0 <= i <= text.len(),
    ensures
        run_message(plug, refl, rotors, text, i, acc, cyph) == (MessageRun {
            rotors: run_core(plug, refl, rotors, letters_of(text, i), 0).0,
            acc: acc + run_core(plug, refl, rotors, letters_of(text, i), 0).1,
            cyph: cyph || has_dash(text, i),
        }),
    decreases text.len() - i,
{
    let ls = letters_of(text, i);
    if i >= text.len() {
        assert(acc + ls =~= acc);
        assert(run_core(plug, refl, rotors, ls, 0) == (rotors, Seq::<char>::empty()));
        assert(acc + run_core(plug, refl, rotors, ls, 0).1 =~= acc);
    } else {
        let c = text[i];
        let ls2 = letters_of(text, i + 1);
        if is_ascii_letter(c) {
            let rot2 = spec_step_rotors(rotors);
            let u = spec_to_upper(c);
            let e = enc_char(plug, refl, rot2, u);
            lemma_run_message_core(plug, refl, rot2, text, i + 1, acc.push(e), cyph);
            assert(ls == seq![u] + ls2);
            assert(ls[0] == u);
            lemma_run_core_shift(plug, refl, rot2, u, ls2, 0);
            assert(run_core(plug, refl, rot2, ls, 1) == run_core(plug, refl, rot2, ls2, 0));
            assert(run_core(plug, refl, rotors, ls, 0).1 == seq![e] + run_core(
                plug,
                refl,
                rot2,
                ls2,
                0,
            ).1);
            assert(acc.push(e) + run_core(plug, refl, rot2, ls2, 0).1 =~= acc + (seq![e]
                + run_core(plug, refl, rot2, ls2, 0).1));
        } else if c == '-' {
            lemma_run_message_core(plug, refl, rotors, text, i + 1, acc, true);
            assert(ls =~= ls2);
        } else {
            lemma_run_message_core(plug, refl, rotors, text, i + 1, acc, cyph);
            assert(ls =~= ls2);
        }
    }
}

/// Running the core twice from the same starting bank returns the
/// original letters: the second run steps through the same positions
/// and undoes each substitution.
proof fn lemma_run_core_inverse(
    plug: Seq<char>,
    refl: Seq<char>,
    rotors: Seq<Rotor>,
    xs: Seq<char>,
)
    requires
        crate::letters::plugboard::letters_involutive(plug),
        crate::letters::plugboard::letters_involutive(refl),
        rotors_paired(rotors),
        all_upper(xs),
    ensures
        run_core(plug, refl, rotors, run_core(plug, refl, rotors, xs, 0).1, 0).1 == xs,
    decreases xs.len(),
{
    if xs.len() > 0 {
        let x = xs[0];
        let tail = xs.drop_first();
        assert(xs =~= seq![x] + tail);
        let rot2 = spec_step_rotors(rotors);
        lemma_step_preserves_paired(rotors, 0);
        lemma_run_core_shift(plug, refl, rot2, x, tail, 0);
        let e = enc_char(plug, refl, rot2, x);
        let ys_tail = run_core(plug, refl, rot2, tail, 0).1;
        let ys = run_core(plug, refl, rotors, xs, 0).1;
        assert(ys == seq![e] + ys_tail);
        lemma_enc_char_involutive(plug, refl, rot2, x);
        lemma_run_core_upper(plug, refl, rot2, tail, 0);
        // The second run sees the same first step and strips it.
        assert(ys[0] == e);
        lemma_run_core_shift(plug, refl, rot2, e, ys_tail, 0);
        assert(run_core(plug, refl, rot2, ys, 1) == run_core(plug, refl, rot2, ys_tail, 0));
        lemma_run_core_inverse(plug, refl, rot2, tail);
        assert(run_core(plug, refl, rotors, ys, 0).1 == seq![enc_char(plug, refl, rot2, e)]
            + run_core(plug, refl, rot2, ys_tail, 0).1);
        assert(enc_char(plug, refl, rot2, e) == x);
        assert(seq![x] + tail == xs);
    } else {
        assert(run_core(plug, refl, rotors, xs, 0).1 =~= Seq::<char>::empty());
    }
}

/// An all-uppercase text is its own letter extraction.
proof fn lemma_letters_of_upper_id(s: Seq<char>, i: int)
    requires
        all_upper(s),
        0 <= i <= s.len(),
    ensures
        letters_of(s, i) =~= s.skip(i),
        !has_dash(s, i),
    decreases s.len() - i,
{
    if i < s.len() {
        lemma_letters_of_upper_id(s, i + 1);
        assert(letters_of(s, i) =~= seq![s[i]] + s.skip(i + 1));
    }
}

/// An all-uppercase text is its own uppercase filtering.
proof fn lemma_upper_only_id(s: Seq<char>, i: int)
    requires
        all_upper(s),
        0 <= i <= s.len(),
    ensures
        upper_only(s, i) =~= s.skip(i),
    decreases s.len() - i,
{
    if i < s.len() {
        lemma_upper_only_id(s, i + 1);
        assert(upper_only(s, i) =~= seq![s[i]] + s.skip(i + 1));
    }
}

/// A dash-free text keeps every character under dash removal.
proof fn lemma_cont_of_id(s: Seq<char>)
    requires
        forall|i: int| 0 <= i < s.len() ==> s[i] != '-',
    ensures
        cont_of(s) == s,
    decreases s.len(),
{
    reveal(Seq::filter);
    if s.len() > 0 {
        lemma_cont_of_id(s.drop_last());
        assert(cont_of(s) =~= s);
    } else {
        assert(cont_of(s) =~= s);
    }
}

/// Letter extraction from a position past a prefix reads the suffix.
proof fn lemma_letters_of_shift(a: Seq<char>, b: Seq<char>, j: int)
    requires
        0 <= j <= b.len(),
    ensures
        letters_of(a + b, a.len() + j) == letters_of(b, j),
        has_dash(a + b, a.len() + j) == has_dash(b, j),
    decreases b.len() - j,
{
    if j < b.len() {
        assert((a + b)[a.len() + j] == b[j]);
        lemma_letters_of_shift(a, b, j + 1);
    }
}

/// Letter extraction and dash detection distribute over
/// concatenation.
proof fn lemma_letters_of_concat(a: Seq<char>, b: Seq<char>, i: int)
    requires
        0 <= i <= a.len(),
    ensures
        letters_of(a + b, i) == letters_of(a, i) + letters_of(b, 0),
        has_dash(a + b, i) == (has_dash(a, i) || has_dash(b, 0)),
    decreases a.len() - i,
{
    if i < a.len() {
        assert((a + b)[i] == a[i]);
        lemma_letters_of_concat(a, b, i + 1);
        if is_ascii_letter(a[i]) {
            assert(letters_of(a + b, i) =~= (seq![spec_to_upper(a[i])] + letters_of(a, i + 1))
                + letters_of(b, 0));
        }
    } else {
        lemma_letters_of_shift(a, b, 0);
        assert(letters_of(a, i) =~= Seq::<char>::empty());
        assert(letters_of(a, i) + letters_of(b, 0) =~= letters_of(b, 0));
    }
}

/// Dash grouping adds only dashes: the letters of a grouped text are
/// the text itself, and a dash appears exactly when there is more
/// than one block.
proof fn lemma_letters_of_dashed(acc: Seq<char>)
    requires
        all_upper(acc),
    ensures
        letters_of(dashed_of(acc), 0) == acc,
        has_dash(dashed_of(acc), 0) == (acc.len() > 4),
    decreases acc.len(),
{
    if acc.len() <= 4 {
        lemma_letters_of_upper_id(acc, 0);
        assert(letters_of(acc, 0) =~= acc);
    } else {
        let head = acc.take(4);
        let rest = seq!['-'] + dashed_of(acc.skip(4));
        assert(dashed_of(acc) == head + rest);
        lemma_letters_of_concat(head, rest, 0);
        assert(all_upper(head));
        lemma_letters_of_upper_id(head, 0);
        assert(letters_of(head, 0) =~= head);
        assert(all_upper(acc.skip(4)));
        lemma_letters_of_dashed(acc.skip(4));
        assert(rest[0] == '-');
        assert(letters_of(rest, 0) == letters_of(rest, 1));
        lemma_letters_of_shift(seq!['-'], dashed_of(acc.skip(4)), 0);
        assert(rest =~= seq!['-'] + dashed_of(acc.skip(4)));
        assert(letters_of(rest, 1) == letters_of(dashed_of(acc.skip(4)), 0));
        assert(letters_of(dashed_of(acc), 0) =~= head + acc.skip(4));
        assert(head + acc.skip(4) =~= acc);
        assert(has_dash(rest, 0));
    }
}

/// Round trip of the message loop: encrypting a text of uppercase
/// letters free of the escape letter, and then encrypting the output
/// again from the same starting bank, returns the text.  An input
/// that holds the escape letter can decode differently (for example a
/// text that begins with the escape letter followed by a letter from
/// the digit range), so it is left out.
pub proof fn lemma_encrypt_message_roundtrip(
    plug: Seq<char>,
    refl: Seq<char>,
    rotors: Seq<Rotor>,
    plaintext: Seq<char>,
)
    requires
        crate::letters::plugboard::letters_involutive(plug),
        crate::letters::plugboard::letters_involutive(refl),
        rotors_paired(rotors),
        all_upper(plaintext),
        forall|i: int| 0 <= i < plaintext.len() ==> plaintext[i] != 'X',
    ensures
        ({
            let r1 = run_message(plug, refl, rotors, plaintext, 0, Seq::empty(), false);
            let r2 = run_message(plug, refl, rotors, message_output(r1), 0, Seq::empty(), false);
            message_output(r2) == plaintext
        }),
{
    let r1 = run_message(plug, refl, rotors, plaintext, 0, Seq::empty(), false);
    lemma_run_message_core(plug, refl, rotors, plaintext, 0, Seq::empty(), false);
    lemma_letters_of_upper_id(plaintext, 0);
    assert(letters_of(plaintext, 0) == plaintext) by {
        assert(plaintext.skip(0) =~= plaintext);
    }
    let acc1 = run_core(plug, refl, rotors, plaintext, 0).1;
    assert(r1.acc =~= acc1);
    assert(!r1.cyph);
    lemma_run_core_upper(plug, refl, rotors, plaintext, 0);
    lemma_upper_only_id(acc1, 0);
    assert(upper_only(acc1, 0) =~= acc1);
    let out1 = message_output(r1);
    assert(out1 == dashed_of(acc1)) by {
        assert(upper_only(r1.acc, 0) == upper_only(acc1, 0));
        assert(acc1.skip(0) =~= acc1);
    }

    let r2 = run_message(plug, refl, rotors, out1, 0, Seq::empty(), false);
    lemma_run_message_core(plug, refl, rotors, out1, 0, Seq::empty(), false);
    lemma_letters_of_dashed(acc1);
    assert(r2.acc =~= run_core(plug, refl, rotors, acc1, 0).1);
    lemma_run_core_inverse(plug, refl, rotors, plaintext);
    assert(r2.acc =~= plaintext);
    assert(r2.cyph == (acc1.len() > 4));
    assert(acc1.len() == plaintext.len());
    if plaintext.len() > 4 {
        crate::text::lemma_post_of_id(r2.acc, 0);
        assert(crate::text::post_of(r2.acc, 0) =~= plaintext) by {
            assert(plaintext.skip(0) =~= plaintext);
        }
        lemma_cont_of_id(plaintext);
        assert(message_output(r2) == plaintext);
    } else {
        lemma_upper_only_id(r2.acc, 0);
        assert(upper_only(r2.acc, 0) =~= plaintext);
        assert(dashed_of(plaintext) == plaintext);
        assert(message_output(r2) == dashed_of(upper_only(r2.acc, 0)));
    }
}

} // verus!
