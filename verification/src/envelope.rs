//! The message envelope: the letter machine's output framed with its
//! configuration, sealed with AES-GCM and rendered as base64.

use vstd::prelude::*;
use vstd::string::{StrSliceExecFns, StringExecFns, StringSliceAdditionalSpecFns};
use base64::Engine;
use openssl::symm::{Cipher, Crypter, Mode};
use crate::config::Config;
use crate::dates::{date_parts, today_ymd};
use crate::letters::machine::{message_output, run_message, EnigmaMachine};
use crate::numerals::{dec_str, decimal_string, digits_val, numeral_body, parses_within};
use crate::text::chars_to_string;

verus! {

/// The error type of the AES layer.
#[verifier::external_type_specification]
#[verifier::external_body]
pub struct ExErrorStack(openssl::error::ErrorStack);

/// The AES-256-GCM sealing of a byte message under a key and an
/// initialization vector: ciphertext with the 16-byte tag appended.
/// The result depends on the three arguments alone.
pub uninterp spec fn aes_seal(msg: Seq<u8>, key: Seq<u8>, iv: Seq<u8>) -> Seq<u8>;

/// The base64 (standard alphabet, padded) rendering of bytes.
pub uninterp spec fn b64std_of(b: Seq<u8>) -> Seq<char>;

/// The text that trimming whitespace from both ends leaves.
pub uninterp spec fn trimmed(s: Seq<char>) -> Seq<char>;

/// The Unicode-uppercased form of a text.
pub uninterp spec fn upper_of(s: Seq<char>) -> Seq<char>;

/// The characters that lossy UTF-8 decoding reads from bytes.
pub uninterp spec fn lossy_of(b: Seq<u8>) -> Seq<char>;

/// Relies on `openssl::symm::Crypter` in AES-256-GCM encrypt mode:
/// sealing is deterministic in message, key and IV and appends the
/// 16-byte authentication tag, so the output is 16 bytes longer than
/// the message; with a 32-byte key and a 16-byte IV, sealing
/// succeeds.  Messages beyond a 32-bit signed byte count would abort
/// inside the cipher, so they are excluded here and rejected by the
/// public wrapper.
#[verifier::external_body]
fn encrypt_aes_raw(message: &str, key: &[u8], iv: &[u8]) -> (r: Result<
    Vec<u8>,
    openssl::error::ErrorStack,
>)
    requires
        message.spec_bytes().len() <= 0x7fffffff,
    ensures
        r matches Ok(b) ==> b@ == aes_seal(message.spec_bytes(), key@, iv@) && b@.len()
            == message.spec_bytes().len() + 16,
        key@.len() == 32 && iv@.len() == 16 ==> r is Ok,
{
    let cipher = Cipher::aes_256_gcm();
    let mut encrypted = vec![0; message.len() + cipher.block_size()];
    let mut crypter = Crypter::new(cipher, Mode::Encrypt, key, Some(iv))?;
    crypter.aad_update(&[])?;
    let count = crypter.update(message.as_bytes(), &mut encrypted)?;
    let rest = crypter.finalize(&mut encrypted[count..])?;
    encrypted.truncate(count + rest);
    let mut tag = vec![0; 16];
    crypter.get_tag(&mut tag)?;
    encrypted.extend_from_slice(&tag);
    Ok(encrypted)
}

/// Seals a message: messages beyond a 32-bit signed byte count are
/// rejected, everything else goes to the AES layer.
pub fn encrypt_aes(message: &str, key: &[u8], iv: &[u8]) -> (r: Result<
    Vec<u8>,
    openssl::error::ErrorStack,
>)
    ensures
        r matches Ok(b) ==> b@ == aes_seal(message.spec_bytes(), key@, iv@) && b@.len()
            == message.spec_bytes().len() + 16,
        key@.len() == 32 && iv@.len() == 16 && message.spec_bytes().len() <= 0x7fffffff ==> r
            is Ok,
        r is Ok ==> message.spec_bytes().len() <= 0x7fffffff,
{
    if message.as_bytes().len() > 0x7fffffff {
        return Err(error_stack_get());
    }
    encrypt_aes_raw(message, key, iv)
}

/// Relies on `openssl::symm::Crypter` in AES-256-GCM decrypt mode:
/// opening a sealed message under the same key and IV returns the
/// sealed bytes, the tag having authenticated.  Inputs beyond a
/// 32-bit signed byte count of ciphertext would abort inside the
/// cipher, so they are excluded here and rejected by the public
/// wrapper.
#[verifier::external_body]
fn decrypt_aes_raw(encrypted_message: &[u8], key: &[u8], iv: &[u8]) -> (r: Result<
    Vec<u8>,
    openssl::error::ErrorStack,
>)
    requires
        16 <= encrypted_message@.len() <= 0x7fffffff + 16,
    ensures
        forall|m: Seq<u8>|
            encrypted_message@ == #[trigger] aes_seal(m, key@, iv@) ==> r is Ok && r->Ok_0@ == m,
{
    let cipher = Cipher::aes_256_gcm();
    let (data, tag) = encrypted_message.split_at(encrypted_message.len() - 16);
    let mut decrypted = vec![0; data.len() + cipher.block_size()];
    let mut crypter = Crypter::new(cipher, Mode::Decrypt, key, Some(iv))?;
    crypter.aad_update(&[])?;
    let count = crypter.update(data, &mut decrypted)?;
    crypter.set_tag(tag)?;
    let rest = crypter.finalize(&mut decrypted[count..])?;
    decrypted.truncate(count + rest);
    Ok(decrypted)
}

/// Relies on `openssl::error::ErrorStack::get`: reads the thread's
/// error queue to report a rejected input.
#[verifier::external_body]
fn error_stack_get() -> openssl::error::ErrorStack {
    openssl::error::ErrorStack::get()
}

/// Relies on the `Display` rendering of `openssl::error::ErrorStack`.
#[verifier::external_body]
fn error_stack_text(e: &openssl::error::ErrorStack) -> String {
    format!("{}", e)
}

/// Opens a sealed message: inputs shorter than the 16-byte tag or
/// beyond a 32-bit signed byte count of ciphertext are rejected,
/// everything else goes to the AES layer.
pub fn decrypt_aes(encrypted_message: &[u8], key: &[u8], iv: &[u8]) -> (r: Result<
    Vec<u8>,
    openssl::error::ErrorStack,
>)
    ensures
        16 <= encrypted_message@.len() <= 0x7fffffff + 16 ==> (forall|m: Seq<u8>|
            encrypted_message@ == #[trigger] aes_seal(m, key@, iv@) ==> r is Ok && r->Ok_0@ == m),
        encrypted_message@.len() < 16 ==> r is Err,
{
    if encrypted_message.len() < 16 {
        return Err(error_stack_get());
    }
    if encrypted_message.len() > 0x7fffffff + 16 {
        return Err(error_stack_get());
    }
    decrypt_aes_raw(encrypted_message, key, iv)
}

/// Relies on `base64::engine::general_purpose::STANDARD.encode`: the
/// rendering depends on the bytes alone, and every character of it is
/// a visible ASCII character (the base64 alphabet and the padding
/// sign).
#[verifier::external_body]
fn b64std_encode(bytes: &[u8]) -> (r: String)
    ensures
        r@ == b64std_of(bytes@),
        forall|i: int| 0 <= i < r@.len() ==> ascii_graphic(#[trigger] r@[i]),
{
    base64::engine::general_purpose::STANDARD.encode(bytes)
}

/// Relies on `base64::engine::general_purpose::STANDARD.decode`:
/// exactly the standard base64 renderings decode, back to the bytes
/// they render; the error carries the decoder's own message.
#[verifier::external_body]
fn b64std_decode(s: &str) -> (r: Result<Vec<u8>, String>)
    ensures
        r matches Ok(b) ==> s@ == b64std_of(b@),
        forall|bs: Seq<u8>| s@ == #[trigger] b64std_of(bs) ==> r is Ok && r->Ok_0@ == bs,
{
    base64::engine::general_purpose::STANDARD.decode(s).map_err(|e| e.to_string())
}

/// A visible ASCII character; none of these is Unicode whitespace,
/// so trimming never touches them.
pub open spec fn ascii_graphic(c: char) -> bool {
    33 <= (c as int) && (c as int) <= 126
}

/// Relies on `str::trim`: whitespace is removed from both ends and
/// nothing else, so the result is never longer than the input and a
/// text of visible ASCII characters is returned unchanged.
#[verifier::external_body]
fn trim_str(s: &str) -> (r: String)
    ensures
        r@ == trimmed(s@),
        r@.len() <= s@.len(),
        s@.len() == 0 ==> r@.len() == 0,
        (forall|i: int| 0 <= i < s@.len() ==> ascii_graphic(#[trigger] s@[i])) ==> r@ == s@,
{
    s.trim().to_string()
}

/// An ASCII character that is not a lowercase letter; Unicode
/// uppercasing leaves it unchanged.
pub open spec fn upper_fixed(c: char) -> bool {
    (c as int) < 128 && !('a' <= c && c <= 'z')
}

/// Relies on `str::to_uppercase`: the result depends on the
/// characters alone, and ASCII characters that are not lowercase
/// letters pass through unchanged.
#[verifier::external_body]
fn uppercase_str(s: &str) -> (r: String)
    ensures
        r@ == upper_of(s@),
        (forall|i: int| 0 <= i < s@.len() ==> upper_fixed(#[trigger] s@[i])) ==> r@ == s@,
{
    s.to_uppercase()
}

/// Relies on `String::from_utf8_lossy`: the reading depends on the
/// bytes alone, and ASCII bytes decode to their own characters.
#[verifier::external_body]
fn utf8_lossy(bytes: &[u8]) -> (r: String)
    ensures
        r@ == lossy_of(bytes@),
        (forall|i: int| 0 <= i < bytes@.len() ==> (#[trigger] bytes@[i]) < 128) ==> (r@.len()
            == bytes@.len() && (forall|i: int|
            0 <= i < bytes@.len() ==> r@[i] == (#[trigger] bytes@[i]) as char)),
{
    String::from_utf8_lossy(bytes).into_owned()
}

/// The plugboard pairs written out flat: both letters of each pair in
/// order.
pub open spec fn flat_pairs(pairs: Seq<(char, char)>) -> Seq<char>
    decreases pairs.len(),
{
    if pairs.len() == 0 {
        Seq::empty()
    } else {
        flat_pairs(pairs.drop_last()) + seq![pairs.last().0, pairs.last().1]
    }
}

/// Writes the plugboard pairs out flat.
fn flatten_pairs(pairs: &[(char, char)]) -> (r: Vec<char>)
    ensures
        r@ == flat_pairs(pairs@),
{
    let mut out: Vec<char> = Vec::new();
    let n = pairs.len();
    let mut i: usize = 0;
    while i < n
        invariant
            i <= n,
            n == pairs@.len(),
            out@ == flat_pairs(pairs@.take(i as int)),
        decreases n - i,
    {
        let (a, b) = pairs[i];
        out.push(a);
        out.push(b);
        proof {
            assert(pairs@.take(i + 1).drop_last() =~= pairs@.take(i as int));
            assert(pairs@.take(i + 1).last() == pairs@[i as int]);
        }
        i += 1;
    }
    proof {
        assert(pairs@.take(n as int) =~= pairs@);
    }
    out
}

/// The pre-message: a date the clock supplied, a pipe, and the
/// plugboard pairs written out flat.
pub fn collect_pre_message(plugboard_pairs: &[(char, char)]) -> (r: String)
    ensures
        exists|d: Seq<char>|
            #[trigger] date_parts(d) is Some && d.len() == 8 && r@ == d + seq!['|'] + flat_pairs(
                plugboard_pairs@,
            ),
{
    let date = today_ymd();
    let flat = flatten_pairs(plugboard_pairs);
    let mut out = date;
    out.append("|");
    let flat_str = chars_to_string(&flat);
    out.append(flat_str.as_str());
    proof {
        assert("|"@ =~= seq!['|']) by {
            reveal_strlit("|");
        }
    }
    out
}

/// The framed envelope text: seed, rotor count, date, flat plugboard
/// pairs and payload, separated by pipes.
pub open spec fn framed(
    sstk: int,
    n_rt: int,
    date: Seq<char>,
    plug: Seq<char>,
    payload: Seq<char>,
) -> Seq<char> {
    dec_str(sstk) + seq!['|'] + dec_str(n_rt) + seq!['|'] + date + seq!['|'] + plug + seq!['|']
        + payload
}

/// The flat pair list holds two letters per pair.
pub proof fn lemma_flat_pairs_len(pairs: Seq<(char, char)>)
    ensures
        flat_pairs(pairs).len() == 2 * pairs.len(),
    decreases pairs.len(),
{
    if pairs.len() > 0 {
        lemma_flat_pairs_len(pairs.drop_last());
    }
}

/// A character encodes to at most four bytes.
pub proof fn lemma_encode_utf8_len(chars: Seq<char>)
    ensures
        vstd::utf8::encode_utf8(chars).len() <= 4 * chars.len(),
    decreases chars.len(),
{
    if chars.len() > 0 {
        lemma_encode_utf8_len(chars.drop_first());
    }
}

/// The pieces of a text split at every pipe.
pub open spec fn split_pipes(s: Seq<char>) -> Seq<Seq<char>>
    decreases s.len(),
{
    let q = first_pipe(s, 0);
    if q < 0 || q >= s.len() {
        seq![s]
    } else {
        seq![s.take(q)] + split_pipes(s.skip(q + 1))
    }
}

/// Position of the first pipe from `i` on, or the length when there
/// is none.
pub open spec fn first_pipe(s: Seq<char>, i: int) -> int
    decreases s.len() - i,
{
    if i < 0 || i >= s.len() {
        s.len() as int
    } else if s[i] == '|' {
        i
    } else {
        first_pipe(s, i + 1)
    }
}

/// The value of a numeral piece, or the fallback when it is none.
pub open spec fn parse_or(s: Seq<char>, default: int) -> int {
    if parses_within(s, usize::MAX as int) {
        digits_val(numeral_body(s))
    } else {
        default
    }
}

/// The plugboard pairs read from a flat letter list, two letters per
/// pair, a trailing odd letter dropped.
pub open spec fn pairs_of(s: Seq<char>) -> Seq<(char, char)> {
    Seq::new(s.len() / 2, |i: int| (s[2 * i], s[2 * i + 1]))
}

/// A pipe with no pipe before it is the first pipe.
proof fn lemma_first_pipe_char(s: Seq<char>, i: int, p: int)
    requires
        0 <= i <= p < s.len(),
        s[p] == '|',
        forall|j: int| i <= j < p ==> s[j] != '|',
    ensures
        first_pipe(s, i) == p,
    decreases p - i,
{
    if i < p {
        lemma_first_pipe_char(s, i + 1, p);
    }
}

/// With no pipe at all, the first pipe is the length.
proof fn lemma_first_pipe_none(s: Seq<char>, i: int)
    requires
        0 <= i <= s.len(),
        forall|j: int| i <= j < s.len() ==> s[j] != '|',
    ensures
        first_pipe(s, i) == s.len(),
    decreases s.len() - i,
{
    if i < s.len() {
        lemma_first_pipe_none(s, i + 1);
    }
}

/// The views of a list of character lists.
pub open spec fn views_of(ps: Seq<Vec<char>>) -> Seq<Seq<char>> {
    ps.map_values(|v: Vec<char>| v@)
}

/// Splits a character list at every pipe.
fn split_at_pipes(chars: &Vec<char>) -> (r: Vec<Vec<char>>)
    ensures
        r@.len() == split_pipes(chars@).len(),
        forall|k: int| 0 <= k < r@.len() ==> (#[trigger] r@[k])@ == split_pipes(chars@)[k],
{
    let s = chars;
    let n = s.len();
    let mut parts: Vec<Vec<char>> = Vec::new();
    let mut cur: Vec<char> = Vec::new();
    let mut st: usize = 0;
    let mut i: usize = 0;
    proof {
        assert(s@.skip(0) =~= s@);
        assert(views_of(parts@) =~= Seq::<Seq<char>>::empty());
        assert(views_of(parts@) + split_pipes(s@.skip(0)) =~= split_pipes(s@));
    }
    while i < n
        invariant
            st <= i <= n,
            n == s@.len(),
            cur@ == s@.subrange(st as int, i as int),
            forall|j: int| st <= j < i ==> s@[j] != '|',
            views_of(parts@) + split_pipes(s@.skip(st as int)) == split_pipes(s@),
        decreases n - i,
    {
        let c = s[i];
        if c == '|' {
            let ghost parts0 = parts@;
            let ghost cur0 = cur@;
            let ghost suffix = s@.skip(st as int);
            proof {
                assert(suffix[i - st] == '|');
                assert forall|j: int| 0 <= j < i - st implies suffix[j] != '|' by {
                    assert(suffix[j] == s@[st + j]);
                }
                lemma_first_pipe_char(suffix, 0, i - st);
                assert(suffix.take(i - st) =~= cur@);
                assert(suffix.skip(i - st + 1) =~= s@.skip(i + 1));
                assert(split_pipes(suffix) == seq![cur0] + split_pipes(s@.skip(i + 1)));
            }
            parts.push(cur);
            cur = Vec::new();
            st = i + 1;
            proof {
                assert(views_of(parts@) =~= views_of(parts0) + seq![cur0]);
                assert(views_of(parts@) + split_pipes(s@.skip(st as int)) =~= views_of(parts0)
                    + split_pipes(suffix));
                assert(views_of(parts@) + split_pipes(s@.skip(st as int)) =~= split_pipes(s@));
            }
        } else {
            cur.push(c);
        }
        i += 1;
        proof {
            assert(cur@ =~= s@.subrange(st as int, i as int));
        }
    }
    let ghost parts0 = parts@;
    let ghost suffix = s@.skip(st as int);
    proof {
        assert forall|j: int| 0 <= j < suffix.len() implies suffix[j] != '|' by {
            assert(suffix[j] == s@[st + j]);
        }
        lemma_first_pipe_none(suffix, 0);
        assert(split_pipes(suffix) =~= seq![suffix]);
        assert(cur@ =~= suffix);
    }
    parts.push(cur);
    proof {
        assert(views_of(parts@) =~= views_of(parts0) + seq![suffix]);
        assert(views_of(parts@) =~= split_pipes(s@));
        assert forall|k: int| 0 <= k < parts@.len() implies (#[trigger] parts@[k])@ == split_pipes(
            s@,
        )[k] by {
            assert(views_of(parts@)[k] == parts@[k]@);
        }
    }
    parts
}

/// The machine configuration that a seed, rotor count, date and pair
/// list induce, written over the machine's tables.
pub open spec fn built_from(
    m: EnigmaMachine,
    sstk: int,
    n_rt: int,
    date: Seq<char>,
    pairs: Seq<(char, char)>,
) -> bool {
    let parts = date_parts(date)->Some_0;
    let cseed = crate::letters::machine::spec_component_seed(parts, sstk as u64);
    &&& date_parts(date) is Some
    &&& m.rotors@.len() == n_rt
    &&& (forall|i: int|
        0 <= i < n_rt ==> {
            let rot = #[trigger] m.rotors@[i];
            let seed = crate::letters::machine::spec_rotor_seed(parts, sstk as u64, (i + 1) as u64);
            &&& rot.mapping@ == crate::rng::shuffled_alphabet(seed)
            &&& rot.reverse_mapping@ == crate::letters::common::reverse_of(
                crate::rng::shuffled_alphabet(seed),
            )
            &&& rot.notch == crate::rng::shuffled_alphabet(cseed)[i]
            &&& rot.position == 0
        })
    &&& m.reflector.mapping@ == crate::letters::common::reverse_of(
        crate::letters::reflector::seeded_refl_table(crate::rng::shuffled_alphabet(cseed)),
    )
    &&& m.plugboard.mapping@ == (if pairs.len() > 0 {
        crate::letters::plugboard::table_of_pairs(pairs)
    } else {
        crate::letters::plugboard::table_of_pairs(
            crate::letters::plugboard::seeded_pairs(crate::rng::shuffled_alphabet(cseed)),
        )
    })
    &&& m.vec_plug@ == pairs
}

/// Two machines built from the same fields carry the same tables, so
/// they run identically.
pub proof fn lemma_built_from_unique(
    m1: EnigmaMachine,
    m2: EnigmaMachine,
    sstk: int,
    n_rt: int,
    date: Seq<char>,
    pairs: Seq<(char, char)>,
)
    requires
        built_from(m1, sstk, n_rt, date, pairs),
        built_from(m2, sstk, n_rt, date, pairs),
    ensures
        m1.plugboard.mapping@ == m2.plugboard.mapping@,
        m1.reflector.mapping@ == m2.reflector.mapping@,
        m1.rotors@ == m2.rotors@,
{
    broadcast use vstd::array::group_array_axioms;

    assert forall|i: int| 0 <= i < m1.rotors@.len() implies #[trigger] m1.rotors@[i]
        == m2.rotors@[i] by {
        let r1 = m1.rotors@[i];
        let r2 = m2.rotors@[i];
        assert(r1.mapping@ =~= r2.mapping@);
        assert(r1.reverse_mapping@ =~= r2.reverse_mapping@);
        assert(r1.mapping == r2.mapping);
        assert(r1.reverse_mapping == r2.reverse_mapping);
    }
    assert(m1.rotors@ =~= m2.rotors@);
}

/// Seals a message for transport: the trimmed input is preprocessed,
/// uppercased and encrypted by a letter machine built for today's
/// date from the given configuration; the result, framed with that
/// configuration, is sealed with AES-256-GCM and rendered as base64.
/// The configuration must be supplied by the caller; a valid
/// configuration with a proper key and IV and an input of moderate
/// size is owed success.
pub fn encrypt_message(input: &str, config: Option<&Config>, key: &[u8], iv: &[u8]) -> (r: Result<
    String,
    String,
>)
    ensures
        config is None ==> (r matches Err(m) && m@
            == "Failed to load config: no configuration was supplied"@),
        config is Some && !(1 <= config->Some_0.n_rt <= 5) ==> (r matches Err(m) && m@
            == "Error creating Enigma machine: "@
            + "Invalid number of rotors. Expected a value between 1 and 5."@),
        config is Some && 1 <= config->Some_0.n_rt <= 5 && !crate::letters::plugboard::pairs_ok(
            config->Some_0.plugboard_pairs@,
        ) ==> (r matches Err(m) && m@ == "Error creating Enigma machine: "@
            + crate::letters::plugboard::spec_validate_msg(
            crate::letters::plugboard::spec_validate_code(
                config->Some_0.plugboard_pairs@,
                0,
                Set::empty(),
            ),
        )),
        config is Some && 1 <= config->Some_0.n_rt <= 5 && crate::letters::plugboard::pairs_ok(
            config->Some_0.plugboard_pairs@,
        ) && config->Some_0.plugboard_pairs@.len() <= 13 && key@.len() == 32 && iv@.len() == 16
            && upper_of(crate::text::pre_of(trimmed(input@), 0)).len() <= 0x4000000 ==> r is Ok,
        config is Some && 1 <= config->Some_0.n_rt <= 5 && crate::letters::plugboard::pairs_ok(
            config->Some_0.plugboard_pairs@,
        ) && config->Some_0.plugboard_pairs@.len() <= 13 && key@.len() == 32 && iv@.len() == 16
            && (forall|i: int|
            0 <= i < input@.len() ==> ascii_graphic(#[trigger] input@[i]) && upper_fixed(
                input@[i],
            )) && input@.len() <= 0x2000000 ==> r is Ok,
        r matches Ok(out) ==> config is Some && (exists|d: Seq<char>, m: EnigmaMachine|
            {
                let cfg = config->Some_0;
                let run = run_message(
                    m.plugboard.mapping@,
                    m.reflector.mapping@,
                    m.rotors@,
                    upper_of(crate::text::pre_of(trimmed(input@), 0)),
                    0,
                    Seq::empty(),
                    false,
                );
                &&& #[trigger] built_from(
                    m,
                    config->Some_0.sstk as int,
                    config->Some_0.n_rt as int,
                    d,
                    config->Some_0.plugboard_pairs@,
                )
                &&& out@ == b64std_of(
                    aes_seal(
                        vstd::utf8::encode_utf8(
                            framed(
                                cfg.sstk as int,
                                cfg.n_rt as int,
                                d,
                                flat_pairs(cfg.plugboard_pairs@),
                                message_output(run),
                            ),
                        ),
                        key@,
                        iv@,
                    ),
                )
                &&& 16 <= aes_seal(
                    vstd::utf8::encode_utf8(
                        framed(
                            cfg.sstk as int,
                            cfg.n_rt as int,
                            d,
                            flat_pairs(cfg.plugboard_pairs@),
                            message_output(run),
                        ),
                    ),
                    key@,
                    iv@,
                ).len() <= 0x7fffffff + 16
                &&& forall|i: int| 0 <= i < out@.len() ==> ascii_graphic(#[trigger] out@[i])
                &&& d.len() == 8
                &&& forall|i: int| 0 <= i < d.len() ==> crate::text::is_digit(#[trigger] d[i])
            }),
{
    let cfg = match config {
        Some(c) => c,
        None => {
            return Err(String::from_str("Failed to load config: no configuration was supplied"));
        },
    };

    let current_date = today_ymd();
    let plug_flat = flatten_pairs(cfg.plugboard_pairs.as_slice());
    let plugboard_str = chars_to_string(&plug_flat);

    // The machine keeps its own copy of the pairs.
    let mut pairs_copy: Vec<(char, char)> = Vec::new();
    let mut i: usize = 0;
    while i < cfg.plugboard_pairs.len()
        invariant
            i <= cfg.plugboard_pairs@.len(),
            pairs_copy@ =~= cfg.plugboard_pairs@.take(i as int),
        decreases cfg.plugboard_pairs@.len() - i,
    {
        pairs_copy.push(cfg.plugboard_pairs[i]);
        i += 1;
    }
    assert(pairs_copy@ =~= cfg.plugboard_pairs@);

    let mut enigma = match EnigmaMachine::new_from_params(
        cfg.sstk,
        cfg.n_rt,
        current_date.as_str(),
        pairs_copy,
    ) {
        Ok(m) => m,
        Err(e) => {
            proof {
                if 1 <= cfg.n_rt <= 5 && crate::letters::plugboard::pairs_ok(
                    cfg.plugboard_pairs@,
                ) {
                    assert(false);
                }
            }
            return Err(String::from_str("Error creating Enigma machine: ").concat(e));
        },
    };
    let ghost m0 = enigma;

    // The pre-message envelope is sealed as well; its rendering is
    // not part of the transported message.
    let pre_message = collect_pre_message(enigma.vec_plug.as_slice());
    let pre_sealed = match encrypt_aes(pre_message.as_str(), key, iv) {
        Ok(b) => b,
        Err(e) => {
            proof {
                if key@.len() == 32 && iv@.len() == 16 && cfg.plugboard_pairs@.len() <= 13 {
                    lemma_flat_pairs_len(enigma.vec_plug@);
                    assert(pre_message@.len() <= 35);
                    lemma_encode_utf8_len(pre_message@);
                    assert(false);
                }
            }
            let t = error_stack_text(&e);
            return Err(String::from_str("Error encrypting with AES: ").concat(t.as_str()));
        },
    };
    let _pre_rendered = b64std_encode(pre_sealed.as_slice());

    let trimmed_input = trim_str(input);
    let processed = crate::text::preprocess_input(trimmed_input.as_str());
    let upper = uppercase_str(processed.as_str());
    proof {
        if (forall|i: int|
            0 <= i < input@.len() ==> ascii_graphic(#[trigger] input@[i]) && upper_fixed(
                input@[i],
            )) && input@.len() <= 0x2000000 {
            assert(trimmed_input@ == input@);
            crate::text::lemma_pre_of_len(trimmed_input@, 0);
            crate::text::lemma_pre_of_class(trimmed_input@, 0);
            assert(upper@ == processed@);
            assert(upper_of(crate::text::pre_of(trimmed(input@), 0)).len() <= 0x4000000);
        }
    }
    let enigma_encrypted = match enigma.encrypt_message(upper.as_str()) {
        Ok(t) => t,
        Err(e) => {
            proof {
                assert(false);
            }
            return Err(String::from_str("Error encrypting with Enigma: ").concat(e));
        },
    };
    proof {
        let run = run_message(
            m0.plugboard.mapping@,
            m0.reflector.mapping@,
            m0.rotors@,
            upper@,
            0,
            Seq::empty(),
            false,
        );
        crate::letters::machine::lemma_run_acc_len(
            m0.plugboard.mapping@,
            m0.reflector.mapping@,
            m0.rotors@,
            upper@,
            0,
            Seq::empty(),
            false,
        );
        crate::letters::machine::lemma_message_output_len(run);
        assert(enigma_encrypted@.len() <= 2 * upper@.len());
    }

    let mut message = decimal_string(cfg.sstk as u64);
    let n_rt_str = decimal_string(cfg.n_rt as u64);
    message.append("|");
    message.append(n_rt_str.as_str());
    message.append("|");
    message.append(current_date.as_str());
    message.append("|");
    message.append(plugboard_str.as_str());
    message.append("|");
    message.append(enigma_encrypted.as_str());
    proof {
        assert("|"@ =~= seq!['|']) by {
            reveal_strlit("|");
        }
        assert(message@ == framed(
            cfg.sstk as int,
            cfg.n_rt as int,
            current_date@,
            flat_pairs(cfg.plugboard_pairs@),
            enigma_encrypted@,
        ));
    }

    let sealed = match encrypt_aes(message.as_str(), key, iv) {
        Ok(b) => b,
        Err(e) => {
            proof {
                if key@.len() == 32 && iv@.len() == 16 && cfg.plugboard_pairs@.len() <= 13
                    && upper_of(crate::text::pre_of(trimmed(input@), 0)).len() <= 0x4000000 {
                    crate::numerals::lemma_dec_str_len(cfg.sstk as int);
                    crate::numerals::lemma_dec_str_len(cfg.n_rt as int);
                    lemma_flat_pairs_len(cfg.plugboard_pairs@);
                    assert(message@.len() <= 78 + 0x8000000);
                    lemma_encode_utf8_len(message@);
                    assert(false);
                }
            }
            let t = error_stack_text(&e);
            return Err(String::from_str("Error encrypting with AES: ").concat(t.as_str()));
        },
    };
    let out = b64std_encode(sealed.as_slice());
    proof {
        let d = current_date@;
        let run = run_message(
            m0.plugboard.mapping@,
            m0.reflector.mapping@,
            m0.rotors@,
            upper_of(crate::text::pre_of(trimmed(input@), 0)),
            0,
            Seq::empty(),
            false,
        );
        assert(built_from(m0, cfg.sstk as int, cfg.n_rt as int, d, cfg.plugboard_pairs@));
        assert(enigma_encrypted@ == message_output(run));
    }
    Ok(out)
}

/// One machine explains the opened envelope: it is built from the
/// fields of the message and its run over the payload emits the
/// returned text.
pub open spec fn machine_opens(
    m: EnigmaMachine,
    plain: Seq<u8>,
    text: Seq<char>,
    cfg: Config,
) -> bool {
    let parts = split_pipes(lossy_of(plain));
    let run = run_message(
        m.plugboard.mapping@,
        m.reflector.mapping@,
        m.rotors@,
        parts[4],
        0,
        Seq::empty(),
        false,
    );
    &&& built_from(m, cfg.sstk as int, cfg.n_rt as int, parts[2], pairs_of(parts[3]))
    &&& text == message_output(run)
}

/// The envelope fields read from the decrypted bytes, and the text
/// that the machine they describe produces from the payload.
pub open spec fn opened_envelope(plain: Seq<u8>, text: Seq<char>, cfg: Config) -> bool {
    let parts = split_pipes(lossy_of(plain));
    &&& parts.len() >= 5
    &&& cfg.sstk == parse_or(parts[0], 12345)
    &&& cfg.n_rt == parse_or(parts[1], 3)
    &&& cfg.plugboard_pairs@ == pairs_of(parts[3])
    &&& exists|m: EnigmaMachine| #[trigger] machine_opens(m, plain, text, cfg)
}

/// The decrypted bytes carry a well-formed envelope: at least five
/// pipe-separated fields, a rotor count in the machine's range, a
/// valid pair list and a valid date.  Exactly these envelopes open.
pub open spec fn openable(plain: Seq<u8>) -> bool {
    let parts = split_pipes(lossy_of(plain));
    &&& parts.len() >= 5
    &&& 1 <= parse_or(parts[1], 3) <= 5
    &&& crate::letters::plugboard::pairs_ok(pairs_of(parts[3]))
    &&& date_parts(parts[2]) is Some
}

/// Reads the decrypted envelope bytes: the five pipe-separated fields
/// select and configure a letter machine, which then decrypts the
/// payload.
#[verifier::rlimit(100)]
#[verifier::spinoff_prover]
pub fn open_envelope(plain: &[u8]) -> (r: Result<(String, Config), String>)
    ensures
        r is Ok <==> openable(plain@),
        r matches Ok(p) ==> opened_envelope(plain@, p.0@, p.1),
        split_pipes(lossy_of(plain@)).len() < 5 ==> (r matches Err(m) && m@
            == "Invalid message format - expected 5 parts"@),
{
    let message = utf8_lossy(plain);
    let msg_str: &str = message.as_str();
    let n = msg_str.unicode_len();
    let mut msg_chars: Vec<char> = Vec::new();
    let mut i: usize = 0;
    while i < n
        invariant
            i <= n,
            n == msg_str@.len(),
            msg_chars@ =~= msg_str@.take(i as int),
        decreases n - i,
    {
        msg_chars.push(msg_str.get_char(i));
        i += 1;
    }
    assert(msg_chars@ =~= message@);

    let parts = split_at_pipes(&msg_chars);
    proof {
        let partsv = split_pipes(lossy_of(plain@));
        assert(parts@.len() == partsv.len());
        if parts@.len() >= 5 {
            assert(parts@[0]@ == partsv[0] && parts@[1]@ == partsv[1] && parts@[2]@ == partsv[2]
                && parts@[3]@ == partsv[3] && parts@[4]@ == partsv[4]);
        }
    }
    if parts.len() < 5 {
        return Err(String::from_str("Invalid message format - expected 5 parts"));
    }

    let sstk: usize = match parse_decimal_part(&parts[0]) {
        Some(v) => v,
        None => 12345,
    };
    let n_rt: usize = match parse_decimal_part(&parts[1]) {
        Some(v) => v,
        None => 3,
    };
    let message_date = chars_to_string(&parts[2]);
    let plug_part = &parts[3];
    let enigma_part = chars_to_string(&parts[4]);

    let mut plugboard_pairs: Vec<(char, char)> = Vec::new();
    let half = plug_part.len() / 2;
    let mut k: usize = 0;
    while k < half
        invariant
            k <= half,
            half == plug_part@.len() / 2,
            plug_part@.len() <= usize::MAX,
            plugboard_pairs@.len() == k,
            forall|j: int|
                0 <= j < k ==> (#[trigger] plugboard_pairs@[j]) == (
                    plug_part@[2 * j],
                    plug_part@[2 * j + 1],
                ),
        decreases half - k,
    {
        plugboard_pairs.push((plug_part[2 * k], plug_part[2 * k + 1]));
        k += 1;
    }
    assert(plugboard_pairs@ =~= pairs_of(plug_part@));

    let mut pairs_for_config: Vec<(char, char)> = Vec::new();
    let mut k2: usize = 0;
    while k2 < plugboard_pairs.len()
        invariant
            k2 <= plugboard_pairs@.len(),
            pairs_for_config@ =~= plugboard_pairs@.take(k2 as int),
        decreases plugboard_pairs@.len() - k2,
    {
        pairs_for_config.push(plugboard_pairs[k2]);
        k2 += 1;
    }
    assert(pairs_for_config@ =~= plugboard_pairs@);

    let config_from_message = Config { sstk, n_rt, plugboard_pairs: pairs_for_config };

    let mut enigma = match EnigmaMachine::new_from_params(
        sstk,
        n_rt,
        message_date.as_str(),
        plugboard_pairs,
    ) {
        Ok(m) => m,
        Err(e) => {
            proof {
                assert(!openable(plain@));
            }
            return Err(String::from_str("Error creating Enigma machine: ").concat(e));
        },
    };
    let ghost m0 = enigma;

    let decrypted = match enigma.encrypt_message(enigma_part.as_str()) {
        Ok(t) => t,
        Err(e) => {
            proof {
                assert(false);
            }
            return Err(String::from_str("Error decrypting with Enigma: ").concat(e));
        },
    };

    proof {
        assert(openable(plain@));
        assert(machine_opens(m0, plain@, decrypted@, config_from_message));
    }
    Ok((decrypted, config_from_message))
}

/// Opens a transported message: base64, then AES-256-GCM, then the
/// envelope fields, then the letter machine built from those fields;
/// the configuration read from the message is returned beside the
/// text.  An input that carries a sealed well-formed envelope under
/// the given key and IV is owed success, and the result is then read
/// from exactly the sealed bytes.
pub fn decrypt_message(input: &str, key: &[u8], iv: &[u8]) -> (r: Result<
    (String, Option<Config>),
    String,
>)
    ensures
        (forall|bs: Seq<u8>| trimmed(input@) != #[trigger] b64std_of(bs)) ==> r is Err,
        r matches Ok(p) ==> p.1 is Some && (exists|plain: Seq<u8>|
            #[trigger] opened_envelope(plain, p.0@, p.1->Some_0)),
        forall|s: Seq<u8>, m: Seq<u8>|
            #![trigger b64std_of(s), aes_seal(m, key@, iv@)]
            trimmed(input@) == b64std_of(s) && s == aes_seal(m, key@, iv@) && 16 <= s.len()
                <= 0x7fffffff + 16 ==> ((r is Ok <==> openable(m)) && (r matches Ok(p)
                ==> opened_envelope(m, p.0@, p.1->Some_0))),
        forall|s: Seq<u8>, m: Seq<u8>|
            #![trigger b64std_of(s), aes_seal(m, key@, iv@)]
            (forall|i: int| 0 <= i < input@.len() ==> ascii_graphic(#[trigger] input@[i]))
                && input@ == b64std_of(s) && s == aes_seal(m, key@, iv@) && 16 <= s.len()
                <= 0x7fffffff + 16 ==> ((r is Ok <==> openable(m)) && (r matches Ok(p)
                ==> opened_envelope(m, p.0@, p.1->Some_0))),
{
    let trimmed_input = trim_str(input);
    let sealed = match b64std_decode(trimmed_input.as_str()) {
        Ok(b) => b,
        Err(e) => {
            proof {
                assert forall|s: Seq<u8>, m: Seq<u8>|
                    #![trigger b64std_of(s), aes_seal(m, key@, iv@)]
                    trimmed(input@) == b64std_of(s) && s == aes_seal(m, key@, iv@) && 16 <= s.len()
                        <= 0x7fffffff + 16 implies false by {
                    assert(trimmed_input@ == b64std_of(s));
                }
            }
            return Err(String::from_str("Error decoding base64 message: ").concat(e.as_str()));
        },
    };

    let plain = match decrypt_aes(sealed.as_slice(), key, iv) {
        Ok(b) => b,
        Err(e) => {
            proof {
                assert forall|s: Seq<u8>, m: Seq<u8>|
                    #![trigger b64std_of(s), aes_seal(m, key@, iv@)]
                    trimmed(input@) == b64std_of(s) && s == aes_seal(m, key@, iv@) && 16 <= s.len()
                        <= 0x7fffffff + 16 implies false by {
                    assert(trimmed_input@ == b64std_of(s));
                    assert(sealed@ == s);
                }
            }
            let t = error_stack_text(&e);
            return Err(String::from_str("Error decrypting with AES: ").concat(t.as_str()));
        },
    };

    match open_envelope(plain.as_slice()) {
        Ok((text, cfg)) => {
            let result: (String, Option<Config>) = (text, Some(cfg));
            proof {
                assert(opened_envelope(plain@, result.0@, result.1->Some_0));
                assert forall|s: Seq<u8>, m: Seq<u8>|
                    #![trigger b64std_of(s), aes_seal(m, key@, iv@)]
                    trimmed(input@) == b64std_of(s) && s == aes_seal(m, key@, iv@) && 16 <= s.len()
                        <= 0x7fffffff + 16 implies openable(m) && opened_envelope(
                    m,
                    result.0@,
                    result.1->Some_0,
                ) by {
                    assert(trimmed_input@ == b64std_of(s));
                    assert(sealed@ == s);
                    assert(plain@ == m);
                }
            }
            Ok(result)
        },
        Err(e) => {
            proof {
                assert forall|s: Seq<u8>, m: Seq<u8>|
                    #![trigger b64std_of(s), aes_seal(m, key@, iv@)]
                    trimmed(input@) == b64std_of(s) && s == aes_seal(m, key@, iv@) && 16 <= s.len()
                        <= 0x7fffffff + 16 implies !openable(m) by {
                    assert(trimmed_input@ == b64std_of(s));
                    assert(sealed@ == s);
                    assert(plain@ == m);
                }
            }
            Err(e)
        },
    }
}

/// Reads one envelope piece as a decimal value that fits the machine
/// word.
fn parse_decimal_part(v: &Vec<char>) -> (r: Option<usize>)
    ensures
        r is Some <==> parses_within(v@, usize::MAX as int),
        r matches Some(x) ==> x == digits_val(numeral_body(v@)),
{
    match crate::numerals::parse_decimal(v.as_slice(), usize::MAX as u64) {
        Some(x) => Some(x as usize),
        None => None,
    }
}

} // verus!
