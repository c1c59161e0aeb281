//! Ciphertext text encodings: hex, base32 and base64 renderings of
//! the byte streams the machine produces.

use vstd::prelude::*;
use data_encoding::{BASE32HEX_NOPAD, BASE64_NOPAD, HEXUPPER};

verus! {

/// The uppercase hexadecimal digit of a value below sixteen.
pub open spec fn hex_digit(d: int) -> char {
    if d < 10 {
        ((48 + d) as u8) as char
    } else {
        ((55 + d) as u8) as char
    }
}

/// The uppercase hexadecimal rendering of a byte sequence: two digits
/// per byte, high nibble first.
pub open spec fn hex_of(b: Seq<u8>) -> Seq<char> {
    Seq::new(
        2 * b.len(),
        |i: int|
            if i % 2 == 0 {
                hex_digit(b[i / 2] as int / 16)
            } else {
                hex_digit(b[i / 2] as int % 16)
            },
    )
}

/// The base32hex rendering (unpadded) of a byte sequence.
pub uninterp spec fn b32_of(b: Seq<u8>) -> Seq<char>;

/// The base64 rendering (unpadded) of a byte sequence.
pub uninterp spec fn b64_of(b: Seq<u8>) -> Seq<char>;

/// Relies on `data_encoding::HEXUPPER.encode`: each byte becomes its
/// two uppercase hexadecimal digits, high nibble first.
#[verifier::external_body]
fn hex_encode(bytes: &[u8]) -> (r: String)
    ensures
        r@ == hex_of(bytes@),
{
    HEXUPPER.encode(bytes)
}

/// Relies on `data_encoding::HEXUPPER.decode`: exactly the uppercase
/// hexadecimal renderings decode, back to the bytes that render them.
#[verifier::external_body]
fn hex_decode(s: &str) -> (r: Option<Vec<u8>>)
    ensures
        r matches Some(b) ==> s@ == hex_of(b@),
        forall|bs: Seq<u8>| s@ == #[trigger] hex_of(bs) ==> r is Some && r->Some_0@ == bs,
{
    HEXUPPER.decode(s.as_bytes()).ok()
}

/// Relies on `data_encoding::BASE32HEX_NOPAD.encode`: the rendering
/// depends on the bytes alone.
#[verifier::external_body]
fn b32_encode(bytes: &[u8]) -> (r: String)
    ensures
        r@ == b32_of(bytes@),
{
    BASE32HEX_NOPAD.encode(bytes)
}

/// Relies on `data_encoding::BASE32HEX_NOPAD.decode`: exactly the
/// base32hex renderings decode, back to the bytes they render.
#[verifier::external_body]
fn b32_decode(s: &str) -> (r: Option<Vec<u8>>)
    ensures
        r matches Some(b) ==> s@ == b32_of(b@),
        forall|bs: Seq<u8>| s@ == #[trigger] b32_of(bs) ==> r is Some && r->Some_0@ == bs,
{
    BASE32HEX_NOPAD.decode(s.as_bytes()).ok()
}

/// Relies on `data_encoding::BASE64_NOPAD.encode`: the rendering
/// depends on the bytes alone.
#[verifier::external_body]
fn b64_encode(bytes: &[u8]) -> (r: String)
    ensures
        r@ == b64_of(bytes@),
{
    BASE64_NOPAD.encode(bytes)
}

/// Relies on `data_encoding::BASE64_NOPAD.decode`: exactly the
/// base64 renderings decode, back to the bytes they render.
#[verifier::external_body]
fn b64_decode(s: &str) -> (r: Option<Vec<u8>>)
    ensures
        r matches Some(b) ==> s@ == b64_of(b@),
        forall|bs: Seq<u8>| s@ == #[trigger] b64_of(bs) ==> r is Some && r->Some_0@ == bs,
{
    BASE64_NOPAD.decode(s.as_bytes()).ok()
}

/// Character-wise string equality.
pub fn str_eq(a: &str, b: &str) -> (r: bool)
    ensures
        r == (a@ == b@),
{
    broadcast use vstd::string::is_ascii_spec_bytes;

    let ab = a.as_bytes();
    let bb = b.as_bytes();
    if ab.len() != bb.len() {
        proof {
            lemma_str_bytes_eq(a, b);
        }
        return false;
    }
    let n = ab.len();
    let mut i: usize = 0;
    while i < n
        invariant
            i <= n,
            n == ab@.len() == bb@.len(),
            ab@ == vstd::string::StringSliceAdditionalSpecFns::spec_bytes(a),
            bb@ == vstd::string::StringSliceAdditionalSpecFns::spec_bytes(b),
            forall|k: int| 0 <= k < i ==> ab@[k] == bb@[k],
        decreases n - i,
    {
        if ab[i] != bb[i] {
            proof {
                lemma_str_bytes_eq(a, b);
            }
            return false;
        }
        i += 1;
    }
    proof {
        assert(ab@ =~= bb@);
        lemma_str_bytes_eq(a, b);
    }
    true
}

/// Two strings are equal exactly when their byte encodings are.
proof fn lemma_str_bytes_eq(a: &str, b: &str)
    ensures
        (vstd::string::StringSliceAdditionalSpecFns::spec_bytes(a)
            == vstd::string::StringSliceAdditionalSpecFns::spec_bytes(b)) <==> (a@ == b@),
{
    broadcast use vstd::utf8::encode_utf8_decode_utf8;

    if vstd::string::StringSliceAdditionalSpecFns::spec_bytes(a)
        == vstd::string::StringSliceAdditionalSpecFns::spec_bytes(b) {
        assert(vstd::utf8::decode_utf8(vstd::utf8::encode_utf8(a@)) == a@);
        assert(vstd::utf8::decode_utf8(vstd::utf8::encode_utf8(b@)) == b@);
    }
}

/// The three encoding names differ from one another.
proof fn lemma_encoding_names_distinct()
    ensures
        "hex"@ != "base64"@,
        "hex"@ != "base32"@,
        "base64"@ != "base32"@,
{
    reveal_strlit("hex");
    reveal_strlit("base64");
    reveal_strlit("base32");
    assert("hex"@.len() == 3);
    assert("base64"@.len() == 6);
    assert("base64"@[4] == '6');
    assert("base32"@[4] == '3');
}

/// The encoding name is one this codec knows.
pub open spec fn known_encoding(e: Seq<char>) -> bool {
    e == "hex"@ || e == "base64"@ || e == "base32"@
}

/// Renders machine output bytes under the named encoding.
pub fn encode_ciphertext(bytes: &[u8], encoding: &str) -> (r: String)
    requires
        known_encoding(encoding@),
    ensures
        encoding@ == "hex"@ ==> r@ == hex_of(bytes@),
        encoding@ == "base64"@ ==> r@ == b64_of(bytes@),
        encoding@ == "base32"@ ==> r@ == b32_of(bytes@),
{
    proof {
        reveal_strlit("hex");
        reveal_strlit("base64");
        reveal_strlit("base32");
        lemma_encoding_names_distinct();
    }
    if str_eq(encoding, "hex") {
        hex_encode(bytes)
    } else if str_eq(encoding, "base64") {
        b64_encode(bytes)
    } else {
        b32_encode(bytes)
    }
}

/// Reads a rendered ciphertext back into bytes.  The text must be a
/// rendering under the named encoding; `try_decode_ciphertext` tests
/// that first.
pub fn decode_ciphertext(s: &str, encoding: &str) -> (r: Vec<u8>)
    requires
        known_encoding(encoding@),
        encoding@ == "hex"@ ==> exists|bs: Seq<u8>| s@ == #[trigger] hex_of(bs),
        encoding@ == "base64"@ ==> exists|bs: Seq<u8>| s@ == #[trigger] b64_of(bs),
        encoding@ == "base32"@ ==> exists|bs: Seq<u8>| s@ == #[trigger] b32_of(bs),
    ensures
        encoding@ == "hex"@ ==> s@ == hex_of(r@),
        encoding@ == "base64"@ ==> s@ == b64_of(r@),
        encoding@ == "base32"@ ==> s@ == b32_of(r@),
{
    proof {
        lemma_encoding_names_distinct();
    }
    if str_eq(encoding, "hex") {
        match hex_decode(s) {
            Some(b) => b,
            None => {
                proof {
                    assert(false);
                }
                Vec::new()
            },
        }
    } else if str_eq(encoding, "base64") {
        match b64_decode(s) {
            Some(b) => b,
            None => {
                proof {
                    assert(false);
                }
                Vec::new()
            },
        }
    } else {
        proof {
            assert(encoding@ == "base32"@);
        }
        match b32_decode(s) {
            Some(b) => b,
            None => {
                proof {
                    assert(false);
                }
                Vec::new()
            },
        }
    }
}

/// Reads a rendered ciphertext back into bytes, or reports that the
/// text is no rendering under the named encoding.
pub fn try_decode_ciphertext(s: &str, encoding: &str) -> (r: Option<Vec<u8>>)
    requires
        known_encoding(encoding@),
    ensures
        encoding@ == "hex"@ ==> ((r is Some <==> exists|bs: Seq<u8>| s@ == #[trigger] hex_of(bs))
            && (r matches Some(b) ==> s@ == hex_of(b@))),
        encoding@ == "base64"@ ==> ((r is Some <==> exists|bs: Seq<u8>| s@ == #[trigger] b64_of(
            bs,
        )) && (r matches Some(b) ==> s@ == b64_of(b@))),
        encoding@ == "base32"@ ==> ((r is Some <==> exists|bs: Seq<u8>| s@ == #[trigger] b32_of(
            bs,
        )) && (r matches Some(b) ==> s@ == b32_of(b@))),
{
    proof {
        lemma_encoding_names_distinct();
    }
    if str_eq(encoding, "hex") {
        match hex_decode(s) {
            Some(b) => Some(decode_ciphertext(s, encoding)),
            None => None,
        }
    } else if str_eq(encoding, "base64") {
        match b64_decode(s) {
            Some(b) => Some(decode_ciphertext(s, encoding)),
            None => None,
        }
    } else {
        match b32_decode(s) {
            Some(b) => Some(decode_ciphertext(s, encoding)),
            None => None,
        }
    }
}

} // verus!
