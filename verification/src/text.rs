//! Text preparation around the letter machine: digits are folded into
//! letter escapes before encryption and recovered afterwards.

use vstd::prelude::*;
use vstd::string::StringExecFns;

verus! {

/// An ASCII digit.
pub open spec fn is_digit(c: char) -> bool {
    '0' <= c && c <= '9'
}

/// An ASCII lowercase letter.
pub open spec fn is_lower(c: char) -> bool {
    'a' <= c && c <= 'z'
}

/// ASCII uppercasing of one character; anything but a lowercase
/// letter stays as it is.
pub open spec fn spec_to_upper(c: char) -> char {
    if is_lower(c) {
        ((c as u32 - 32) as u8) as char
    } else {
        c
    }
}

/// The letter that stands in for a digit: `'0'` becomes `'Z'`, `'1'`
/// becomes `'Y'`, down to `'9'` becoming `'Q'`.
pub open spec fn digit_letter(c: char) -> char {
    ((90 - (c as u32 - 48)) as u8) as char
}

/// The digit a substitute letter stands for.
pub open spec fn letter_digit(c: char) -> char {
    ((48 + (90 - c as u32)) as u8) as char
}

/// The preprocessed form of a text from position `i` on: each digit
/// becomes `'X'` followed by its substitute letter, everything else
/// is ASCII-uppercased.
pub open spec fn pre_of(s: Seq<char>, i: int) -> Seq<char>
    decreases s.len() - i,
{
    if i < 0 || i >= s.len() {
        Seq::empty()
    } else {
        let c = s[i];
        (if is_digit(c) {
            seq!['X', digit_letter(c)]
        } else {
            seq![spec_to_upper(c)]
        }) + pre_of(s, i + 1)
    }
}

/// The postprocessed form of a text from position `i` on: `'X'`
/// followed by a letter in `'R'..='Z'` becomes the digit that letter
/// stands for; `'X'` followed by anything else is kept literally; a
/// trailing `'X'` is dropped.
pub open spec fn post_of(s: Seq<char>, i: int) -> Seq<char>
    decreases s.len() - i,
{
    if i < 0 || i >= s.len() {
        Seq::empty()
    } else if s[i] == 'X' {
        if i + 1 < s.len() {
            let c2 = s[i + 1];
            (if 'R' <= c2 && c2 <= 'Z' {
                seq![letter_digit(c2)]
            } else {
                seq!['X', c2]
            }) + post_of(s, i + 2)
        } else {
            Seq::empty()
        }
    } else {
        seq![s[i]] + post_of(s, i + 1)
    }
}

/// Pre-processing at most doubles a text.
pub proof fn lemma_pre_of_len(s: Seq<char>, i: int)
    requires
        0 <= i <= s.len(),
    ensures
        pre_of(s, i).len() <= 2 * (s.len() - i),
    decreases s.len() - i,
{
    if i < s.len() {
        lemma_pre_of_len(s, i + 1);
    }
}

/// Pre-processing ASCII non-lowercase input yields ASCII
/// non-lowercase output: letters pass through, digits become the
/// escape letter and a letter from the upper range.
pub proof fn lemma_pre_of_class(s: Seq<char>, i: int)
    requires
        0 <= i <= s.len(),
        forall|k: int|
            0 <= k < s.len() ==> ((#[trigger] s[k]) as int) < 128 && !is_lower(s[k]),
    ensures
        forall|j: int|
            0 <= j < pre_of(s, i).len() ==> ((#[trigger] pre_of(s, i)[j]) as int) < 128
                && !is_lower(pre_of(s, i)[j]),
    decreases s.len() - i,
{
    if i < s.len() {
        lemma_pre_of_class(s, i + 1);
        let c = s[i];
        let chunk = if is_digit(c) {
            seq!['X', digit_letter(c)]
        } else {
            seq![spec_to_upper(c)]
        };
        assert forall|j: int|
            0 <= j < pre_of(s, i).len() implies ((#[trigger] pre_of(s, i)[j]) as int) < 128
                && !is_lower(pre_of(s, i)[j]) by {
            if j >= chunk.len() {
                assert(pre_of(s, i)[j] == pre_of(s, i + 1)[j - chunk.len()]);
            }
        }
    }
}

/// Post-processing never lengthens a text.
pub proof fn lemma_post_of_len(s: Seq<char>, i: int)
    requires
        0 <= i <= s.len(),
    ensures
        post_of(s, i).len() <= s.len() - i,
    decreases s.len() - i,
{
    if i < s.len() {
        if s[i] == 'X' {
            if i + 1 < s.len() {
                lemma_post_of_len(s, i + 2);
            }
        } else {
            lemma_post_of_len(s, i + 1);
        }
    }
}

/// A text without the escape letter post-processes to itself.
pub proof fn lemma_post_of_id(s: Seq<char>, i: int)
    requires
        0 <= i <= s.len(),
        forall|k: int| 0 <= k < s.len() ==> s[k] != 'X',
    ensures
        post_of(s, i) =~= s.skip(i),
    decreases s.len() - i,
{
    if i < s.len() {
        lemma_post_of_id(s, i + 1);
        assert(post_of(s, i) =~= seq![s[i]] + s.skip(i + 1));
    }
}

/// Relies on `String`'s `FromIterator` implementation: collecting
/// characters yields the string of exactly those characters.
#[verifier::external_body]
pub(crate) fn chars_to_string(v: &Vec<char>) -> (r: String)
    ensures
        r@ == v@,
{
    v.iter().collect()
}

/// The display line for a finished result.
pub fn result_line(output: &str) -> (r: String)
    ensures
        r@ == "Result: "@ + output@,
{
    String::from_str("Result: ").concat(output)
}

/// Prepares a text for the letter machine: digits turn into `'X'`
/// escapes, letters are uppercased.
pub fn preprocess_input(input: &str) -> (r: String)
    ensures
        r@ == pre_of(input@, 0),
{
    let n = input.unicode_len();
    let mut out: Vec<char> = Vec::new();
    let mut i: usize = 0;
    while i < n
        invariant
            i <= n,
            n == input@.len(),
            out@ + pre_of(input@, i as int) == pre_of(input@, 0),
        decreases n - i,
    {
        let c = input.get_char(i);
        if c >= '0' && c <= '9' {
            out.push('X');
            out.push(((90 - (c as u32 - 48)) as u8) as char);
        } else if c >= 'a' && c <= 'z' {
            out.push(((c as u32 - 32) as u8) as char);
        } else {
            out.push(c);
        }
        i += 1;
        proof {
            assert(out@ + pre_of(input@, i as int) =~= pre_of(input@, 0));
        }
    }
    proof {
        assert(out@ =~= pre_of(input@, 0));
    }
    chars_to_string(&out)
}

/// Recovers digits from the `'X'` escapes the preprocessing wrote.
pub fn postprocess_output(output: &str) -> (r: String)
    ensures
        r@ == post_of(output@, 0),
{
    let n = output.unicode_len();
    let mut out: Vec<char> = Vec::new();
    let mut i: usize = 0;
    while i < n
        invariant
            i <= n,
            n == output@.len(),
            out@ + post_of(output@, i as int) == post_of(output@, 0),
        decreases n - i,
    {
        let c = output.get_char(i);
        if c == 'X' {
            if i + 1 < n {
                let c2 = output.get_char(i + 1);
                if c2 >= 'R' && c2 <= 'Z' {
                    out.push(((48 + (90 - c2 as u32)) as u8) as char);
                } else {
                    out.push('X');
                    out.push(c2);
                }
                i += 2;
            } else {
                i += 1;
            }
        } else {
            out.push(c);
            i += 1;
        }
        proof {
            assert(out@ + post_of(output@, i as int) =~= post_of(output@, 0));
        }
    }
    proof {
        assert(out@ =~= post_of(output@, 0));
    }
    chars_to_string(&out)
}

} // verus!
