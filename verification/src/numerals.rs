//! Decimal numerals: parsing and printing of unsigned integers, as
//! the envelope format and the plugboard swap option use them.

use vstd::prelude::*;
use crate::text::is_digit;

verus! {

/// The numeric value of a digit string, read left to right.
pub open spec fn digits_val(s: Seq<char>) -> int
    decreases s.len(),
{
    if s.len() == 0 {
        0
    } else {
        digits_val(s.drop_last()) * 10 + (s.last() as int - 48)
    }
}

/// A nonempty string of ASCII digits.
pub open spec fn all_digits(s: Seq<char>) -> bool {
    s.len() >= 1 && forall|i: int| 0 <= i < s.len() ==> is_digit(#[trigger] s[i])
}

/// The digits of a numeral, with one optional leading plus sign
/// allowed.
pub open spec fn numeral_body(s: Seq<char>) -> Seq<char> {
    if s.len() >= 1 && s[0] == '+' {
        s.skip(1)
    } else {
        s
    }
}

/// The numeral denotes a value of at most `max`.
pub open spec fn parses_within(s: Seq<char>, max: int) -> bool {
    all_digits(numeral_body(s)) && digits_val(numeral_body(s)) <= max
}

/// Appending a digit multiplies the value by ten and adds the digit.
proof fn lemma_digits_val_step(s: Seq<char>, j: int)
    requires
        0 <= j < s.len(),
    ensures
        digits_val(s.take(j + 1)) == digits_val(s.take(j)) * 10 + (s[j] as int - 48),
{
    assert(s.take(j + 1).drop_last() =~= s.take(j));
    assert(s.take(j + 1).last() == s[j]);
}

/// A digit string has a nonnegative value.
proof fn lemma_digits_val_nonneg(s: Seq<char>)
    requires
        forall|i: int| 0 <= i < s.len() ==> is_digit(#[trigger] s[i]),
    ensures
        digits_val(s) >= 0,
    decreases s.len(),
{
    if s.len() > 0 {
        lemma_digits_val_nonneg(s.drop_last());
    }
}

/// The value of a digit string never shrinks as digits are appended.
proof fn lemma_digits_val_grows(s: Seq<char>, j: int)
    requires
        0 <= j <= s.len(),
        forall|i: int| 0 <= i < s.len() ==> is_digit(#[trigger] s[i]),
    ensures
        digits_val(s.take(j)) <= digits_val(s),
    decreases s.len() - j,
{
    if j < s.len() {
        lemma_digits_val_step(s, j);
        lemma_digits_val_grows(s, j + 1);
        assert forall|i: int| 0 <= i < s.take(j).len() implies is_digit(
            #[trigger] s.take(j)[i],
        ) by {}
        lemma_digits_val_nonneg(s.take(j));
        assert(digits_val(s.take(j)) <= digits_val(s.take(j + 1)));
        assert(s.take(s.len() as int) =~= s);
    } else {
        assert(s.take(j) =~= s);
    }
}

/// Parses a decimal numeral (digits with an optional leading plus)
/// of value at most `max`; anything else yields nothing.
pub fn parse_decimal(v: &[char], max: u64) -> (r: Option<u64>)
    ensures
        r is Some <==> parses_within(v@, max as int),
        r matches Some(n) ==> n == digits_val(numeral_body(v@)),
{
    let ghost body = numeral_body(v@);
    let start: usize = if v.len() >= 1 && v[0] == '+' {
        1
    } else {
        0
    };
    proof {
        assert(body =~= v@.skip(start as int));
    }
    let n = v.len();
    if n == start {
        return None;
    }
    let mut acc: u128 = 0;
    let mut over = false;
    let mut i: usize = start;
    while i < n
        invariant
            start <= i <= n,
            n == v@.len(),
            n > start,
            body == v@.skip(start as int),
            body == numeral_body(v@),
            forall|k: int| start <= k < i ==> is_digit(#[trigger] v@[k]),
            !over ==> acc <= max && acc == digits_val(body.take(i - start)),
            over ==> digits_val(body.take(i - start)) > max,
        decreases n - i,
    {
        let c = v[i];
        if !(c >= '0' && c <= '9') {
            proof {
                assert(body[i - start] == v@[i as int]);
                assert(!all_digits(body));
            }
            return None;
        }
        let d = (c as u32 - 48) as u128;
        proof {
            lemma_digits_val_step(body, i - start);
        }
        if !over {
            acc = acc * 10 + d;
            if acc > max as u128 {
                over = true;
            }
        } else {
            proof {
                assert(digits_val(body.take(i - start)) * 10 + (c as int - 48) > max);
            }
        }
        i += 1;
    }
    proof {
        assert(body.take(n - start) =~= body);
    }
    if over {
        None
    } else {
        Some(acc as u64)
    }
}

/// The decimal numeral of a nonnegative value.
pub open spec fn dec_str(n: int) -> Seq<char>
    decreases n,
{
    if n < 10 {
        seq![((48 + (if n >= 0 { n } else { 0 })) as u8) as char]
    } else {
        dec_str(n / 10) + seq![((48 + n % 10) as u8) as char]
    }
}

/// Powers of ten.
spec fn pow10(k: int) -> int
    decreases k,
{
    if k <= 0 {
        1
    } else {
        10 * pow10(k - 1)
    }
}

/// A numeral of a value below the `k`-th power of ten has at most
/// `k` digits.
proof fn lemma_dec_str_len_bound(n: int, k: int)
    requires
        0 <= n,
        1 <= k,
        n < pow10(k),
    ensures
        dec_str(n).len() <= k,
    decreases k,
{
    if n >= 10 {
        assert(pow10(k) == 10 * pow10(k - 1));
        lemma_dec_str_len_bound(n / 10, k - 1);
    }
}

/// A machine word prints as at most twenty digits.
pub proof fn lemma_dec_str_len(n: int)
    requires
        0 <= n <= u64::MAX,
    ensures
        dec_str(n).len() <= 20,
{
    reveal_with_fuel(pow10, 21);
    assert(pow10(20) == 100000000000000000000);
    lemma_dec_str_len_bound(n, 20);
}

/// A printed numeral is digits only and reads back as its value.
pub proof fn lemma_dec_str_val(n: int)
    requires
        0 <= n,
    ensures
        all_digits(dec_str(n)),
        numeral_body(dec_str(n)) == dec_str(n),
        digits_val(dec_str(n)) == n,
    decreases n,
{
    if n < 10 {
        assert(dec_str(n) =~= seq![((48 + n) as u8) as char]);
        assert(dec_str(n).drop_last() =~= Seq::<char>::empty());
        assert(digits_val(Seq::<char>::empty()) == 0);
        assert(digits_val(dec_str(n)) == n);
    } else {
        lemma_dec_str_val(n / 10);
        let d = ((48 + n % 10) as u8) as char;
        assert(dec_str(n).drop_last() =~= dec_str(n / 10));
        assert(dec_str(n).last() == d);
        assert(digits_val(dec_str(n)) == digits_val(dec_str(n / 10)) * 10 + (d as int - 48));
        vstd::arithmetic::div_mod::lemma_fundamental_div_mod(n, 10);
        assert forall|i: int| 0 <= i < dec_str(n).len() implies is_digit(
            #[trigger] dec_str(n)[i],
        ) by {
            if i < dec_str(n).len() - 1 {
                assert(dec_str(n)[i] == dec_str(n / 10)[i]);
            }
        }
        assert(dec_str(n)[0] == dec_str(n / 10)[0]);
    }
}

/// Prints a value as its decimal numeral.
pub fn decimal_string(n: u64) -> (r: String)
    ensures
        r@ == dec_str(n as int),
{
    if n == 0 {
        let mut out: Vec<char> = Vec::new();
        out.push('0');
        assert(out@ =~= dec_str(0));
        return crate::text::chars_to_string(&out);
    }
    let mut digits: Vec<char> = Vec::new();
    let mut m = n;
    while m > 0
        invariant
            dec_str(n as int) == (if m > 0 {
                dec_str(m as int)
            } else {
                Seq::<char>::empty()
            }) + digits@.reverse(),
        decreases m,
    {
        let ghost digits0 = digits@;
        let d = ((48 + (m % 10) as u32) as u8) as char;
        digits.push(d);
        let m2 = m / 10;
        proof {
            assert(digits@ =~= digits0.push(d));
            assert(digits@.reverse() =~= seq![d] + digits0.reverse());
            if m2 > 0 {
                assert(dec_str(m as int) == dec_str(m as int / 10) + seq![d]);
            } else {
                assert(dec_str(m as int) == seq![d]);
            }
        }
        m = m2;
    }
    let mut out: Vec<char> = Vec::new();
    let mut j = digits.len();
    while j > 0
        invariant
            j <= digits@.len(),
            out@ =~= digits@.skip(j as int).reverse(),
        decreases j,
    {
        j -= 1;
        out.push(digits[j]);
        proof {
            assert(out@ =~= digits@.skip(j as int).reverse());
        }
    }
    proof {
        assert(digits@.skip(0) =~= digits@);
        assert(out@ =~= dec_str(n as int));
    }
    crate::text::chars_to_string(&out)
}

} // verus!
