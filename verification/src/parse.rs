//! Shift parsing: a user-typed shift string is read as an unsigned 8-bit
//! number, and any string that fails to parse degrades to a shift of zero
//! (the identity cipher) instead of blocking the caller.

use vstd::prelude::*;
use vstd::string::StrSliceExecFns;
use crate::cipher::CaesarCipher;

verus! {

/// `c` is an ASCII decimal digit, `0`..=`9`.
pub open spec fn is_digit(c: char) -> bool {
    48 <= c as int <= 57
}

/// The numeric value of the digit `c`.
pub open spec fn digit_val(c: char) -> int {
    c as int - 48
}

/// Every character of `s` is a decimal digit.
pub open spec fn all_digits(s: Seq<char>) -> bool {
    forall|i: int| 0 <= i < s.len() ==> is_digit(s[i])
}

/// The number written by the digit string `s`, read in base ten; leading
/// zeros are allowed and the empty string reads as zero.
pub open spec fn digits_value(s: Seq<char>) -> int
    decreases s.len(),
{
    if s.len() == 0 {
        0
    } else {
        digits_value(s.drop_last()) * 10 + digit_val(s.last())
    }
}

/// The digit part of a shift string: one leading `+` sign is allowed, as in
/// `str::parse::<u8>`, and is not itself a digit.
pub open spec fn stripped(key: Seq<char>) -> Seq<char> {
    if key.len() > 0 && key[0] == '+' {
        key.drop_first()
    } else {
        key
    }
}

/// What parsing a shift string as an unsigned 8-bit number yields: its value
/// when the string is an optional `+` sign followed by one or more decimal
/// digits writing a number of at most 255, and nothing otherwise.
pub open spec fn spec_parse_u8(key: Seq<char>) -> Option<u8> {
    let d = stripped(key);
    if d.len() > 0 && all_digits(d) && digits_value(d) <= 255 {
        Some(digits_value(d) as u8)
    } else {
        None
    }
}

/// The effective shift a shift string stands for: the parsed value normalized
/// modulo 26 on success, and zero on any parse failure.
pub open spec fn effective_shift(key: Seq<char>) -> u8 {
    match spec_parse_u8(key) {
        Some(v) => v % 26,
        None => 0,
    }
}

/// Reading one more digit multiplies the value so far by ten and adds the
/// digit.
proof fn lemma_digits_value_snoc(s: Seq<char>, k: int)
    requires
        0 <= k < s.len(),
    ensures
        digits_value(s.subrange(0, k + 1)) == 10 * digits_value(s.subrange(0, k)) + digit_val(
            s[k],
        ),
{
    let p = s.subrange(0, k + 1);
    assert(p.drop_last() =~= s.subrange(0, k));
    assert(p.last() == s[k]);
}

/// Parses `key` as an unsigned 8-bit number: an optional `+` sign followed by
/// one or more decimal digits whose value fits in a byte.  Returns the value
/// on success and nothing on any other input.
pub fn parse_shift(key: &str) -> (r: Option<u8>)
    ensures
        r == spec_parse_u8(key@),
{
    let ghost d = stripped(key@);
    let n = key.unicode_len();
    let mut start: usize = 0;
    if n > 0 && key.get_char(0) == '+' {
        start = 1;
    }
    assert(d =~= key@.subrange(start as int, n as int));
    if start == n {
        return None;
    }
    let m = n - start;
    let mut acc: u32 = 0;
    let mut over: bool = false;
    let mut k: usize = 0;
    while k < m
        invariant
            0 <= k <= m,
            start + m == n,
            n == key@.len(),
            d == stripped(key@),
            d == key@.subrange(start as int, n as int),
            d.len() == m,
            all_digits(d.subrange(0, k as int)),
            !over ==> acc <= 255 && acc as int == digits_value(d.subrange(0, k as int)),
            over ==> digits_value(d.subrange(0, k as int)) > 255,
        decreases m - k,
    {
        let c = key.get_char(start + k);
        let u = c as u32;
        if u < 48 || u > 57 {
            assert(!all_digits(d)) by {
                assert(!is_digit(d[k as int]));
            }
            return None;
        }
        let dv = u - 48;
        proof {
            lemma_digits_value_snoc(d, k as int);
        }
        if !over {
            let next = acc * 10 + dv;
            if next > 255 {
                over = true;
            } else {
                acc = next;
            }
        }
        k = k + 1;
    }
    assert(d.subrange(0, m as int) =~= d);
    if over {
        return None;
    }
    Some(acc as u8)
}

/// Builds the cipher a shift string asks for: the parsed shift on success,
/// normalized modulo 26, and the identity cipher on any parse failure.
pub fn update_caesar(key: &str) -> (c: CaesarCipher)
    ensures
        c.spec_shift() == effective_shift(key@),
{
    match parse_shift(key) {
        Some(v) => CaesarCipher::new(v),
        None => CaesarCipher::new(0),
    }
}

} // verus!
