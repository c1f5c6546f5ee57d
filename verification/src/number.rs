//! Telling whether a piece of text is a number.
//!
//! A number is what the standard library reads as a floating-point value:
//! an optional sign, then either one of the words `inf`, `infinity` and
//! `nan` in any mix of upper and lower case, or decimal digits with at most
//! one point among them and at least one digit in all, optionally followed
//! by an exponent, which is `e` or `E`, an optional sign and at least one
//! digit. Nothing may come before or after.

use vstd::prelude::*;
use vstd::string::StringExecFns;
use vstd::string::StringSliceAdditionalSpecFns;
use vstd::utf8::encode_utf8;

verus! {

/// A decimal digit.
pub open spec fn is_digit(b: u8) -> bool {
    '0' as u8 <= b <= '9' as u8
}

/// A plus or a minus.
pub open spec fn is_sign(b: u8) -> bool {
    b == '+' as u8 || b == '-' as u8
}

/// The letter `e`, small or capital, that starts an exponent.
pub open spec fn is_exponent_mark(b: u8) -> bool {
    b == 'e' as u8 || b == 'E' as u8
}

/// A capital letter turned small; every other byte as it is.
pub open spec fn lowered(b: u8) -> u8 {
    if 'A' as u8 <= b <= 'Z' as u8 {
        (b + 32) as u8
    } else {
        b
    }
}

/// The place after the digits that start at `i`: `i` itself where no digit
/// stands there.
pub open spec fn digits_end(s: Seq<u8>, i: int) -> int
    decreases s.len() - i,
{
    if 0 <= i < s.len() && is_digit(s[i]) {
        digits_end(s, i + 1)
    } else {
        i
    }
}

/// The place after the sign at `i`: `i` itself where no sign stands there.
pub open spec fn sign_end(s: Seq<u8>, i: int) -> int {
    if 0 <= i < s.len() && is_sign(s[i]) {
        i + 1
    } else {
        i
    }
}

/// The place after the point at `i`: `i` itself where no point stands there.
pub open spec fn point_end(s: Seq<u8>, i: int) -> int {
    if 0 <= i < s.len() && s[i] == '.' as u8 {
        i + 1
    } else {
        i
    }
}

/// The word `inf`.
pub open spec fn word_inf() -> Seq<u8> {
    seq!['i' as u8, 'n' as u8, 'f' as u8]
}

/// The word `nan`.
pub open spec fn word_nan() -> Seq<u8> {
    seq!['n' as u8, 'a' as u8, 'n' as u8]
}

/// The word `infinity`.
pub open spec fn word_infinity() -> Seq<u8> {
    seq!['i' as u8, 'n' as u8, 'f' as u8, 'i' as u8, 'n' as u8, 'i' as u8, 't' as u8, 'y' as u8]
}

/// Whether `s` from `from` to its end spells `word`, in any mix of upper and
/// lower case.
pub open spec fn spells(s: Seq<u8>, from: int, word: Seq<u8>) -> bool {
    &&& s.len() - from == word.len()
    &&& forall|k: int| 0 <= k < word.len() ==> lowered(#[trigger] s[from + k]) == word[k]
}

/// Whether `s` from `from` to its end is one of the words `inf`, `infinity`
/// and `nan`, in any mix of upper and lower case.
pub open spec fn is_special(s: Seq<u8>, from: int) -> bool {
    spells(s, from, word_inf()) || spells(s, from, word_nan()) || spells(s, from, word_infinity())
}

/// Whether `s` from `from` to its end is an exponent without its mark: an
/// optional sign and at least one digit.
pub open spec fn is_exponent(s: Seq<u8>, from: int) -> bool {
    let digits = sign_end(s, from);
    digits_end(s, digits) > digits && digits_end(s, digits) == s.len()
}

/// Whether `s` from `from` to its end is a decimal number: digits with at
/// most one point among them and at least one digit in all, and after them
/// nothing, or an exponent.
pub open spec fn is_decimal(s: Seq<u8>, from: int) -> bool {
    let whole_end = digits_end(s, from);
    let fraction = point_end(s, whole_end);
    let fraction_end = digits_end(s, fraction);
    &&& (whole_end - from) + (fraction_end - fraction) >= 1
    &&& fraction_end == s.len() || (is_exponent_mark(s[fraction_end]) && is_exponent(
        s,
        fraction_end + 1,
    ))
}

/// Whether the bytes `s` are a number.
pub open spec fn is_number(s: Seq<u8>) -> bool {
    let body = sign_end(s, 0);
    0 <= body <= s.len() && (is_decimal(s, body) || is_special(s, body))
}

/// The message for text that is no number.
pub open spec fn not_a_number() -> Seq<char> {
    "Must be a number!"@
}

/// Walks over the digits that start at `start`.
fn skip_digits(text: &[u8], start: usize) -> (end: usize)
    requires
        start <= text@.len(),
    ensures
        end == digits_end(text@, start as int),
        start <= end <= text@.len(),
{
    let mut i: usize = start;
    while i < text.len() && 48 <= text[i] && text[i] <= 57
        invariant
            start <= i <= text@.len(),
            digits_end(text@, start as int) == digits_end(text@, i as int),
        decreases text@.len() - i,
    {
        i = i + 1;
    }
    i
}

/// A capital letter turned small; every other byte as it is.
fn lower(b: u8) -> (ret: u8)
    ensures
        ret == lowered(b),
{
    if 65 <= b && b <= 90 {
        b + 32
    } else {
        b
    }
}

/// Whether `text` from `from` on is one of the three words.
fn special_word(text: &[u8], from: usize) -> (ret: bool)
    requires
        from <= text@.len(),
    ensures
        ret == is_special(text@, from as int),
{
    let len: usize = text.len() - from;
    proof {
        let inf = word_inf();
        let nan = word_nan();
        let infinity = word_infinity();
        assert(inf.len() == 3 && inf[0] == 105 && inf[1] == 110 && inf[2] == 102);
        assert(nan.len() == 3 && nan[0] == 110 && nan[1] == 97 && nan[2] == 110);
        assert(infinity.len() == 8 && infinity[0] == 105 && infinity[1] == 110 && infinity[2]
            == 102 && infinity[3] == 105 && infinity[4] == 110 && infinity[5] == 105
            && infinity[6] == 116 && infinity[7] == 121);
    }
    if len == 3 {
        let a: u8 = lower(text[from]);
        let b: u8 = lower(text[from + 1]);
        let c: u8 = lower(text[from + 2]);
        proof {
            let s = text@;
            let at = from as int;
            assert(lowered(s[at + 0]) == a && lowered(s[at + 1]) == b && lowered(s[at + 2]) == c);
        }
        (a == 105 && b == 110 && c == 102) || (a == 110 && b == 97 && c == 110)
    } else if len == 8 {
        let a: u8 = lower(text[from]);
        let b: u8 = lower(text[from + 1]);
        let c: u8 = lower(text[from + 2]);
        let d: u8 = lower(text[from + 3]);
        let e: u8 = lower(text[from + 4]);
        let f: u8 = lower(text[from + 5]);
        let g: u8 = lower(text[from + 6]);
        let h: u8 = lower(text[from + 7]);
        proof {
            let s = text@;
            let at = from as int;
            assert(lowered(s[at + 0]) == a && lowered(s[at + 1]) == b && lowered(s[at + 2]) == c
                && lowered(s[at + 3]) == d && lowered(s[at + 4]) == e && lowered(s[at + 5]) == f
                && lowered(s[at + 6]) == g && lowered(s[at + 7]) == h);
        }
        a == 105 && b == 110 && c == 102 && d == 105 && e == 110 && f == 105 && g == 116 && h
            == 121
    } else {
        false
    }
}

/// Whether the bytes of `text` are a number.
pub fn is_number_text(text: &[u8]) -> (ret: bool)
    ensures
        ret == is_number(text@),
{
    let mut body: usize = 0;
    if text.len() > 0 && (text[0] == 43 || text[0] == 45) {
        body = 1;
    }
    assert(body == sign_end(text@, 0));
    if special_word(text, body) {
        return true;
    }
    let whole_end: usize = skip_digits(text, body);
    let mut fraction: usize = whole_end;
    if whole_end < text.len() && text[whole_end] == 46 {
        fraction = whole_end + 1;
    }
    assert(fraction == point_end(text@, whole_end as int));
    let fraction_end: usize = skip_digits(text, fraction);
    if (whole_end - body) + (fraction_end - fraction) < 1 {
        return false;
    }
    if fraction_end == text.len() {
        return true;
    }
    if text[fraction_end] != 101 && text[fraction_end] != 69 {
        return false;
    }
    let mut digits: usize = fraction_end + 1;
    if digits < text.len() && (text[digits] == 43 || text[digits] == 45) {
        digits = digits + 1;
    }
    assert(digits == sign_end(text@, fraction_end as int + 1));
    let end: usize = skip_digits(text, digits);
    end > digits && end == text.len()
}

/// Accepts text that is a number and turns away all other text with a
/// message.
pub fn numeric_validator(arg: String) -> (ret: Result<(), String>)
    ensures
        ret is Ok <==> is_number(encode_utf8(arg@)),
        ret matches Err(message) ==> message@ == not_a_number(),
{
    if is_number_text(arg.as_str().as_bytes()) {
        Ok(())
    } else {
        Err(String::from_str("Must be a number!"))
    }
}

} // verus!
