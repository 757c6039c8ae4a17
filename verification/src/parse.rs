//! Reading texts as numbers and truth values.

use vstd::prelude::*;

verus! {

/// `+`
pub const PLUS: u8 = 0x2B;

/// `-`
pub const MINUS: u8 = 0x2D;

/// `.`
pub const DOT: u8 = 0x2E;

/// The digit `0`.
pub const ZERO: u8 = 0x30;

/// The digit `1`.
pub const ONE: u8 = 0x31;

/// The digit `9`.
pub const NINE: u8 = 0x39;

/// Whether a byte is a decimal digit.
pub open spec fn is_digit(b: u8) -> bool {
    ZERO <= b <= NINE
}

/// Whether every byte of `s` is a decimal digit.
pub open spec fn all_digits(s: Seq<u8>) -> bool {
    forall|i: int| 0 <= i < s.len() ==> is_digit(#[trigger] s[i])
}

/// The number that a run of decimal digits denotes.
pub open spec fn digits_value(s: Seq<u8>) -> nat
    decreases s.len(),
{
    if s.len() == 0 {
        0
    } else {
        digits_value(s.drop_last()) * 10 + (s.last() - ZERO) as nat
    }
}

/// Whether a text starts with a sign.
pub open spec fn has_sign(text: Seq<u8>) -> bool {
    text.len() > 0 && (text[0] == PLUS || text[0] == MINUS)
}

/// A text without its sign.
pub open spec fn unsigned_part(text: Seq<u8>) -> Seq<u8> {
    if has_sign(text) {
        text.skip(1)
    } else {
        text
    }
}

/// The integer that a text denotes in decimal: an optional sign, then one digit or
/// more and nothing else.
pub open spec fn decimal(text: Seq<u8>) -> Option<int> {
    let digits = unsigned_part(text);
    if digits.len() == 0 || !all_digits(digits) {
        None
    } else if text[0] == MINUS {
        Some(-(digits_value(digits) as int))
    } else {
        Some(digits_value(digits) as int)
    }
}

/// The integer that a text denotes, where it lies between `min` and `max`. A type
/// without negative values takes no `-`, not even before zero.
pub open spec fn integer_in(text: Seq<u8>, min: int, max: int) -> Option<int> {
    match decimal(text) {
        Some(v) => if min <= v <= max && (text[0] == MINUS ==> min < 0) {
            Some(v)
        } else {
            None
        },
        None => None,
    }
}

/// A run of digits denotes at least what any of its prefixes denotes.
pub proof fn lemma_digits_value_prefix(s: Seq<u8>, n: int)
    requires
        0 <= n <= s.len(),
    ensures
        digits_value(s.take(n)) <= digits_value(s),
    decreases s.len(),
{
    if n == s.len() {
        assert(s.take(n) =~= s);
    } else {
        assert(s.drop_last().take(n) =~= s.take(n));
        lemma_digits_value_prefix(s.drop_last(), n);
    }
}

/// Reads a text as a decimal integer between `min` and `max`.
#[verifier::loop_isolation(false)]
pub(crate) fn parse_integer(text: &[u8], min: i128, max: i128) -> (r: Option<i128>)
    requires
        i64::MIN <= min <= 0 <= max <= u64::MAX,
    ensures
        match r {
            Some(v) => integer_in(text@, min as int, max as int) == Some(v as int),
            None => integer_in(text@, min as int, max as int) is None,
        },
{
    if text.len() == 0 {
        return None;
    }
    let negative = text[0] == MINUS;
    let signed = negative || text[0] == PLUS;
    if negative && min == 0 {
        return None;
    }
    let start: usize = if signed {
        1
    } else {
        0
    };
    let ghost digits = unsigned_part(text@);
    if start >= text.len() {
        return None;
    }
    let limit: i128 = if negative {
        -min
    } else {
        max
    };
    let mut acc: i128 = 0;
    let mut i: usize = start;
    while i < text.len()
        invariant
            start <= i <= text@.len(),
            digits == text@.skip(start as int),
            0 <= acc <= limit <= u64::MAX + 1,
            acc == digits_value(digits.take(i - start)),
            forall|j: int| 0 <= j < i - start ==> is_digit(#[trigger] digits[j]),
        decreases text@.len() - i,
    {
        let b = text[i];
        if b < ZERO || b > NINE {
            assert(!is_digit(digits[i - start]));
            return None;
        }
        let ghost before = digits.take(i - start);
        let ghost after = digits.take(i - start + 1);
        assert(after.drop_last() =~= before);
        let next: i128 = acc * 10 + (b - ZERO) as i128;
        if next > limit {
            proof {
                lemma_digits_value_prefix(digits, i - start + 1);
            }
            return None;
        }
        acc = next;
        i = i + 1;
    }
    assert(digits.take(i - start) =~= digits);
    if negative {
        Some(-acc)
    } else {
        Some(acc)
    }
}

/// The first position at or after `pos` that holds no decimal digit, or the end.
pub open spec fn digits_end(s: Seq<u8>, pos: int) -> int
    decreases s.len() - pos,
{
    if pos < 0 || pos >= s.len() || !is_digit(s[pos]) {
        pos
    } else {
        digits_end(s, pos + 1)
    }
}

/// An upper-case letter of ASCII as its lower-case letter; any other byte as it is.
pub open spec fn lower(b: u8) -> u8 {
    if 0x41 <= b <= 0x5A {
        (b + 0x20) as u8
    } else {
        b
    }
}

/// Whether `s` is `word`, letter case aside. `word` is in lower case.
pub open spec fn is_word(s: Seq<u8>, word: Seq<u8>) -> bool {
    s.len() == word.len() && forall|i: int| 0 <= i < s.len() ==> lower(#[trigger] s[i]) == word[i]
}

/// The letters `inf`.
pub open spec fn word_inf() -> Seq<u8> {
    seq![0x69u8, 0x6Eu8, 0x66u8]
}

/// The letters `infinity`.
pub open spec fn word_infinity() -> Seq<u8> {
    seq![0x69u8, 0x6Eu8, 0x66u8, 0x69u8, 0x6Eu8, 0x69u8, 0x74u8, 0x79u8]
}

/// The letters `nan`.
pub open spec fn word_nan() -> Seq<u8> {
    seq![0x6Eu8, 0x61u8, 0x6Eu8]
}

/// Whether an exponent starts at `pos` and runs to the end of `s`: the letter `e`,
/// an optional sign, then one digit or more.
pub open spec fn is_exponent(s: Seq<u8>, pos: int) -> bool {
    let digits = if pos + 1 < s.len() && (s[pos + 1] == PLUS || s[pos + 1] == MINUS) {
        pos + 2
    } else {
        pos + 1
    };
    0 <= pos < s.len() && lower(s[pos]) == 0x65 && digits < s.len() && digits_end(s, digits) == s.len()
}

/// Whether `s` is a decimal number: digits with at most one `.` among, before or
/// after them, at least one digit in all, and an optional exponent.
pub open spec fn is_number(s: Seq<u8>) -> bool {
    let int_end = digits_end(s, 0);
    let has_dot = int_end < s.len() && s[int_end] == DOT;
    let frac_end = if has_dot {
        digits_end(s, int_end + 1)
    } else {
        int_end
    };
    let digits = if has_dot {
        frac_end - 1
    } else {
        frac_end
    };
    digits > 0 && (frac_end == s.len() || is_exponent(s, frac_end))
}

/// Whether a text is a floating-point literal in decimal: an optional sign, then
/// `inf`, `infinity` or `nan` in any letter case, or a decimal number.
pub open spec fn is_float(text: Seq<u8>) -> bool {
    let body = unsigned_part(text);
    is_word(body, word_inf()) || is_word(body, word_infinity()) || is_word(body, word_nan())
        || is_number(body)
}

fn scan_digits(s: &[u8], pos: usize) -> (end: usize)
    requires
        pos <= s@.len(),
    ensures
        end == digits_end(s@, pos as int),
        pos <= end <= s@.len(),
{
    let mut i: usize = pos;
    while i < s.len() && ZERO <= s[i] && s[i] <= NINE
        invariant
            pos <= i <= s@.len(),
            digits_end(s@, pos as int) == digits_end(s@, i as int),
        decreases s@.len() - i,
    {
        i = i + 1;
    }
    i
}

fn lower_byte(b: u8) -> (r: u8)
    ensures
        r == lower(b),
{
    if 0x41 <= b && b <= 0x5A {
        b + 0x20
    } else {
        b
    }
}

fn matches_word(s: &[u8], word: &[u8]) -> (r: bool)
    ensures
        r == is_word(s@, word@),
{
    if s.len() != word.len() {
        return false;
    }
    let mut i: usize = 0;
    while i < s.len()
        invariant
            s@.len() == word@.len(),
            i <= s@.len(),
            forall|j: int| 0 <= j < i ==> lower(#[trigger] s@[j]) == word@[j],
        decreases s@.len() - i,
    {
        if lower_byte(s[i]) != word[i] {
            return false;
        }
        i = i + 1;
    }
    true
}

fn exponent_at(s: &[u8], pos: usize) -> (r: bool)
    requires
        pos < s@.len(),
    ensures
        r == is_exponent(s@, pos as int),
{
    if lower_byte(s[pos]) != 0x65 {
        return false;
    }
    let digits: usize = if pos + 1 < s.len() && (s[pos + 1] == PLUS || s[pos + 1] == MINUS) {
        pos + 2
    } else {
        pos + 1
    };
    if digits >= s.len() {
        return false;
    }
    scan_digits(s, digits) == s.len()
}

fn number_text(s: &[u8]) -> (r: bool)
    ensures
        r == is_number(s@),
{
    let int_end = scan_digits(s, 0);
    let has_dot = int_end < s.len() && s[int_end] == DOT;
    let frac_end = if has_dot {
        scan_digits(s, int_end + 1)
    } else {
        int_end
    };
    let digits = if has_dot {
        frac_end - 1
    } else {
        frac_end
    };
    if digits == 0 {
        return false;
    }
    if frac_end == s.len() {
        return true;
    }
    exponent_at(s, frac_end)
}

/// Whether a text is a floating-point literal in decimal.
pub fn is_float_text(text: &[u8]) -> (r: bool)
    ensures
        r == is_float(text@),
{
    let body = if text.len() > 0 && (text[0] == PLUS || text[0] == MINUS) {
        vstd::slice::slice_subrange(text, 1, text.len())
    } else {
        text
    };
    let inf = vec![0x69u8, 0x6Eu8, 0x66u8];
    let infinity = vec![0x69u8, 0x6Eu8, 0x66u8, 0x69u8, 0x6Eu8, 0x69u8, 0x74u8, 0x79u8];
    let nan = vec![0x6Eu8, 0x61u8, 0x6Eu8];
    matches_word(body, inf.as_slice()) || matches_word(body, infinity.as_slice()) || matches_word(
        body,
        nan.as_slice(),
    ) || number_text(body)
}

/// The truth value that a text denotes: `0` and `false` are false, `1` and `true`
/// are true.
pub open spec fn truth_value(text: Seq<u8>) -> Option<bool> {
    if text == seq![ZERO] || text == seq![0x66u8, 0x61u8, 0x6Cu8, 0x73u8, 0x65u8] {
        Some(false)
    } else if text == seq![ONE] || text == seq![0x74u8, 0x72u8, 0x75u8, 0x65u8] {
        Some(true)
    } else {
        None
    }
}

/// Reads a text as a truth value.
pub fn parse_bool(text: &[u8]) -> (r: Option<bool>)
    ensures
        r == truth_value(text@),
{
    let zero = vec![ZERO];
    let one = vec![ONE];
    let word_false = vec![0x66u8, 0x61u8, 0x6Cu8, 0x73u8, 0x65u8];
    let word_true = vec![0x74u8, 0x72u8, 0x75u8, 0x65u8];
    assert(zero@ =~= seq![ZERO]);
    assert(one@ =~= seq![ONE]);
    if crate::text::same(text, zero.as_slice()) || crate::text::same(text, word_false.as_slice()) {
        Some(false)
    } else if crate::text::same(text, one.as_slice()) || crate::text::same(text, word_true.as_slice()) {
        Some(true)
    } else {
        None
    }
}

} // verus!
