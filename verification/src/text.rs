//! Helpers on byte strings.

use crate::lexer::LINE_FEED;
use crate::span::Span;
use vstd::prelude::*;
use vstd::slice::{slice_subrange, slice_to_vec};
use vstd::string::StringSliceAdditionalSpecFns;

verus! {

/// The bytes of `src` that `span` covers; nothing where the range does not lie
/// within the text.
pub open spec fn slice_of(src: Seq<u8>, span: Span) -> Seq<u8> {
    if span.start <= span.end <= src.len() {
        src.subrange(span.start as int, span.end as int)
    } else {
        Seq::empty()
    }
}

/// Whether `text` holds a line feed.
pub open spec fn has_newline(text: Seq<u8>) -> bool {
    exists|i: int| 0 <= i < text.len() && text[i] == LINE_FEED
}

/// The part of `src` that `span` covers.
pub fn slice<'a>(src: &'a [u8], span: Span) -> (r: &'a [u8])
    ensures
        r@ == slice_of(src@, span),
{
    if span.start <= span.end && span.end <= src.len() {
        slice_subrange(src, span.start, span.end)
    } else {
        slice_subrange(src, 0, 0)
    }
}

/// An owned copy of a byte string.
pub fn to_vec(text: &[u8]) -> (r: Vec<u8>)
    ensures
        r@ == text@,
{
    slice_to_vec(text)
}

/// The bytes of a string slice, in UTF-8.
pub fn bytes_of(text: &str) -> (r: Vec<u8>)
    ensures
        r@ == text.spec_bytes(),
{
    slice_to_vec(text.as_bytes())
}

/// Whether two byte strings hold the same bytes.
pub fn same(a: &[u8], b: &[u8]) -> (r: bool)
    ensures
        r == (a@ == b@),
{
    if a.len() != b.len() {
        return false;
    }
    let mut i: usize = 0;
    while i < a.len()
        invariant
            a@.len() == b@.len(),
            i <= a@.len(),
            forall|j: int| 0 <= j < i ==> a@[j] == b@[j],
        decreases a@.len() - i,
    {
        if a[i] != b[i] {
            return false;
        }
        i = i + 1;
    }
    assert(a@ =~= b@);
    true
}

/// Whether a byte string holds a line feed.
pub fn contains_newline(text: &[u8]) -> (r: bool)
    ensures
        r == has_newline(text@),
{
    let mut i: usize = 0;
    while i < text.len()
        invariant
            i <= text@.len(),
            forall|j: int| 0 <= j < i ==> text@[j] != LINE_FEED,
        decreases text@.len() - i,
    {
        if text[i] == LINE_FEED {
            return true;
        }
        i = i + 1;
    }
    false
}

/// Whether a byte is a white-space character of ASCII.
pub open spec fn is_blank(b: u8) -> bool {
    (0x09 <= b <= 0x0D) || b == 0x20
}

/// Whether two bytes are a white-space character of two bytes in UTF-8: the next
/// line control or the no-break space.
pub open spec fn is_blank_pair(a: u8, b: u8) -> bool {
    a == 0xC2 && (b == 0x85 || b == 0xA0)
}

/// Whether three bytes are a white-space character of three bytes in UTF-8: the
/// ogham space mark, the spaces from the en quad to the hair space, the line
/// and paragraph separators, the narrow no-break space, the medium mathematical
/// space or the ideographic space.
pub open spec fn is_blank_triple(a: u8, b: u8, c: u8) -> bool {
    ||| a == 0xE1 && b == 0x9A && c == 0x80
    ||| a == 0xE2 && b == 0x80 && ((0x80 <= c <= 0x8A) || c == 0xA8 || c == 0xA9 || c == 0xAF)
    ||| a == 0xE2 && b == 0x81 && c == 0x9F
    ||| a == 0xE3 && b == 0x80 && c == 0x80
}

/// The number of bytes of the white-space character that starts at `pos` and
/// ends at or before `end`; nothing where none does.
pub open spec fn blank_at(s: Seq<u8>, pos: int, end: int) -> int {
    if pos < 0 || pos >= end || end > s.len() {
        0
    } else if is_blank(s[pos]) {
        1
    } else if pos + 2 <= end && is_blank_pair(s[pos], s[pos + 1]) {
        2
    } else if pos + 3 <= end && is_blank_triple(s[pos], s[pos + 1], s[pos + 2]) {
        3
    } else {
        0
    }
}

/// The number of bytes of the white-space character that ends at `end` and
/// starts at or after `start`; nothing where none does.
pub open spec fn blank_before(s: Seq<u8>, start: int, end: int) -> int {
    if start < 0 || end <= start || end > s.len() {
        0
    } else if is_blank(s[end - 1]) {
        1
    } else if start + 2 <= end && is_blank_pair(s[end - 2], s[end - 1]) {
        2
    } else if start + 3 <= end && is_blank_triple(s[end - 3], s[end - 2], s[end - 1]) {
        3
    } else {
        0
    }
}

/// The first position at or after `pos` at which no white space starts.
pub open spec fn blank_end(s: Seq<u8>, pos: int, end: int) -> int
    decreases end - pos,
{
    if blank_at(s, pos, end) == 0 {
        pos
    } else {
        blank_end(s, pos + blank_at(s, pos, end), end)
    }
}

/// The last position at or before `end` at which no white space ends.
pub open spec fn blank_start(s: Seq<u8>, start: int, end: int) -> int
    decreases end - start,
{
    if blank_before(s, start, end) == 0 {
        end
    } else {
        blank_start(s, start, end - blank_before(s, start, end))
    }
}

/// The part of `s` between `start` and `end` without the white space at its
/// ends; nothing where the two do not mark a part of `s`.
pub open spec fn trimmed(s: Seq<u8>, start: int, end: int) -> Seq<u8> {
    let from = blank_end(s, start, end);
    if 0 <= start <= end <= s.len() {
        s.subrange(from, blank_start(s, from, end))
    } else {
        Seq::empty()
    }
}

fn is_blank_byte(b: u8) -> (r: bool)
    ensures
        r == is_blank(b),
{
    (0x09 <= b && b <= 0x0D) || b == 0x20
}

fn blank_pair(a: u8, b: u8) -> (r: bool)
    ensures
        r == is_blank_pair(a, b),
{
    a == 0xC2 && (b == 0x85 || b == 0xA0)
}

fn blank_triple(a: u8, b: u8, c: u8) -> (r: bool)
    ensures
        r == is_blank_triple(a, b, c),
{
    (a == 0xE1 && b == 0x9A && c == 0x80) || (a == 0xE2 && b == 0x80 && ((0x80 <= c && c <= 0x8A) || c
        == 0xA8 || c == 0xA9 || c == 0xAF)) || (a == 0xE2 && b == 0x81 && c == 0x9F) || (a == 0xE3 && b
        == 0x80 && c == 0x80)
}

fn blank_len_at(s: &[u8], pos: usize, end: usize) -> (n: usize)
    requires
        pos <= end <= s@.len(),
    ensures
        n == blank_at(s@, pos as int, end as int),
        pos + n <= end,
{
    if pos >= end {
        0
    } else if is_blank_byte(s[pos]) {
        1
    } else if end - pos >= 2 && blank_pair(s[pos], s[pos + 1]) {
        2
    } else if end - pos >= 3 && blank_triple(s[pos], s[pos + 1], s[pos + 2]) {
        3
    } else {
        0
    }
}

fn blank_len_before(s: &[u8], start: usize, end: usize) -> (n: usize)
    requires
        start <= end <= s@.len(),
    ensures
        n == blank_before(s@, start as int, end as int),
        start + n <= end,
{
    if end <= start {
        0
    } else if is_blank_byte(s[end - 1]) {
        1
    } else if end - start >= 2 && blank_pair(s[end - 2], s[end - 1]) {
        2
    } else if end - start >= 3 && blank_triple(s[end - 3], s[end - 2], s[end - 1]) {
        3
    } else {
        0
    }
}

/// The part of a text between `start` and `end` without the white space at its
/// ends.
pub fn trim_segment<'a>(text: &'a [u8], start: usize, end: usize) -> (r: &'a [u8])
    ensures
        r@ == trimmed(text@, start as int, end as int),
        start <= end ==> r@.len() <= end - start,
        r@.len() <= text@.len(),
{
    if start > end || end > text.len() {
        return slice_subrange(text, 0, 0);
    }
    let mut from: usize = start;
    loop
        invariant
            start <= from <= end <= text@.len(),
            blank_end(text@, start as int, end as int) == blank_end(text@, from as int, end as int),
        ensures
            from == blank_end(text@, start as int, end as int),
        decreases end - from,
    {
        let n = blank_len_at(text, from, end);
        if n == 0 {
            break ;
        }
        from = from + n;
    }
    let mut to: usize = end;
    loop
        invariant
            from <= to <= end <= text@.len(),
            blank_start(text@, from as int, end as int) == blank_start(text@, from as int, to as int),
        ensures
            to == blank_start(text@, from as int, end as int),
        decreases to - from,
    {
        let n = blank_len_before(text, from, to);
        if n == 0 {
            break ;
        }
        to = to - n;
    }
    slice_subrange(text, from, to)
}

} // verus!
