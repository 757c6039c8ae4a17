//! Ranges of bytes in a source text, and the labels that point at them.

use vstd::prelude::*;

verus! {

/// A half-open range of byte offsets into the source text.
#[derive(Clone, Copy, Debug, PartialEq, Eq, Structural)]
pub struct Span {
    pub start: usize,
    pub end: usize,
}

impl Span {
    /// The range from `start` up to, not including, `end`.
    pub fn new(start: usize, end: usize) -> (r: Span)
        ensures
            r == (Span { start, end }),
    {
        Span { start, end }
    }

    /// The number of bytes covered; nothing where the end lies before the start.
    pub open spec fn spec_len(self) -> nat {
        if self.start < self.end {
            (self.end - self.start) as nat
        } else {
            0
        }
    }

    /// The number of bytes covered.
    pub fn len(&self) -> (n: usize)
        ensures
            n == self.spec_len(),
    {
        if self.start < self.end {
            self.end - self.start
        } else {
            0
        }
    }

    /// Whether the range covers no byte.
    pub fn is_empty(&self) -> (b: bool)
        ensures
            b == (self.spec_len() == 0),
    {
        self.start >= self.end
    }
}

/// Where a diagnostic points: a byte offset and a length.
#[derive(Clone, Copy, Debug, PartialEq, Eq, Structural)]
pub struct SourceSpan {
    pub offset: usize,
    pub length: usize,
}

impl SourceSpan {
    /// The offset and length that stand for a range of bytes.
    pub open spec fn of(span: Span) -> SourceSpan {
        SourceSpan { offset: span.start, length: span.spec_len() as usize }
    }

    /// The label for a range of bytes.
    pub fn from_span(span: Span) -> (r: SourceSpan)
        ensures
            r == SourceSpan::of(span),
    {
        let (offset, length) = label_of_range(span.start, span.end);
        SourceSpan { offset, length }
    }
}

/// `miette::SourceSpan::from` on a range, read back through `offset` and `len`:
/// the label starts where the range starts and is as long as the range, an
/// inverted range counting as empty.
#[verifier::external_body]
fn label_of_range(start: usize, end: usize) -> (r: (usize, usize))
    ensures
        r.0 == start,
        r.1 == (Span { start, end }).spec_len(),
{
    let label = miette::SourceSpan::from(start..end);
    (label.offset(), label.len())
}

} // verus!
