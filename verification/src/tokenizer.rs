//! The tokenizer: a lexer that remembers where it stands, and the text of a token.

use crate::lexer::{lemma_lex_bounds, lex, lex_at, lex_end, SpannedToken};
use crate::reader::{quoted_content, quoted_string, string};
use crate::span::Span;
use crate::text;
use crate::text::slice_of;
use vstd::prelude::*;
use vstd::string::StringSliceAdditionalSpecFns;

verus! {

/// The decoded text of a token read from `src`: what the token covers, and for a
/// quoted token its content.
pub open spec fn token_text(src: Seq<u8>, token: SpannedToken) -> Seq<u8> {
    let full = slice_of(src, token.span);
    if token.quoted {
        quoted_content(full)
    } else {
        full
    }
}

impl SpannedToken {
    /// The decoded text of the token, read from the source it came from.
    pub fn string(&self, source: &[u8]) -> (r: Vec<u8>)
        ensures
            r@ == token_text(source@, *self),
    {
        let full = text::slice(source, self.span);
        if self.quoted {
            quoted_string(full)
        } else {
            string(full)
        }
    }
}

/// Where a tokenizer stands in its text.
pub struct LexState {
    /// The position from which the next token is read.
    pub pos: int,
    /// The range of what was read last.
    pub span: Span,
    /// The number of tokens read so far.
    pub count: int,
}

/// The range of what a tokenizer reads from `pos` on: the token, the range that is
/// no token, or the empty range at the end of the text.
pub open spec fn lex_span(src: Seq<u8>, pos: int) -> Span {
    match lex_at(src, pos) {
        None => Span { start: lex_end(src, pos) as usize, end: lex_end(src, pos) as usize },
        Some(Ok(token)) => token.span,
        Some(Err(span)) => span,
    }
}

/// Where a tokenizer stands after it has read once more.
pub open spec fn lex_step(src: Seq<u8>, s: LexState) -> LexState {
    LexState {
        pos: lex_end(src, s.pos),
        span: lex_span(src, s.pos),
        count: s.count + (if lex_at(src, s.pos) matches Some(Ok(_)) {
            1int
        } else {
            0int
        }),
    }
}

/// Reads a source text token by token.
pub struct Tokenizer<'source> {
    source: &'source [u8],
    pos: usize,
    span: Span,
    count: usize,
}

impl<'source> Tokenizer<'source> {
    #[verifier::type_invariant]
    spec fn inv(self) -> bool {
        &&& self.count <= self.pos <= self.source@.len()
        &&& self.span.start <= self.span.end == self.pos
    }

    /// The text that is read.
    pub closed spec fn text(&self) -> Seq<u8> {
        self.source@
    }

    /// The position from which the next token is read.
    pub closed spec fn position(&self) -> int {
        self.pos as int
    }

    /// The number of tokens read so far.
    pub closed spec fn consumed(&self) -> int {
        self.count as int
    }

    /// The range of what was read last.
    pub closed spec fn last_span(&self) -> Span {
        self.span
    }

    /// Where the tokenizer stands.
    pub open spec fn state(&self) -> LexState {
        LexState { pos: self.position(), span: self.last_span(), count: self.consumed() }
    }

    /// A tokenizer at the start of `input`.
    pub fn from_str(input: &'source str) -> (t: Self)
        ensures
            t.text() == input.spec_bytes(),
            t.position() == 0,
            t.consumed() == 0,
            t.last_span() == (Span { start: 0, end: 0 }),
    {
        Tokenizer { source: input.as_bytes(), pos: 0, span: Span::new(0, 0), count: 0 }
    }

    /// A tokenizer at the start of `input`.
    pub fn from_bytes(input: &'source [u8]) -> (t: Self)
        ensures
            t.text() == input@,
            t.position() == 0,
            t.consumed() == 0,
            t.last_span() == (Span { start: 0, end: 0 }),
    {
        Tokenizer { source: input, pos: 0, span: Span::new(0, 0), count: 0 }
    }

    /// The text that is read.
    pub fn source(&self) -> (r: &'source [u8])
        ensures
            r@ == self.text(),
    {
        self.source
    }

    /// The number of tokens read so far.
    pub fn count(&self) -> (r: usize)
        ensures
            r == self.consumed(),
    {
        self.count
    }

    /// The range of what was read last: a token, a range that is no token, or the
    /// empty range at the end of the text. Before anything was read, the empty
    /// range at the start.
    pub fn span(&self) -> (r: Span)
        ensures
            r == self.last_span(),
            r.start <= r.end == self.position(),
    {
        proof {
            use_type_invariant(self);
        }
        self.span
    }

    /// The position from which the next token is read.
    pub fn offset(&self) -> (r: usize)
        ensures
            r == self.position(),
            r <= self.text().len(),
    {
        proof {
            use_type_invariant(self);
        }
        self.pos
    }

    /// Reads the next token: `None` at the end of the text, the token with its
    /// range where there is one, else the range that is no token. Reading goes on
    /// after what was found; only tokens are counted.
    pub fn next(&mut self) -> (r: Option<Result<SpannedToken, Span>>)
        ensures
            r == lex_at(old(self).text(), old(self).position()),
            final(self).text() == old(self).text(),
            final(self).state() == lex_step(old(self).text(), old(self).state()),
            old(self).position() <= final(self).position() <= old(self).text().len(),
            r is Some ==> old(self).position() < final(self).position(),
    {
        proof {
            use_type_invariant(&*self);
        }
        let _ = self.source.len();
        proof {
            lemma_lex_bounds(self.source@, self.pos as int);
        }
        let (found, end) = lex(self.source, self.pos);
        let (span, count) = match found {
            None => (Span::new(end, end), self.count),
            Some(Ok(token)) => (token.span, self.count + 1),
            Some(Err(span)) => (span, self.count),
        };
        *self = Tokenizer { source: self.source, pos: end, span, count };
        found
    }
}

} // verus!
