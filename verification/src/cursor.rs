//! The cursor of the decoder: a tokenizer with one token of lookahead.

use crate::error::{expect_next, ErrorModel, ExpectToken, VdfError};
use crate::lexer::{lemma_lex_bounds, lex_at, SpannedToken};
use crate::parser::Token;
use crate::span::Span;
use crate::tokenizer::{lex_step, token_text, LexState, Tokenizer};
use vstd::prelude::*;
use vstd::string::StringSliceAdditionalSpecFns;

verus! {

/// Where a decoder stands in its text.
pub struct Cursor {
    /// Where the tokenizer stands.
    pub lex: LexState,
    /// What was read ahead and not taken yet.
    pub peeked: Option<Result<SpannedToken, Span>>,
    /// The key read last.
    pub last_key: Seq<u8>,
    /// The range of what was taken last.
    pub last_span: Span,
}

/// The kinds of token that hold a text.
pub open spec fn string_items() -> Seq<Token> {
    seq![Token::Item, Token::Statement]
}

/// The kinds of token that may start a value.
pub open spec fn value_token() -> Seq<Token> {
    seq![Token::Item, Token::Statement, Token::GroupStart]
}

/// The kinds of token that may stand where a key is read inside a group.
pub open spec fn key_token() -> Seq<Token> {
    seq![Token::Item, Token::Statement, Token::GroupEnd]
}

/// The kinds of token that hold a text.
pub fn string_item_tokens() -> (r: Vec<Token>)
    ensures
        r@ == string_items(),
{
    vec![Token::Item, Token::Statement]
}

/// The kinds of token that may start a value.
pub fn value_tokens() -> (r: Vec<Token>)
    ensures
        r@ == value_token(),
{
    vec![Token::Item, Token::Statement, Token::GroupStart]
}

/// The kinds of token that may stand where a key is read inside a group.
pub fn key_tokens() -> (r: Vec<Token>)
    ensures
        r@ == key_token(),
{
    vec![Token::Item, Token::Statement, Token::GroupEnd]
}

/// The kind of token that starts a group, alone.
pub fn group_start_tokens() -> (r: Vec<Token>)
    ensures
        r@ == seq![Token::GroupStart],
{
    vec![Token::GroupStart]
}

/// The kind of token that ends a group, alone.
pub fn group_end_tokens() -> (r: Vec<Token>)
    ensures
        r@ == seq![Token::GroupEnd],
{
    vec![Token::GroupEnd]
}

impl Cursor {
    /// The cursor before anything was read.
    pub open spec fn start() -> Cursor {
        Cursor {
            lex: LexState { pos: 0, span: Span { start: 0, end: 0 }, count: 0 },
            peeked: None,
            last_key: Seq::empty(),
            last_span: Span { start: 0, end: 0 },
        }
    }

    /// Whether the cursor stands within `src`.
    pub open spec fn fits(self, src: Seq<u8>) -> bool {
        0 <= self.lex.pos <= src.len() <= usize::MAX
    }

    /// A measure of what is left to read: it falls with every token taken, and
    /// never rises but by a token put back.
    pub open spec fn remaining(self, src: Seq<u8>) -> int {
        2 * (src.len() - self.lex.pos) + (if self.peeked is Some {
            1int
        } else {
            0int
        })
    }

    /// What is taken next: what was read ahead, else what the tokenizer reads.
    pub open spec fn next_found(self, src: Seq<u8>) -> Option<Result<SpannedToken, Span>> {
        match self.peeked {
            Some(found) => Some(found),
            None => lex_at(src, self.lex.pos),
        }
    }

    /// The cursor after the next token was taken. The range of what was taken is
    /// remembered.
    pub open spec fn after_next(self, src: Seq<u8>) -> Cursor {
        Cursor {
            lex: if self.peeked is Some {
                self.lex
            } else {
                lex_step(src, self.lex)
            },
            peeked: None,
            last_key: self.last_key,
            last_span: match self.next_found(src) {
                Some(Ok(token)) => token.span,
                Some(Err(span)) => span,
                None => self.last_span,
            },
        }
    }

    /// The cursor after the next token was looked at: it is read ahead and kept.
    pub open spec fn after_peek(self, src: Seq<u8>) -> Cursor {
        if self.peeked is Some {
            self
        } else {
            Cursor {
                lex: lex_step(src, self.lex),
                peeked: lex_at(src, self.lex.pos),
                last_key: self.last_key,
                last_span: self.last_span,
            }
        }
    }

    /// The start and end of the next token, where a token comes next.
    pub open spec fn next_span(self, src: Seq<u8>) -> Option<Span> {
        match self.next_found(src) {
            Some(Ok(token)) => Some(token.span),
            _ => None,
        }
    }

    /// The cursor with `token` put back as what comes next.
    pub open spec fn with_peeked(self, token: SpannedToken) -> Cursor {
        Cursor { lex: self.lex, peeked: Some(Ok(token)), last_key: self.last_key, last_span: self.last_span }
    }

    /// The cursor with `key` as the key read last.
    pub open spec fn with_last_key(self, key: Seq<u8>) -> Cursor {
        Cursor { lex: self.lex, peeked: self.peeked, last_key: key, last_span: self.last_span }
    }

    /// The text and range of the next token where it holds a text, else the error.
    pub open spec fn next_text(self, src: Seq<u8>) -> Result<(Seq<u8>, Span), ErrorModel> {
        match expect_next(self.next_found(src), string_items(), src) {
            Ok(token) => Ok((token_text(src, token), token.span)),
            Err(e) => Err(e),
        }
    }
}

/// Taking or looking at a token keeps the cursor within the text and never raises
/// what is left; taking a token lowers it.
pub proof fn lemma_cursor_moves(src: Seq<u8>, c: Cursor)
    requires
        c.fits(src),
    ensures
        c.after_next(src).fits(src),
        c.after_peek(src).fits(src),
        c.after_next(src).remaining(src) <= c.remaining(src),
        c.after_peek(src).remaining(src) <= c.remaining(src),
        c.next_found(src) is Some ==> c.after_next(src).remaining(src) < c.remaining(src),
        c.next_found(src) is Some ==> c.remaining(src) > 0,
        c.after_peek(src).next_found(src) == c.next_found(src),
        c.after_peek(src).after_next(src) == c.after_next(src),
        c.remaining(src) >= 0,
{
    lemma_lex_bounds(src, c.lex.pos);
    let stepped = lex_step(src, c.lex);
    lemma_lex_bounds(src, stepped.pos);
}

/// A cursor over a text: a tokenizer with one token of lookahead, which
/// remembers the key read last and the range of the token taken last.
pub struct Deserializer<'de> {
    tokenizer: Tokenizer<'de>,
    peeked: Option<Result<SpannedToken, Span>>,
    last_key: Vec<u8>,
    last_span: Span,
}

/// The view of a text with its range, or of the error in its place.
pub open spec fn text_result(r: Result<(Vec<u8>, Span), VdfError>) -> Result<(Seq<u8>, Span), ErrorModel> {
    match r {
        Ok((text, span)) => Ok((text@, span)),
        Err(e) => Err(e@),
    }
}

impl<'de> Deserializer<'de> {
    /// The text that is read.
    pub closed spec fn text(&self) -> Seq<u8> {
        self.tokenizer.text()
    }

    /// Where the decoder stands.
    pub closed spec fn cursor(&self) -> Cursor {
        Cursor {
            lex: self.tokenizer.state(),
            peeked: self.peeked,
            last_key: self.last_key@,
            last_span: self.last_span,
        }
    }

    /// A decoder at the start of `input`.
    pub fn from_str(input: &'de str) -> (r: Self)
        ensures
            r.text() == input.spec_bytes(),
            r.cursor() == Cursor::start(),
    {
        Deserializer {
            tokenizer: Tokenizer::from_str(input),
            peeked: None,
            last_key: Vec::new(),
            last_span: Span::new(0, 0),
        }
    }

    /// A decoder at the start of `input`.
    pub fn from_bytes(input: &'de [u8]) -> (r: Self)
        ensures
            r.text() == input@,
            r.cursor() == Cursor::start(),
    {
        Deserializer {
            tokenizer: Tokenizer::from_bytes(input),
            peeked: None,
            last_key: Vec::new(),
            last_span: Span::new(0, 0),
        }
    }

    /// The text that is read.
    pub fn source(&self) -> (r: &'de [u8])
        ensures
            r@ == self.text(),
            self.cursor().fits(self.text()),
    {
        let _ = self.tokenizer.offset();
        let source = self.tokenizer.source();
        let _ = source.len();
        source
    }

    /// The number of tokens that the tokenizer has read.
    pub fn count(&self) -> (r: usize)
        ensures
            r == self.cursor().lex.count,
    {
        self.tokenizer.count()
    }

    /// The range of the token taken last.
    pub fn last_span(&self) -> (r: Span)
        ensures
            r == self.cursor().last_span,
    {
        self.last_span
    }

    /// The key read last.
    pub fn last_key(&self) -> (r: &[u8])
        ensures
            r@ == self.cursor().last_key,
    {
        self.last_key.as_slice()
    }

    /// The position of the tokenizer, and whether a token was read ahead.
    pub fn mark(&self) -> (r: (usize, bool))
        ensures
            r.0 == self.cursor().lex.pos,
            r.1 == (self.cursor().peeked is Some),
            self.cursor().fits(self.text()),
    {
        let source = self.tokenizer.source();
        let _ = source.len();
        (self.tokenizer.offset(), self.peeked.is_some())
    }

    /// Takes the next token. `None` at the end of the text.
    pub fn next(&mut self) -> (r: Option<Result<SpannedToken, Span>>)
        ensures
            r == old(self).cursor().next_found(old(self).text()),
            final(self).cursor() == old(self).cursor().after_next(old(self).text()),
            final(self).text() == old(self).text(),
    {
        let found = match self.peeked {
            Some(found) => {
                self.peeked = None;
                Some(found)
            },
            None => self.tokenizer.next(),
        };
        match found {
            Some(Ok(token)) => {
                self.last_span = token.span;
            },
            Some(Err(span)) => {
                self.last_span = span;
            },
            None => {},
        }
        found
    }

    /// Looks at the next token without taking it.
    pub fn peek(&mut self) -> (r: Option<Result<SpannedToken, Span>>)
        ensures
            r == old(self).cursor().next_found(old(self).text()),
            final(self).cursor() == old(self).cursor().after_peek(old(self).text()),
            final(self).text() == old(self).text(),
    {
        if self.peeked.is_none() {
            self.peeked = self.tokenizer.next();
        }
        self.peeked
    }

    /// The range of the next token, where a token comes next.
    pub fn peek_span(&mut self) -> (r: Option<Span>)
        ensures
            r == old(self).cursor().next_span(old(self).text()),
            final(self).cursor() == old(self).cursor().after_peek(old(self).text()),
            final(self).text() == old(self).text(),
    {
        match self.peek() {
            Some(Ok(token)) => Some(token.span),
            _ => None,
        }
    }

    /// Puts a token back: it is what comes next.
    pub fn push_peeked(&mut self, token: SpannedToken)
        ensures
            final(self).cursor() == old(self).cursor().with_peeked(token),
            final(self).text() == old(self).text(),
    {
        self.peeked = Some(Ok(token));
    }

    /// Takes the next token as a text: an item or a statement, bare or quoted.
    /// Gives its decoded text and its range.
    pub fn read_str(&mut self) -> (r: Result<(Vec<u8>, Span), VdfError>)
        ensures
            text_result(r) == old(self).cursor().next_text(old(self).text()),
            final(self).cursor() == old(self).cursor().after_next(old(self).text()),
            final(self).text() == old(self).text(),
    {
        let source = self.source();
        let expected = string_item_tokens();
        match self.next().expect_token(expected.as_slice(), source) {
            Ok(token) => Ok((token.string(source), token.span)),
            Err(e) => Err(e),
        }
    }

    /// Remembers `key` as the key read last.
    pub fn set_last_key(&mut self, key: Vec<u8>)
        ensures
            final(self).cursor() == old(self).cursor().with_last_key(key@),
            final(self).text() == old(self).text(),
    {
        self.last_key = key;
    }
}

} // verus!
