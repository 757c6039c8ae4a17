//! The kinds of token of the format.

use crate::lexer::{lex, lex_at, lex_end};
use crate::span::Span;
use vstd::prelude::*;
use vstd::std_specs::convert::FromSpecImpl;

verus! {

/// The kinds of token of the format. An item or a statement is one of its kind
/// whether it stands bare or between quotes; a token tells by itself which way it
/// is written.
#[derive(Clone, Copy, Debug, PartialEq, Eq, Structural)]
pub enum Token {
    /// A group is starting.
    GroupStart,
    /// A group is ending.
    GroupEnd,
    /// An enclosed or bare item.
    Item,
    /// An enclosed or bare statement.
    Statement,
}

impl Token {
    /// The kind of a token, quoting aside.
    pub open spec fn of(token: crate::lexer::Token) -> Token {
        match token {
            crate::lexer::Token::GroupStart => Token::GroupStart,
            crate::lexer::Token::GroupEnd => Token::GroupEnd,
            crate::lexer::Token::Item => Token::Item,
            crate::lexer::Token::QuotedItem => Token::Item,
            crate::lexer::Token::Statement => Token::Statement,
            crate::lexer::Token::QuotedStatement => Token::Statement,
        }
    }

    /// The name of the kind of token, as messages give it.
    pub open spec fn spec_name(self) -> Seq<char> {
        match self {
            Token::GroupStart => "start of group"@,
            Token::GroupEnd => "end of group"@,
            Token::Item => "item"@,
            Token::Statement => "statement"@,
        }
    }

    /// The name of the kind of token, as messages give it.
    pub fn name(&self) -> (r: &'static str)
        ensures
            r@ == self.spec_name(),
    {
        match self {
            Token::GroupStart => "start of group",
            Token::GroupEnd => "end of group",
            Token::Item => "item",
            Token::Statement => "statement",
        }
    }
}

impl From<crate::lexer::Token> for Token {
    fn from(token: crate::lexer::Token) -> (r: Token)
        ensures
            r == Token::of(token),
    {
        match token {
            crate::lexer::Token::GroupStart => Token::GroupStart,
            crate::lexer::Token::GroupEnd => Token::GroupEnd,
            crate::lexer::Token::Item => Token::Item,
            crate::lexer::Token::QuotedItem => Token::Item,
            crate::lexer::Token::Statement => Token::Statement,
            crate::lexer::Token::QuotedStatement => Token::Statement,
        }
    }
}

impl FromSpecImpl<crate::lexer::Token> for Token {
    open spec fn obeys_from_spec() -> bool {
        true
    }

    open spec fn from_spec(v: crate::lexer::Token) -> Token {
        Token::of(v)
    }
}

/// What is found from `pos` on, with the kind of a token taken quoting aside.
pub open spec fn kind_at(src: Seq<u8>, pos: int) -> Option<Result<(Token, Span), Span>> {
    match lex_at(src, pos) {
        None => None,
        Some(Ok(token)) => Some(Ok((token.token, token.span))),
        Some(Err(span)) => Some(Err(span)),
    }
}

/// Reads the next token from `pos` on and gives its kind, quoting aside, with its
/// range. Beside what was found, gives the position at which to go on.
pub fn next_kind(src: &[u8], pos: usize) -> (r: (Option<Result<(Token, Span), Span>>, usize))
    ensures
        r.0 == kind_at(src@, pos as int),
        r.1 == lex_end(src@, pos as int),
        pos <= r.1,
        pos <= src@.len() ==> r.1 <= src@.len(),
{
    let (found, end) = lex(src, pos);
    let kind = match found {
        None => None,
        Some(Ok(token)) => Some(Ok((token.token, token.span))),
        Some(Err(span)) => Some(Err(span)),
    };
    (kind, end)
}

} // verus!
