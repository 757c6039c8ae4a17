//! The lexer: where the tokens of a text start and end, and of what kind they are.

use crate::span::Span;
use vstd::prelude::*;

verus! {

/// The kinds of token with the way they are written: an item or a statement
/// stands bare or between quotes.
#[derive(Clone, Copy, Debug, PartialEq, Eq, Structural)]
pub enum Token {
    /// `{`: a group is starting.
    GroupStart,
    /// `}`: a group is ending.
    GroupEnd,
    /// A bare item.
    Item,
    /// An item enclosed in double quotes.
    QuotedItem,
    /// A bare statement: it starts with `#`.
    Statement,
    /// A statement enclosed in double quotes.
    QuotedStatement,
}

impl Token {
    /// Whether a token written this way stands between quotes.
    pub open spec fn is_quoted(self) -> bool {
        self == Token::QuotedItem || self == Token::QuotedStatement
    }

    /// The way a token of the given kind is written, between quotes or not.
    pub open spec fn written(kind: crate::parser::Token, quoted: bool) -> Token {
        match kind {
            crate::parser::Token::GroupStart => Token::GroupStart,
            crate::parser::Token::GroupEnd => Token::GroupEnd,
            crate::parser::Token::Item => if quoted {
                Token::QuotedItem
            } else {
                Token::Item
            },
            crate::parser::Token::Statement => if quoted {
                Token::QuotedStatement
            } else {
                Token::Statement
            },
        }
    }

    /// The name of the kind of token, as messages give it.
    pub open spec fn spec_name(self) -> Seq<char> {
        match self {
            Token::GroupStart => "start of group"@,
            Token::GroupEnd => "end of group"@,
            Token::Item => "item"@,
            Token::QuotedItem => "quoted item"@,
            Token::Statement => "statement"@,
            Token::QuotedStatement => "quoted statement"@,
        }
    }

    /// The name of the kind of token, as messages give it.
    pub fn name(&self) -> (r: &'static str)
        ensures
            r@ == self.spec_name(),
    {
        match self {
            Token::GroupStart => "start of group",
            Token::GroupEnd => "end of group",
            Token::Item => "item",
            Token::QuotedItem => "quoted item",
            Token::Statement => "statement",
            Token::QuotedStatement => "quoted statement",
        }
    }
}

/// A space.
pub const SPACE: u8 = 0x20;

/// A horizontal tab.
pub const TAB: u8 = 0x09;

/// A line feed, which ends a line.
pub const LINE_FEED: u8 = 0x0A;

/// A carriage return.
pub const CARRIAGE_RETURN: u8 = 0x0D;

/// `"`, which encloses a quoted token.
pub const QUOTE: u8 = 0x22;

/// `#`, which starts a statement.
pub const HASH: u8 = 0x23;

/// `/`: two of them start a comment.
pub const SLASH: u8 = 0x2F;

/// `\`, which escapes a quote or another backslash.
pub const BACKSLASH: u8 = 0x5C;

/// `{`, which starts a group.
pub const BRACE_OPEN: u8 = 0x7B;

/// `}`, which ends a group.
pub const BRACE_CLOSE: u8 = 0x7D;

/// Bytes that separate tokens and belong to none: space, tab, carriage return and
/// line feed.
pub open spec fn is_whitespace(b: u8) -> bool {
    b == SPACE || b == TAB || b == LINE_FEED || b == CARRIAGE_RETURN
}

/// Bytes that end a bare item.
pub open spec fn ends_item(b: u8) -> bool {
    is_whitespace(b) || b == BRACE_OPEN || b == BRACE_CLOSE
}

/// Bytes that end a bare statement.
pub open spec fn ends_statement(b: u8) -> bool {
    ends_item(b) || b == QUOTE
}

/// Whether a `//` comment starts at `pos`.
pub open spec fn starts_comment(src: Seq<u8>, pos: int) -> bool {
    0 <= pos && pos + 1 < src.len() && src[pos] == SLASH && src[pos + 1] == SLASH
}

/// The first position at or after `pos` that holds a line feed, or the end of the text.
pub open spec fn line_end(src: Seq<u8>, pos: int) -> int
    decreases src.len() - pos,
{
    if pos < 0 || pos >= src.len() || src[pos] == LINE_FEED {
        pos
    } else {
        line_end(src, pos + 1)
    }
}

/// The first position at or after `pos` that is neither whitespace nor inside a comment.
pub open spec fn skip_trivia(src: Seq<u8>, pos: int) -> int
    decreases src.len() - pos,
{
    if pos < 0 || pos >= src.len() {
        pos
    } else if is_whitespace(src[pos]) {
        skip_trivia(src, pos + 1)
    } else if starts_comment(src, pos) {
        proof {
            lemma_line_end_bounds(src, pos + 2);
        }
        skip_trivia(src, line_end(src, pos + 2))
    } else {
        pos
    }
}

/// The first position at or after `pos` that holds a byte ending a bare item, or the end.
pub open spec fn item_end(src: Seq<u8>, pos: int) -> int
    decreases src.len() - pos,
{
    if pos < 0 || pos >= src.len() || ends_item(src[pos]) {
        pos
    } else {
        item_end(src, pos + 1)
    }
}

/// The first position at or after `pos` that holds a byte ending a bare statement, or the end.
pub open spec fn statement_end(src: Seq<u8>, pos: int) -> int
    decreases src.len() - pos,
{
    if pos < 0 || pos >= src.len() || ends_statement(src[pos]) {
        pos
    } else {
        statement_end(src, pos + 1)
    }
}

/// Scans the inside of a quoted token from `pos`. A backslash takes the byte
/// after it along, unless that byte is a line feed. The result says whether a
/// closing quote was found, and gives the position after it; without one, the
/// position where the scan could not go on.
pub open spec fn quoted_end(src: Seq<u8>, pos: int) -> (bool, int)
    decreases src.len() - pos,
{
    if pos < 0 || pos >= src.len() {
        (false, pos)
    } else if src[pos] == QUOTE {
        (true, pos + 1)
    } else if src[pos] == BACKSLASH {
        if pos + 1 >= src.len() || src[pos + 1] == LINE_FEED {
            (false, pos + 1)
        } else {
            quoted_end(src, pos + 2)
        }
    } else {
        quoted_end(src, pos + 1)
    }
}

/// The token that starts at `start`, where `start` holds a byte that is not trivia:
/// a brace alone; a quoted token up to its closing quote; `#` with the bytes up to
/// the next separator or quote, at least one; anything else with the bytes up to the
/// next separator. A quoted token whose content starts with `#` is a statement. Where
/// none of these fits, the range that could not be read.
pub open spec fn token_at(src: Seq<u8>, start: int) -> Result<SpannedToken, Span>
    recommends
        0 <= start < src.len(),
{
    let first = src[start];
    if first == BRACE_OPEN {
        Ok(spanned(Token::GroupStart, start, start + 1))
    } else if first == BRACE_CLOSE {
        Ok(spanned(Token::GroupEnd, start, start + 1))
    } else if first == QUOTE {
        let (closed, end) = quoted_end(src, start + 1);
        if !closed {
            Err(Span { start: start as usize, end: end as usize })
        } else if src[start + 1] == HASH {
            Ok(spanned(Token::QuotedStatement, start, end))
        } else {
            Ok(spanned(Token::QuotedItem, start, end))
        }
    } else if first == HASH {
        let end = statement_end(src, start + 1);
        if end == start + 1 {
            Err(Span { start: start as usize, end: end as usize })
        } else {
            Ok(spanned(Token::Statement, start, end))
        }
    } else {
        Ok(spanned(Token::Item, start, item_end(src, start + 1)))
    }
}

/// What the lexer finds from `pos` on: nothing when only trivia is left, else the
/// next token or the range that is no token.
pub open spec fn lex_at(src: Seq<u8>, pos: int) -> Option<Result<SpannedToken, Span>> {
    let start = skip_trivia(src, pos);
    if start >= src.len() {
        None
    } else {
        Some(token_at(src, start))
    }
}

/// The position after what `lex_at` finds from `pos` on.
pub open spec fn lex_end(src: Seq<u8>, pos: int) -> int {
    match lex_at(src, pos) {
        None => skip_trivia(src, pos),
        Some(Ok(token)) => token.span.end as int,
        Some(Err(span)) => span.end as int,
    }
}

/// A token with the range of bytes it was read from. The kind is that of the
/// format: an item or a statement is one whether it stands bare or between
/// quotes, and `quoted` tells the two ways of writing apart.
#[derive(Clone, Copy, Debug, PartialEq, Eq, Structural)]
pub struct SpannedToken {
    pub token: crate::parser::Token,
    pub quoted: bool,
    pub span: Span,
}

impl SpannedToken {
    /// The kind of the token with the way it is written.
    pub open spec fn spec_written(self) -> Token {
        Token::written(self.token, self.quoted)
    }

    /// The kind of the token with the way it is written.
    pub fn written(&self) -> (r: Token)
        ensures
            r == self.spec_written(),
    {
        match self.token {
            crate::parser::Token::GroupStart => Token::GroupStart,
            crate::parser::Token::GroupEnd => Token::GroupEnd,
            crate::parser::Token::Item => if self.quoted {
                Token::QuotedItem
            } else {
                Token::Item
            },
            crate::parser::Token::Statement => if self.quoted {
                Token::QuotedStatement
            } else {
                Token::Statement
            },
        }
    }
}

/// The token written the given way that covers the bytes from `start` up to `end`.
pub open spec fn spanned(token: Token, start: int, end: int) -> SpannedToken {
    SpannedToken {
        token: crate::parser::Token::of(token),
        quoted: token.is_quoted(),
        span: Span { start: start as usize, end: end as usize },
    }
}

fn spanned_token(token: Token, start: usize, end: usize) -> (r: SpannedToken)
    ensures
        r == spanned(token, start as int, end as int),
{
    let quoted = match token {
        Token::QuotedItem | Token::QuotedStatement => true,
        _ => false,
    };
    SpannedToken { token: crate::parser::Token::from(token), quoted, span: Span::new(start, end) }
}

/// A line ends at or after `pos` and within the text.
pub proof fn lemma_line_end_bounds(src: Seq<u8>, pos: int)
    requires
        0 <= pos <= src.len(),
    ensures
        pos <= line_end(src, pos) <= src.len(),
    decreases src.len() - pos,
{
    if pos < src.len() && src[pos] != LINE_FEED {
        lemma_line_end_bounds(src, pos + 1);
    }
}

/// Skipping ends at or after `pos` and within the text.
pub proof fn lemma_skip_trivia_bounds(src: Seq<u8>, pos: int)
    requires
        0 <= pos <= src.len(),
    ensures
        pos <= skip_trivia(src, pos) <= src.len(),
    decreases src.len() - pos,
{
    if pos < src.len() {
        if is_whitespace(src[pos]) {
            lemma_skip_trivia_bounds(src, pos + 1);
        } else if starts_comment(src, pos) {
            lemma_line_end_bounds(src, pos + 2);
            lemma_skip_trivia_bounds(src, line_end(src, pos + 2));
        }
    }
}

/// A bare item ends at or after `pos` and within the text.
pub proof fn lemma_item_end_bounds(src: Seq<u8>, pos: int)
    requires
        0 <= pos <= src.len(),
    ensures
        pos <= item_end(src, pos) <= src.len(),
    decreases src.len() - pos,
{
    if pos < src.len() && !ends_item(src[pos]) {
        lemma_item_end_bounds(src, pos + 1);
    }
}

/// A bare statement ends at or after `pos` and within the text.
pub proof fn lemma_statement_end_bounds(src: Seq<u8>, pos: int)
    requires
        0 <= pos <= src.len(),
    ensures
        pos <= statement_end(src, pos) <= src.len(),
    decreases src.len() - pos,
{
    if pos < src.len() && !ends_statement(src[pos]) {
        lemma_statement_end_bounds(src, pos + 1);
    }
}

/// The scan of a quoted token ends at or after `pos` and within the text, and
/// after `pos` where the token closes.
pub proof fn lemma_quoted_end_bounds(src: Seq<u8>, pos: int)
    requires
        0 <= pos <= src.len(),
    ensures
        pos <= quoted_end(src, pos).1 <= src.len(),
        quoted_end(src, pos).0 ==> pos < quoted_end(src, pos).1,
    decreases src.len() - pos,
{
    if pos < src.len() && src[pos] != QUOTE {
        if src[pos] == BACKSLASH {
            if pos + 1 < src.len() && src[pos + 1] != LINE_FEED {
                lemma_quoted_end_bounds(src, pos + 2);
            }
        } else {
            lemma_quoted_end_bounds(src, pos + 1);
        }
    }
}

/// Between `pos` and where a bare item ends no byte ends an item, and where it
/// ends a byte that ends one stands, or the text ends.
pub proof fn lemma_item_end_first(src: Seq<u8>, pos: int)
    requires
        0 <= pos <= src.len(),
    ensures
        forall|i: int| pos <= i < item_end(src, pos) ==> !ends_item(#[trigger] src[i]),
        item_end(src, pos) < src.len() ==> ends_item(src[item_end(src, pos)]),
    decreases src.len() - pos,
{
    if pos < src.len() && !ends_item(src[pos]) {
        lemma_item_end_first(src, pos + 1);
    }
}

/// Between `pos` and where a bare statement ends no byte ends a statement, and
/// where it ends a byte that ends one stands, or the text ends.
pub proof fn lemma_statement_end_first(src: Seq<u8>, pos: int)
    requires
        0 <= pos <= src.len(),
    ensures
        forall|i: int| pos <= i < statement_end(src, pos) ==> !ends_statement(#[trigger] src[i]),
        statement_end(src, pos) < src.len() ==> ends_statement(src[statement_end(src, pos)]),
    decreases src.len() - pos,
{
    if pos < src.len() && !ends_statement(src[pos]) {
        lemma_statement_end_first(src, pos + 1);
    }
}

/// Where skipping ends within the text, a byte stands that is no whitespace and
/// starts no comment.
pub proof fn lemma_skip_trivia_stops(src: Seq<u8>, pos: int)
    requires
        0 <= pos <= src.len(),
    ensures
        skip_trivia(src, pos) < src.len() ==> !is_whitespace(src[skip_trivia(src, pos)])
            && !starts_comment(src, skip_trivia(src, pos)),
    decreases src.len() - pos,
{
    if pos < src.len() {
        if is_whitespace(src[pos]) {
            lemma_skip_trivia_stops(src, pos + 1);
        } else if starts_comment(src, pos) {
            lemma_line_end_bounds(src, pos + 2);
            lemma_skip_trivia_stops(src, line_end(src, pos + 2));
        }
    }
}

/// A quoted token that closes ends with a quote.
pub proof fn lemma_quoted_end_closes(src: Seq<u8>, pos: int)
    requires
        0 <= pos <= src.len(),
        quoted_end(src, pos).0,
    ensures
        pos < quoted_end(src, pos).1 <= src.len(),
        src[quoted_end(src, pos).1 - 1] == QUOTE,
    decreases src.len() - pos,
{
    if pos < src.len() && src[pos] != QUOTE {
        if src[pos] == BACKSLASH {
            lemma_quoted_end_closes(src, pos + 2);
        } else {
            lemma_quoted_end_closes(src, pos + 1);
        }
    }
}

/// Every token, and every range that is no token, starts at or after the position
/// the lexer was asked at, holds at least one byte and ends within the text.
pub proof fn lemma_lex_bounds(src: Seq<u8>, pos: int)
    requires
        0 <= pos <= src.len() <= usize::MAX,
    ensures
        pos <= lex_end(src, pos) <= src.len(),
        match lex_at(src, pos) {
            None => lex_end(src, pos) == src.len(),
            Some(Ok(token)) => pos <= token.span.start < token.span.end <= src.len(),
            Some(Err(span)) => pos <= span.start < span.end <= src.len(),
        },
{
    lemma_skip_trivia_bounds(src, pos);
    let start = skip_trivia(src, pos);
    if start < src.len() {
        lemma_quoted_end_bounds(src, start + 1);
        lemma_statement_end_bounds(src, start + 1);
        lemma_item_end_bounds(src, start + 1);
    }
}

fn is_whitespace_byte(b: u8) -> (r: bool)
    ensures
        r == is_whitespace(b),
{
    b == SPACE || b == TAB || b == LINE_FEED || b == CARRIAGE_RETURN
}

fn ends_item_byte(b: u8) -> (r: bool)
    ensures
        r == ends_item(b),
{
    is_whitespace_byte(b) || b == BRACE_OPEN || b == BRACE_CLOSE
}

fn scan_trivia(src: &[u8], pos: usize) -> (end: usize)
    requires
        pos <= src@.len(),
    ensures
        end == skip_trivia(src@, pos as int),
        pos <= end <= src@.len(),
{
    let mut i: usize = pos;
    loop
        invariant
            pos <= i <= src@.len(),
            skip_trivia(src@, pos as int) == skip_trivia(src@, i as int),
        ensures
            i == skip_trivia(src@, pos as int),
        decreases src@.len() - i,
    {
        if i >= src.len() {
            break ;
        }
        if is_whitespace_byte(src[i]) {
            i = i + 1;
        } else if src[i] == SLASH && i + 1 < src.len() && src[i + 1] == SLASH {
            let mut j: usize = i + 2;
            while j < src.len() && src[j] != LINE_FEED
                invariant
                    i + 2 <= j <= src@.len(),
                    line_end(src@, i + 2) == line_end(src@, j as int),
                decreases src@.len() - j,
            {
                j = j + 1;
            }
            i = j;
        } else {
            break ;
        }
    }
    i
}

fn scan_item(src: &[u8], pos: usize) -> (end: usize)
    requires
        pos <= src@.len(),
    ensures
        end == item_end(src@, pos as int),
        pos <= end <= src@.len(),
{
    let mut i: usize = pos;
    while i < src.len() && !ends_item_byte(src[i])
        invariant
            pos <= i <= src@.len(),
            item_end(src@, pos as int) == item_end(src@, i as int),
        decreases src@.len() - i,
    {
        i = i + 1;
    }
    i
}

fn scan_statement(src: &[u8], pos: usize) -> (end: usize)
    requires
        pos <= src@.len(),
    ensures
        end == statement_end(src@, pos as int),
        pos <= end <= src@.len(),
{
    let mut i: usize = pos;
    while i < src.len() && !(ends_item_byte(src[i]) || src[i] == QUOTE)
        invariant
            pos <= i <= src@.len(),
            statement_end(src@, pos as int) == statement_end(src@, i as int),
        decreases src@.len() - i,
    {
        i = i + 1;
    }
    i
}

fn scan_quoted(src: &[u8], pos: usize) -> (r: (bool, usize))
    requires
        pos <= src@.len(),
    ensures
        r.0 == quoted_end(src@, pos as int).0,
        r.1 == quoted_end(src@, pos as int).1,
        pos <= r.1 <= src@.len(),
        r.0 ==> pos < r.1,
{
    let mut i: usize = pos;
    let mut closed = false;
    loop
        invariant_except_break
            !closed,
            quoted_end(src@, pos as int) == quoted_end(src@, i as int),
        invariant
            pos <= i <= src@.len(),
        ensures
            closed == quoted_end(src@, pos as int).0,
            i == quoted_end(src@, pos as int).1,
            closed ==> pos < i,
        decreases src@.len() - i,
    {
        if i >= src.len() {
            break ;
        }
        let b = src[i];
        if b == QUOTE {
            closed = true;
            i = i + 1;
            break ;
        } else if b == BACKSLASH {
            if i + 1 >= src.len() || src[i + 1] == LINE_FEED {
                i = i + 1;
                break ;
            }
            i = i + 2;
        } else {
            i = i + 1;
        }
    }
    (closed, i)
}

/// Reads the next token from `pos` on. Beside what was found, gives the position
/// at which to go on. Nothing is found from a position after the end of the text.
pub fn lex(src: &[u8], pos: usize) -> (r: (Option<Result<SpannedToken, Span>>, usize))
    ensures
        r.0 == lex_at(src@, pos as int),
        r.1 == lex_end(src@, pos as int),
        pos <= r.1,
        pos <= src@.len() ==> r.1 <= src@.len(),
{
    let len = src.len();
    if pos > len {
        return (None, pos);
    }
    proof {
        lemma_lex_bounds(src@, pos as int);
    }
    let start = scan_trivia(src, pos);
    if start >= len {
        return (None, start);
    }
    let first = src[start];
    if first == BRACE_OPEN {
        (Some(Ok(spanned_token(Token::GroupStart, start, start + 1))), start + 1)
    } else if first == BRACE_CLOSE {
        (Some(Ok(spanned_token(Token::GroupEnd, start, start + 1))), start + 1)
    } else if first == QUOTE {
        let (closed, end) = scan_quoted(src, start + 1);
        if !closed {
            (Some(Err(Span::new(start, end))), end)
        } else if src[start + 1] == HASH {
            (Some(Ok(spanned_token(Token::QuotedStatement, start, end))), end)
        } else {
            (Some(Ok(spanned_token(Token::QuotedItem, start, end))), end)
        }
    } else if first == HASH {
        let end = scan_statement(src, start + 1);
        if end == start + 1 {
            (Some(Err(Span::new(start, end))), end)
        } else {
            (Some(Ok(spanned_token(Token::Statement, start, end))), end)
        }
    } else {
        let end = scan_item(src, start + 1);
        (Some(Ok(spanned_token(Token::Item, start, end))), end)
    }
}

} // verus!
