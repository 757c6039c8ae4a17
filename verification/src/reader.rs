//! The reader: from tokens to events, the starts and ends of groups and the
//! entries between them. Also the content of quoted tokens.

use crate::error::{ErrorModel, NoValidTokenError, UnexpectedTokenError, VdfError};
use crate::event::{
    EntryEvent, Event, EventModel, EventType, GroupEndEvent, GroupStartEvent, Item, ItemModel,
    ValueContinuationEvent,
};
use crate::lexer::{lex_at, SpannedToken, BACKSLASH, QUOTE};
use crate::parser::Token;
use crate::span::{SourceSpan, Span};
use crate::text;
use crate::text::{has_newline, slice_of};
use crate::tokenizer::{lex_span, lex_step, token_text, LexState, Tokenizer};
use vstd::prelude::*;
use vstd::std_specs::convert::FromSpecImpl;
use vstd::string::StringSliceAdditionalSpecFns;

verus! {

/// Whether the byte at `i` is a backslash and the next one a quote or a backslash.
pub open spec fn is_escape_at(s: Seq<u8>, i: int) -> bool {
    0 <= i && i + 1 < s.len() && s[i] == BACKSLASH && (s[i + 1] == QUOTE || s[i + 1] == BACKSLASH)
}

/// Whether `s` holds an escaped quote or an escaped backslash.
pub open spec fn has_escape(s: Seq<u8>) -> bool {
    exists|i: int| is_escape_at(s, i)
}

/// `s` with each escaped quote and escaped backslash replaced by the byte it stands
/// for. A backslash before any other byte stays, with that byte; one that ends the
/// text is dropped.
pub open spec fn unescape(s: Seq<u8>) -> Seq<u8>
    decreases s.len(),
{
    if s.len() == 0 {
        Seq::empty()
    } else if s[0] != BACKSLASH {
        seq![s[0]] + unescape(s.skip(1))
    } else if s.len() == 1 {
        Seq::empty()
    } else if s[1] == QUOTE || s[1] == BACKSLASH {
        seq![s[1]] + unescape(s.skip(2))
    } else {
        seq![s[0], s[1]] + unescape(s.skip(2))
    }
}

/// What stands between the first and the last byte of `source`.
pub open spec fn strip_quotes(source: Seq<u8>) -> Seq<u8> {
    if source.len() >= 2 {
        source.subrange(1, source.len() - 1)
    } else {
        Seq::empty()
    }
}

/// The content of a quoted token: the quotes stripped and, where an escape occurs,
/// the escapes resolved.
pub open spec fn quoted_content(source: Seq<u8>) -> Seq<u8> {
    let inner = strip_quotes(source);
    if has_escape(inner) {
        unescape(inner)
    } else {
        inner
    }
}

fn find_escape(s: &[u8]) -> (r: bool)
    ensures
        r == has_escape(s@),
{
    let mut i: usize = 0;
    while i < s.len() && i + 1 < s.len()
        invariant
            forall|j: int| 0 <= j < i ==> !is_escape_at(s@, j),
        decreases s@.len() - i,
    {
        if s[i] == BACKSLASH && (s[i + 1] == QUOTE || s[i + 1] == BACKSLASH) {
            assert(is_escape_at(s@, i as int));
            return true;
        }
        i = i + 1;
    }
    false
}

fn resolve_escapes(s: &[u8]) -> (r: Vec<u8>)
    ensures
        r@ == unescape(s@),
{
    let mut out: Vec<u8> = Vec::new();
    let mut i: usize = 0;
    assert(s@.skip(0) =~= s@);
    while i < s.len()
        invariant
            i <= s@.len(),
            unescape(s@) == out@ + unescape(s@.skip(i as int)),
        decreases s@.len() - i,
    {
        let ghost rest = s@.skip(i as int);
        if s[i] != BACKSLASH {
            out.push(s[i]);
            assert(rest.skip(1) =~= s@.skip(i + 1));
            i = i + 1;
        } else if i + 1 >= s.len() {
            i = i + 1;
        } else {
            if s[i + 1] == QUOTE || s[i + 1] == BACKSLASH {
                out.push(s[i + 1]);
            } else {
                out.push(s[i]);
                out.push(s[i + 1]);
            }
            assert(rest.skip(2) =~= s@.skip(i + 2));
            i = i + 2;
        }
    }
    out
}

/// The content of a quoted token, given with its quotes.
pub fn quoted_string(source: &[u8]) -> (r: Vec<u8>)
    ensures
        r@ == quoted_content(source@),
{
    let inner = if source.len() >= 2 {
        vstd::slice::slice_subrange(source, 1, source.len() - 1)
    } else {
        vstd::slice::slice_subrange(source, 0, 0)
    };
    if find_escape(inner) {
        resolve_escapes(inner)
    } else {
        text::to_vec(inner)
    }
}

/// The content of a bare token: its text as it stands.
pub fn string(source: &[u8]) -> (r: Vec<u8>)
    ensures
        r@ == source@,
{
    text::to_vec(source)
}

} // verus!

verus! {

/// The kinds of token that may stand where a key is read.
pub open spec fn valid_key() -> Seq<Token> {
    seq![Token::Item, Token::GroupEnd, Token::Statement]
}

/// The kinds of token that may stand where a value is read.
pub open spec fn valid_value() -> Seq<Token> {
    seq![Token::Item, Token::GroupStart, Token::Statement]
}

fn valid_key_tokens() -> (r: Vec<Token>)
    ensures
        r@ == valid_key(),
{
    vec![Token::Item, Token::GroupEnd, Token::Statement]
}

fn valid_value_tokens() -> (r: Vec<Token>)
    ensures
        r@ == valid_value(),
{
    vec![Token::Item, Token::GroupStart, Token::Statement]
}

/// Whether a token is an item or a statement, bare or quoted.
pub open spec fn is_text_token(token: Token) -> bool {
    token == Token::Item || token == Token::Statement
}

/// The item that a text token stands for: a statement or a value by the kind of
/// the token, with the token's decoded text and range.
pub open spec fn item_of(src: Seq<u8>, token: SpannedToken) -> ItemModel {
    if token.token == Token::Statement {
        ItemModel::Statement { content: token_text(src, token), span: token.span }
    } else {
        ItemModel::Item { content: token_text(src, token), span: token.span }
    }
}

/// Where a reader stands: its tokenizer, and the kind of the event it gave last.
pub struct ReaderState {
    pub lex: LexState,
    pub last_event: Option<EventType>,
}

/// Whether a line feed stands between the end of what was read last and the start
/// of the token read next.
pub open spec fn newline_before(src: Seq<u8>, s: LexState) -> bool {
    has_newline(slice_of(src, Span { start: s.span.end, end: lex_span(src, s.pos).start }))
}

/// The event that the key token `key` opens. After an entry or one more value of
/// it, a token on the same line is one more value. Else the next token decides: a
/// `{` starts a group named by the key, an item or statement completes an entry.
pub open spec fn event_after_key(src: Seq<u8>, s: ReaderState, key: SpannedToken) -> Result<
    EventModel,
    ErrorModel,
> {
    let after_key = lex_step(src, s.lex);
    let has_value = s.last_event == Some(EventType::Entry) || s.last_event == Some(
        EventType::ValueContinuation,
    );
    if has_value && !newline_before(src, s.lex) {
        Ok(EventModel::ValueContinuation { value: item_of(src, key), span: key.span })
    } else {
        match lex_at(src, after_key.pos) {
            None => Err(
                ErrorModel::UnexpectedToken {
                    expected: valid_value(),
                    found: None,
                    span: SourceSpan::of(lex_span(src, after_key.pos)),
                    src,
                },
            ),
            Some(Err(span)) => Err(
                ErrorModel::NoValidToken { expected: valid_value(), span: SourceSpan::of(span), src },
            ),
            Some(Ok(value)) => if value.token == Token::GroupStart {
                Ok(EventModel::GroupStart { name: token_text(src, key), span: value.span })
            } else if is_text_token(value.token) {
                Ok(
                    EventModel::Entry {
                        key: item_of(src, key),
                        value: item_of(src, value),
                        span: Span { start: key.span.start, end: value.span.end },
                    },
                )
            } else {
                Err(
                    ErrorModel::UnexpectedToken {
                        expected: valid_value(),
                        found: Some(value.token),
                        span: SourceSpan::of(value.span),
                        src,
                    },
                )
            },
        }
    }
}

/// The event that a reader in state `s` gives next: nothing at the end of the
/// text; the end of a group for `}`; an error where the text is no token or a `{`
/// stands in the place of a key; else what the key token opens.
pub open spec fn next_event(src: Seq<u8>, s: ReaderState) -> Option<Result<EventModel, ErrorModel>> {
    match lex_at(src, s.lex.pos) {
        None => None,
        Some(Err(span)) => Some(
            Err(ErrorModel::NoValidToken { expected: valid_key(), span: SourceSpan::of(span), src }),
        ),
        Some(Ok(key)) => if key.token == Token::GroupEnd {
            Some(Ok(EventModel::GroupEnd { span: key.span }))
        } else if is_text_token(key.token) {
            Some(event_after_key(src, s, key))
        } else {
            Some(
                Err(
                    ErrorModel::UnexpectedToken {
                        expected: valid_key(),
                        found: Some(key.token),
                        span: SourceSpan::of(key.span),
                        src,
                    },
                ),
            )
        },
    }
}

/// Whether the reader reads a second token for the event it gives next.
pub open spec fn reads_value(src: Seq<u8>, s: ReaderState) -> bool {
    match lex_at(src, s.lex.pos) {
        Some(Ok(key)) => is_text_token(key.token) && !((s.last_event == Some(EventType::Entry)
            || s.last_event == Some(EventType::ValueContinuation)) && !newline_before(src, s.lex)),
        _ => false,
    }
}

/// Where a reader stands after it has given its next event: the tokenizer after
/// the one or two tokens read, and the kind of the event where there was one.
pub open spec fn state_after_event(src: Seq<u8>, s: ReaderState) -> ReaderState {
    let after_key = lex_step(src, s.lex);
    ReaderState {
        lex: if reads_value(src, s) {
            lex_step(src, after_key)
        } else {
            after_key
        },
        last_event: match next_event(src, s) {
            Some(Ok(event)) => Some(event.ty()),
            _ => s.last_event,
        },
    }
}

/// The view of what a reader gives.
pub open spec fn event_result(r: Option<Result<Event, VdfError>>) -> Option<Result<EventModel, ErrorModel>> {
    match r {
        None => None,
        Some(Ok(event)) => Some(Ok(event@)),
        Some(Err(e)) => Some(Err(e@)),
    }
}

/// Reads a source text event by event.
pub struct Reader<'a> {
    lexer: Tokenizer<'a>,
    last_event: Option<EventType>,
}

impl<'a> Reader<'a> {
    /// The text that is read.
    pub closed spec fn text(&self) -> Seq<u8> {
        self.lexer.text()
    }

    /// Where the reader stands.
    pub closed spec fn state(&self) -> ReaderState {
        ReaderState { lex: self.lexer.state(), last_event: self.last_event }
    }

    /// Where a reader stands before it has read anything.
    pub open spec fn start() -> ReaderState {
        ReaderState { lex: LexState { pos: 0, span: Span { start: 0, end: 0 }, count: 0 }, last_event: None }
    }

    /// A reader at the start of `content`.
    pub fn from_str(content: &'a str) -> (r: Self)
        ensures
            r.text() == content.spec_bytes(),
            r.state() == Reader::start(),
    {
        Reader { lexer: Tokenizer::from_str(content), last_event: None }
    }

    /// A reader at the start of `content`.
    pub fn from_bytes(content: &'a [u8]) -> (r: Self)
        ensures
            r.text() == content@,
            r.state() == Reader::start(),
    {
        Reader { lexer: Tokenizer::from_bytes(content), last_event: None }
    }

    /// The text that is read.
    pub fn source(&self) -> (r: &'a [u8])
        ensures
            r@ == self.text(),
    {
        self.lexer.source()
    }

    /// The kind of the event given last.
    pub fn last_event(&self) -> (r: Option<EventType>)
        ensures
            r == self.state().last_event,
    {
        self.last_event
    }

    /// The range of the token read last.
    pub fn span(&self) -> (r: Span)
        ensures
            r == self.state().lex.span,
    {
        self.lexer.span()
    }

    /// The position from which the next token is read.
    pub fn offset(&self) -> (r: usize)
        ensures
            r == self.state().lex.pos,
            r <= self.text().len(),
    {
        self.lexer.offset()
    }

    fn token(&mut self) -> (r: Option<Result<SpannedToken, Span>>)
        ensures
            r == lex_at(old(self).text(), old(self).state().lex.pos),
            final(self).text() == old(self).text(),
            final(self).state().lex == lex_step(old(self).text(), old(self).state().lex),
            final(self).state().last_event == old(self).state().last_event,
            old(self).state().lex.pos <= final(self).state().lex.pos <= old(self).text().len(),
            r is Some ==> old(self).state().lex.pos < final(self).state().lex.pos,
    {
        self.lexer.next()
    }

    /// The next event: `None` at the end of the text. The reader remembers the kind
    /// of each event it gives.
    pub fn event(&mut self) -> (r: Option<Result<Event, VdfError>>)
        ensures
            event_result(r) == next_event(old(self).text(), old(self).state()),
            final(self).text() == old(self).text(),
            final(self).state() == state_after_event(old(self).text(), old(self).state()),
            old(self).state().lex.pos <= final(self).state().lex.pos <= old(self).text().len(),
            r is Some ==> old(self).state().lex.pos < final(self).state().lex.pos,
    {
        let result = self.event_inner();
        if let Some(Ok(event)) = &result {
            self.last_event = Some(event.ty());
        }
        result
    }

    fn event_inner(&mut self) -> (r: Option<Result<Event, VdfError>>)
        ensures
            event_result(r) == next_event(old(self).text(), old(self).state()),
            final(self).text() == old(self).text(),
            final(self).state().lex == state_after_event(old(self).text(), old(self).state()).lex,
            final(self).state().last_event == old(self).state().last_event,
            old(self).state().lex.pos <= final(self).state().lex.pos <= old(self).text().len(),
            r is Some ==> old(self).state().lex.pos < final(self).state().lex.pos,
    {
        let source = self.source();
        let whitespace_start = self.span().end;
        let key_token = match self.token() {
            None => {
                return None;
            },
            Some(Err(span)) => {
                let expected = valid_key_tokens();
                return Some(
                    Err(
                        VdfError::NoValidToken(
                            NoValidTokenError::new(
                                expected.as_slice(),
                                SourceSpan::from_span(span),
                                text::to_vec(source),
                            ),
                        ),
                    ),
                );
            },
            Some(Ok(token)) => token,
        };
        let key = match key_token.token {
            Token::GroupEnd => {
                return Some(Ok(Event::GroupEnd(GroupEndEvent { span: key_token.span })));
            },
            Token::Item => Item::Item {
                content: key_token.string(source),
                span: key_token.span,
            },
            Token::Statement => Item::Statement {
                content: key_token.string(source),
                span: key_token.span,
            },
            Token::GroupStart => {
                let expected = valid_key_tokens();
                return Some(
                    Err(
                        VdfError::UnexpectedToken(
                            UnexpectedTokenError::new(
                                expected.as_slice(),
                                Some(key_token.token),
                                SourceSpan::from_span(key_token.span),
                                text::to_vec(source),
                            ),
                        ),
                    ),
                );
            },
        };
        let whitespace_end = self.span().start;
        let skipped_newline = text::contains_newline(
            text::slice(source, Span::new(whitespace_start, whitespace_end)),
        );
        let last_event_has_value = match self.last_event {
            Some(EventType::Entry) => true,
            Some(EventType::ValueContinuation) => true,
            _ => false,
        };
        // several values on one line make an array
        if last_event_has_value && !skipped_newline {
            let span = self.span();
            return Some(Ok(Event::ValueContinuation(ValueContinuationEvent { value: key, span })));
        }
        let value_token = match self.token() {
            None => {
                let expected = valid_value_tokens();
                return Some(
                    Err(
                        VdfError::UnexpectedToken(
                            UnexpectedTokenError::new(
                                expected.as_slice(),
                                None,
                                SourceSpan::from_span(self.span()),
                                text::to_vec(source),
                            ),
                        ),
                    ),
                );
            },
            Some(Err(span)) => {
                let expected = valid_value_tokens();
                return Some(
                    Err(
                        VdfError::NoValidToken(
                            NoValidTokenError::new(
                                expected.as_slice(),
                                SourceSpan::from_span(span),
                                text::to_vec(source),
                            ),
                        ),
                    ),
                );
            },
            Some(Ok(token)) => token,
        };
        let value = match value_token.token {
            Token::GroupStart => {
                return Some(
                    Ok(Event::GroupStart(GroupStartEvent { name: key.into_content(), span: value_token.span })),
                );
            },
            Token::Item => Item::Item {
                content: value_token.string(source),
                span: value_token.span,
            },
            Token::Statement => Item::Statement {
                content: value_token.string(source),
                span: value_token.span,
            },
            Token::GroupEnd => {
                let expected = valid_value_tokens();
                return Some(
                    Err(
                        VdfError::UnexpectedToken(
                            UnexpectedTokenError::new(
                                expected.as_slice(),
                                Some(value_token.token),
                                SourceSpan::from_span(value_token.span),
                                text::to_vec(source),
                            ),
                        ),
                    ),
                );
            },
        };
        let span = Span::new(key.span().start, value.span().end);
        Some(Ok(Event::Entry(EntryEvent { key, value, span })))
    }
}

impl<'a> From<&'a str> for Reader<'a> {
    /// A reader at the start of `content`.
    fn from(content: &'a str) -> (r: Self)
        ensures
            r.text() == content.spec_bytes(),
            r.state() == Reader::start(),
    {
        Reader::from_str(content)
    }
}

impl<'a> FromSpecImpl<&'a str> for Reader<'a> {
    open spec fn obeys_from_spec() -> bool {
        false
    }

    open spec fn from_spec(v: &'a str) -> Reader<'a> {
        arbitrary()
    }
}

} // verus!
