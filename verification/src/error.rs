//! The errors of the library, each with its place in the source text where it has
//! one.

use crate::entry::{Entry, EntryModel};
use crate::event::{Event, EventModel, Item, ItemModel};
use crate::lexer::SpannedToken;
use crate::parser::Token;
use crate::span::{SourceSpan, Span};
use crate::text;
use vstd::prelude::*;
use vstd::slice::slice_to_vec;
use vstd::string::StringExecFns;

verus! {

/// A token that was not expected was found, or the input ended where a token was
/// expected.
#[derive(Debug, PartialEq, Eq)]
pub struct UnexpectedTokenError {
    pub err_span: SourceSpan,
    pub expected: Vec<Token>,
    pub found: Option<Token>,
    pub src: Vec<u8>,
}

impl UnexpectedTokenError {
    /// The error for `found` where one of `expected` was asked for, pointing at
    /// `err_span` in `src`. Nothing found stands for the end of the text.
    pub fn new(expected: &[Token], found: Option<Token>, err_span: SourceSpan, src: Vec<u8>) -> (r: Self)
        ensures
            r.expected@ == expected@,
            r.found == found,
            r.err_span == err_span,
            r.src == src,
    {
        UnexpectedTokenError { err_span, expected: slice_to_vec(expected), found, src }
    }
}

/// The text at some position is no token.
#[derive(Debug, PartialEq, Eq)]
pub struct NoValidTokenError {
    pub err_span: SourceSpan,
    pub expected: Vec<Token>,
    pub src: Vec<u8>,
}

impl NoValidTokenError {
    /// The error for the range `err_span` of `src` that is no token, where one of
    /// `expected` was asked for.
    pub fn new(expected: &[Token], err_span: SourceSpan, src: Vec<u8>) -> (r: Self)
        ensures
            r.expected@ == expected@,
            r.err_span == err_span,
            r.src == src,
    {
        NoValidTokenError { err_span, expected: slice_to_vec(expected), src }
    }
}

/// An event of one kind was found where another kind was asked for.
#[derive(Debug, PartialEq, Eq)]
pub struct WrongEventTypeError {
    pub expected: &'static str,
    pub got: &'static str,
    pub event: Event,
    pub err_span: SourceSpan,
    pub src: Vec<u8>,
}

impl WrongEventTypeError {
    /// The error for `event`, pointing at the event's range, with no source text.
    pub fn new(event: Event, expected: &'static str, got: &'static str) -> (r: Self)
        ensures
            r.expected == expected,
            r.got == got,
            r.event == event,
            r.err_span == SourceSpan::of(event@.span()),
            r.src@ == Seq::<u8>::empty(),
    {
        let err_span = SourceSpan::from_span(event.span());
        WrongEventTypeError { expected, got, event, err_span, src: Vec::new() }
    }

    /// The error for `event`, pointing at the event's range in `src`.
    pub fn new_with_source(event: Event, expected: &'static str, got: &'static str, src: Vec<u8>) -> (r:
        Self)
        ensures
            r.expected == expected,
            r.got == got,
            r.event == event,
            r.err_span == SourceSpan::of(event@.span()),
            r.src == src,
    {
        let err_span = SourceSpan::from_span(event.span());
        WrongEventTypeError { expected, got, event, err_span, src }
    }

    /// The same error with `src` as its source text.
    pub fn with_source(self, src: Vec<u8>) -> (r: Self)
        ensures
            r.expected == self.expected,
            r.got == self.got,
            r.event == self.event,
            r.err_span == self.err_span,
            r.src == src,
    {
        WrongEventTypeError {
            expected: self.expected,
            got: self.got,
            event: self.event,
            err_span: self.err_span,
            src,
        }
    }
}

/// An entry could not be read as the type asked for.
#[derive(Debug, PartialEq, Eq)]
pub struct ParseEntryError {
    pub ty: &'static str,
    pub value: Entry,
}

impl ParseEntryError {
    /// The error for the entry `value` that is no `ty`.
    pub fn new(ty: &'static str, value: Entry) -> (r: Self)
        ensures
            r.ty == ty,
            r.value == value,
    {
        ParseEntryError { ty, value }
    }
}

/// An item could not be read as the type asked for.
#[derive(Debug, PartialEq, Eq)]
pub struct ParseItemError {
    pub ty: &'static str,
    pub value: Item,
}

impl ParseItemError {
    /// The error for the item `value` that is no `ty`.
    pub fn new(ty: &'static str, value: Item) -> (r: Self)
        ensures
            r.ty == ty,
            r.value == value,
    {
        ParseItemError { ty, value }
    }
}

/// A text could not be read as the type asked for.
#[derive(Debug, PartialEq, Eq)]
pub struct ParseStringError {
    pub ty: &'static str,
    pub value: Vec<u8>,
}

impl ParseStringError {
    /// The error for the text `value` that is no `ty`.
    pub fn new(ty: &'static str, value: &[u8]) -> (r: Self)
        ensures
            r.ty == ty,
            r.value@ == value@,
    {
        ParseStringError { ty, value: text::to_vec(value) }
    }
}

/// While decoding, a text was found that is not of the shape asked for.
#[derive(Debug, PartialEq, Eq)]
pub struct SerdeParseError {
    pub ty: &'static str,
    pub value: Vec<u8>,
    pub err_span: SourceSpan,
    pub src: Vec<u8>,
}

impl SerdeParseError {
    /// The error for the text `value` at `span` in `src` that is no `ty`.
    pub fn new(ty: &'static str, value: &[u8], span: Span, src: &[u8]) -> (r: Self)
        ensures
            r.ty == ty,
            r.value@ == value@,
            r.err_span == SourceSpan::of(span),
            r.src@ == src@,
    {
        SerdeParseError {
            ty,
            value: text::to_vec(value),
            err_span: SourceSpan::from_span(span),
            src: text::to_vec(src),
        }
    }
}

/// The tag of an enum is none of the names of its variants.
#[derive(Debug, PartialEq, Eq)]
pub struct UnknownVariantError {
    pub variant: Vec<u8>,
    pub expected: Vec<Vec<u8>>,
    pub err_span: SourceSpan,
    pub src: Vec<u8>,
}

/// The texts of a list of names.
pub open spec fn names_model(names: Seq<Vec<u8>>) -> Seq<Seq<u8>> {
    Seq::new(names.len(), |i: int| names[i]@)
}

impl UnknownVariantError {
    /// The error for the tag `variant` at `span` in `src` that is none of the names
    /// `expected`.
    pub fn new(variant: &[u8], expected: Vec<Vec<u8>>, span: Span, src: &[u8]) -> (r: Self)
        ensures
            r.variant@ == variant@,
            r.expected == expected,
            r.err_span == SourceSpan::of(span),
            r.src@ == src@,
    {
        UnknownVariantError {
            variant: text::to_vec(variant),
            expected,
            err_span: SourceSpan::from_span(span),
            src: text::to_vec(src),
        }
    }
}

/// Any error that occurred while reading the format.
#[derive(Debug, PartialEq, Eq)]
pub enum VdfError {
    /// A token that was not expected was found.
    UnexpectedToken(UnexpectedTokenError),
    /// No valid token found.
    NoValidToken(NoValidTokenError),
    /// Wrong kind of event for a conversion.
    WrongEntryType(Box<WrongEventTypeError>),
    /// Failed to read an entry as a type.
    ParseEntry(ParseEntryError),
    /// Failed to read an item as a type.
    ParseItem(ParseItemError),
    /// Failed to read a text as a type.
    ParseString(ParseStringError),
    /// No variant of an enum has the tag that was found.
    UnknownVariant(UnknownVariantError),
    /// A text is not of the shape asked for.
    SerdeParse(SerdeParseError),
    /// An error with a message only.
    Other(String),
}

/// An error as a mathematical value.
#[allow(inconsistent_fields)]
pub enum ErrorModel {
    UnexpectedToken { expected: Seq<Token>, found: Option<Token>, span: SourceSpan, src: Seq<u8> },
    NoValidToken { expected: Seq<Token>, span: SourceSpan, src: Seq<u8> },
    WrongEntryType { expected: Seq<char>, got: Seq<char>, event: EventModel, span: SourceSpan, src: Seq<u8> },
    ParseEntry { ty: Seq<char>, value: EntryModel },
    ParseItem { ty: Seq<char>, value: ItemModel },
    ParseString { ty: Seq<char>, value: Seq<u8> },
    UnknownVariant { variant: Seq<u8>, expected: Seq<Seq<u8>>, span: SourceSpan, src: Seq<u8> },
    SerdeParse { ty: Seq<char>, value: Seq<u8>, span: SourceSpan, src: Seq<u8> },
    Other(Seq<char>),
}

impl ErrorModel {
    /// Where the error points, for the kinds that point somewhere.
    pub open spec fn span(self) -> Option<SourceSpan> {
        match self {
            ErrorModel::UnexpectedToken { span, .. } => Some(span),
            ErrorModel::NoValidToken { span, .. } => Some(span),
            ErrorModel::WrongEntryType { span, .. } => Some(span),
            ErrorModel::UnknownVariant { span, .. } => Some(span),
            ErrorModel::SerdeParse { span, .. } => Some(span),
            _ => None,
        }
    }

    /// The source text that the error carries, for the kinds that point somewhere.
    pub open spec fn src(self) -> Option<Seq<u8>> {
        match self {
            ErrorModel::UnexpectedToken { src, .. } => Some(src),
            ErrorModel::NoValidToken { src, .. } => Some(src),
            ErrorModel::WrongEntryType { src, .. } => Some(src),
            ErrorModel::UnknownVariant { src, .. } => Some(src),
            ErrorModel::SerdeParse { src, .. } => Some(src),
            _ => None,
        }
    }

    /// The same error pointing at `span` in `src`. An error of a kind that points
    /// nowhere stays as it is.
    pub open spec fn with_source_span(self, span: SourceSpan, src: Seq<u8>) -> ErrorModel {
        match self {
            ErrorModel::UnexpectedToken { expected, found, .. } => ErrorModel::UnexpectedToken {
                expected,
                found,
                span,
                src,
            },
            ErrorModel::NoValidToken { expected, .. } => ErrorModel::NoValidToken { expected, span, src },
            ErrorModel::WrongEntryType { expected, got, event, .. } => ErrorModel::WrongEntryType {
                expected,
                got,
                event,
                span,
                src,
            },
            ErrorModel::UnknownVariant { variant, expected, .. } => ErrorModel::UnknownVariant {
                variant,
                expected,
                span,
                src,
            },
            ErrorModel::SerdeParse { ty, value, .. } => ErrorModel::SerdeParse { ty, value, span, src },
            _ => self,
        }
    }

    /// Whether the error was raised without its place in a source text: it is of a
    /// kind that points somewhere, and carries no source text.
    pub open spec fn lacks_context(self) -> bool {
        self.src() matches Some(src) && src.len() == 0
    }

    /// The error with `span` in `src` as its place where it has none yet.
    pub open spec fn ensure_span(self, span: SourceSpan, src: Seq<u8>) -> ErrorModel {
        if self.lacks_context() {
            self.with_source_span(span, src)
        } else {
            self
        }
    }

    /// Whether two errors are of the same kind.
    pub open spec fn same_kind(self, other: ErrorModel) -> bool {
        match self {
            ErrorModel::UnexpectedToken { .. } => other is UnexpectedToken,
            ErrorModel::NoValidToken { .. } => other is NoValidToken,
            ErrorModel::WrongEntryType { .. } => other is WrongEntryType,
            ErrorModel::ParseEntry { .. } => other is ParseEntry,
            ErrorModel::ParseItem { .. } => other is ParseItem,
            ErrorModel::ParseString { .. } => other is ParseString,
            ErrorModel::UnknownVariant { .. } => other is UnknownVariant,
            ErrorModel::SerdeParse { .. } => other is SerdeParse,
            ErrorModel::Other(_) => other is Other,
        }
    }
}

impl View for VdfError {
    type V = ErrorModel;

    open spec fn view(&self) -> ErrorModel {
        match self {
            VdfError::UnexpectedToken(e) => ErrorModel::UnexpectedToken {
                expected: e.expected@,
                found: e.found,
                span: e.err_span,
                src: e.src@,
            },
            VdfError::NoValidToken(e) => ErrorModel::NoValidToken {
                expected: e.expected@,
                span: e.err_span,
                src: e.src@,
            },
            VdfError::WrongEntryType(e) => ErrorModel::WrongEntryType {
                expected: e.expected@,
                got: e.got@,
                event: e.event@,
                span: e.err_span,
                src: e.src@,
            },
            VdfError::ParseEntry(e) => ErrorModel::ParseEntry { ty: e.ty@, value: e.value@ },
            VdfError::ParseItem(e) => ErrorModel::ParseItem { ty: e.ty@, value: e.value@ },
            VdfError::ParseString(e) => ErrorModel::ParseString { ty: e.ty@, value: e.value@ },
            VdfError::UnknownVariant(e) => ErrorModel::UnknownVariant {
                variant: e.variant@,
                expected: names_model(e.expected@),
                span: e.err_span,
                src: e.src@,
            },
            VdfError::SerdeParse(e) => ErrorModel::SerdeParse {
                ty: e.ty@,
                value: e.value@,
                span: e.err_span,
                src: e.src@,
            },
            VdfError::Other(message) => ErrorModel::Other(message@),
        }
    }
}

impl VdfError {
    /// Where the error points, for the kinds that point somewhere.
    pub fn span(&self) -> (r: Option<SourceSpan>)
        ensures
            r == self@.span(),
    {
        match self {
            VdfError::UnexpectedToken(e) => Some(e.err_span),
            VdfError::NoValidToken(e) => Some(e.err_span),
            VdfError::WrongEntryType(e) => Some(e.err_span),
            VdfError::UnknownVariant(e) => Some(e.err_span),
            VdfError::SerdeParse(e) => Some(e.err_span),
            _ => None,
        }
    }

    /// Whether the error was raised without its place in a source text.
    pub fn lacks_context(&self) -> (r: bool)
        ensures
            r == self@.lacks_context(),
    {
        match self {
            VdfError::UnexpectedToken(e) => e.src.len() == 0,
            VdfError::NoValidToken(e) => e.src.len() == 0,
            VdfError::WrongEntryType(e) => e.src.len() == 0,
            VdfError::UnknownVariant(e) => e.src.len() == 0,
            VdfError::SerdeParse(e) => e.src.len() == 0,
            _ => false,
        }
    }

    /// The same error pointing at `span` in `source`. The kind of the error and what
    /// else it carries stay; an error of a kind that points nowhere stays as it is.
    pub fn with_source_span(self, span: Span, source: &[u8]) -> (r: VdfError)
        ensures
            r@ == self@.with_source_span(SourceSpan::of(span), source@),
            r@.same_kind(self@),
    {
        match self {
            VdfError::UnexpectedToken(e) => VdfError::UnexpectedToken(
                UnexpectedTokenError {
                    err_span: SourceSpan::from_span(span),
                    expected: e.expected,
                    found: e.found,
                    src: text::to_vec(source),
                },
            ),
            VdfError::NoValidToken(e) => VdfError::NoValidToken(
                NoValidTokenError {
                    err_span: SourceSpan::from_span(span),
                    expected: e.expected,
                    src: text::to_vec(source),
                },
            ),
            VdfError::WrongEntryType(e) => {
                let inner = *e;
                VdfError::WrongEntryType(
                    Box::new(
                        WrongEventTypeError {
                            expected: inner.expected,
                            got: inner.got,
                            event: inner.event,
                            err_span: SourceSpan::from_span(span),
                            src: text::to_vec(source),
                        },
                    ),
                )
            },
            VdfError::SerdeParse(e) => VdfError::SerdeParse(
                SerdeParseError {
                    ty: e.ty,
                    value: e.value,
                    err_span: SourceSpan::from_span(span),
                    src: text::to_vec(source),
                },
            ),
            VdfError::UnknownVariant(e) => VdfError::UnknownVariant(
                UnknownVariantError {
                    variant: e.variant,
                    expected: e.expected,
                    err_span: SourceSpan::from_span(span),
                    src: text::to_vec(source),
                },
            ),
            other => other,
        }
    }

    /// The error with `span` in `source` as its place, where it has none yet.
    pub fn ensure_span(self, span: Span, source: &[u8]) -> (r: VdfError)
        ensures
            r@ == self@.ensure_span(SourceSpan::of(span), source@),
            r@.same_kind(self@),
    {
        if self.lacks_context() {
            self.with_source_span(span, source)
        } else {
            self
        }
    }
}

/// The names of the kinds of token, separated by a comma and a space.
pub open spec fn comma_separated(tokens: Seq<Token>) -> Seq<char>
    decreases tokens.len(),
{
    if tokens.len() == 0 {
        Seq::empty()
    } else if tokens.len() == 1 {
        tokens[0].spec_name()
    } else {
        comma_separated(tokens.drop_last()) + ", "@ + tokens.last().spec_name()
    }
}

/// The message of an `UnexpectedToken` error.
pub open spec fn unexpected_token_message(expected: Seq<Token>, found: Option<Token>) -> Seq<char> {
    match found {
        Some(token) => "Unexpected token, found "@ + token.spec_name() + " expected one of "@
            + comma_separated(expected),
        None => "Unexpected end of input expected one of "@ + comma_separated(expected),
    }
}

/// The message of a `NoValidToken` error.
pub open spec fn no_valid_token_message(expected: Seq<Token>) -> Seq<char> {
    "No valid token found, expected one of "@ + comma_separated(expected)
}

/// The message of a `WrongEntryType` error.
pub open spec fn wrong_event_message(expected: Seq<char>, got: Seq<char>) -> Seq<char> {
    "Wrong event to for conversion, expected a "@ + expected + " but found a "@ + got
}

/// Writes the names of the kinds of token, separated by a comma and a space.
pub fn write_comma_separated(tokens: &[Token], out: &mut String)
    ensures
        final(out)@ == old(out)@ + comma_separated(tokens@),
{
    let mut i: usize = 0;
    while i < tokens.len()
        invariant
            i <= tokens@.len(),
            out@ == old(out)@ + comma_separated(tokens@.take(i as int)),
        decreases tokens@.len() - i,
    {
        assert(tokens@.take(i + 1).drop_last() =~= tokens@.take(i as int));
        if i > 0 {
            out.append(", ");
        }
        out.append(tokens[i].name());
        i = i + 1;
    }
    assert(tokens@.take(i as int) =~= tokens@);
}

impl UnexpectedTokenError {
    /// What the error says.
    pub fn message(&self) -> (r: String)
        ensures
            r@ == unexpected_token_message(self.expected@, self.found),
    {
        let mut out = String::new();
        match self.found {
            Some(token) => {
                out.append("Unexpected token, found ");
                out.append(token.name());
                out.append(" expected one of ");
            },
            None => {
                out.append("Unexpected end of input expected one of ");
            },
        }
        write_comma_separated(self.expected.as_slice(), &mut out);
        out
    }
}

impl NoValidTokenError {
    /// What the error says.
    pub fn message(&self) -> (r: String)
        ensures
            r@ == no_valid_token_message(self.expected@),
    {
        let mut out = String::new();
        out.append("No valid token found, expected one of ");
        write_comma_separated(self.expected.as_slice(), &mut out);
        out
    }
}

impl WrongEventTypeError {
    /// What the error says.
    pub fn message(&self) -> (r: String)
        ensures
            r@ == wrong_event_message(self.expected@, self.got@),
    {
        let mut out = String::new();
        out.append("Wrong event to for conversion, expected a ");
        out.append(self.expected);
        out.append(" but found a ");
        out.append(self.got);
        out
    }
}

/// What `expect_token` gives for a token, as a mathematical value.
pub open spec fn expect_spanned(token: SpannedToken, expected: Seq<Token>, src: Seq<u8>) -> Result<
    SpannedToken,
    ErrorModel,
> {
    if expected.contains(token.token) {
        Ok(token)
    } else {
        Err(
            ErrorModel::UnexpectedToken {
                expected,
                found: Some(token.token),
                span: SourceSpan::of(token.span),
                src,
            },
        )
    }
}

/// What `expect_token` gives for what a tokenizer found, as a mathematical value.
pub open spec fn expect_lexed(found: Result<SpannedToken, Span>, expected: Seq<Token>, src: Seq<u8>) -> Result<
    SpannedToken,
    ErrorModel,
> {
    match found {
        Ok(token) => expect_spanned(token, expected, src),
        Err(span) => Err(ErrorModel::NoValidToken { expected, span: SourceSpan::of(span), src }),
    }
}

/// The error for a text that ends where a token was expected: it points at the
/// end of the text.
pub open spec fn end_of_input(expected: Seq<Token>, src: Seq<u8>) -> ErrorModel {
    ErrorModel::NoValidToken {
        expected,
        span: SourceSpan { offset: src.len() as usize, length: 0 },
        src,
    }
}

/// What `expect_token` gives for what a reader found, as a mathematical value.
pub open spec fn expect_next(
    found: Option<Result<SpannedToken, Span>>,
    expected: Seq<Token>,
    src: Seq<u8>,
) -> Result<SpannedToken, ErrorModel> {
    match found {
        Some(found) => expect_lexed(found, expected, src),
        None => Err(end_of_input(expected, src)),
    }
}

/// The view of a result of `expect_token`.
pub open spec fn token_result(r: Result<SpannedToken, VdfError>) -> Result<SpannedToken, ErrorModel> {
    match r {
        Ok(token) => Ok(token),
        Err(e) => Err(e@),
    }
}

fn contains_token(expected: &[Token], token: Token) -> (r: bool)
    ensures
        r == expected@.contains(token),
{
    let mut i: usize = 0;
    while i < expected.len()
        invariant
            i <= expected@.len(),
            forall|j: int| 0 <= j < i ==> expected@[j] != token,
        decreases expected@.len() - i,
    {
        if expected[i] == token {
            return true;
        }
        i = i + 1;
    }
    false
}

/// Values that may hold a token: asking for one of a set of kinds gives the token,
/// or the error that says what was found instead.
pub trait ExpectToken: Sized {
    /// What `expect_token` gives, as a mathematical value.
    spec fn expected_token(self, expected: Seq<Token>, src: Seq<u8>) -> Result<SpannedToken, ErrorModel>;

    fn expect_token(self, expected: &[Token], source: &[u8]) -> (r: Result<SpannedToken, VdfError>)
        ensures
            token_result(r) == self.expected_token(expected@, source@),
    ;
}

impl ExpectToken for SpannedToken {
    open spec fn expected_token(self, expected: Seq<Token>, src: Seq<u8>) -> Result<SpannedToken, ErrorModel> {
        expect_spanned(self, expected, src)
    }

    /// The token itself where its kind is among `expected`, else an `UnexpectedToken`
    /// error pointing at the token.
    fn expect_token(self, expected: &[Token], source: &[u8]) -> (r: Result<SpannedToken, VdfError>) {
        if contains_token(expected, self.token) {
            Ok(self)
        } else {
            Err(
                VdfError::UnexpectedToken(
                    UnexpectedTokenError::new(
                        expected,
                        Some(self.token),
                        SourceSpan::from_span(self.span),
                        text::to_vec(source),
                    ),
                ),
            )
        }
    }
}

impl ExpectToken for Result<SpannedToken, Span> {
    open spec fn expected_token(self, expected: Seq<Token>, src: Seq<u8>) -> Result<SpannedToken, ErrorModel> {
        expect_lexed(self, expected, src)
    }

    /// For a range that is no token, a `NoValidToken` error pointing at it; for a
    /// token, as for the token.
    fn expect_token(self, expected: &[Token], source: &[u8]) -> (r: Result<SpannedToken, VdfError>) {
        match self {
            Ok(token) => token.expect_token(expected, source),
            Err(span) => Err(
                VdfError::NoValidToken(
                    NoValidTokenError::new(expected, SourceSpan::from_span(span), text::to_vec(source)),
                ),
            ),
        }
    }
}

impl ExpectToken for Option<Result<SpannedToken, Span>> {
    open spec fn expected_token(self, expected: Seq<Token>, src: Seq<u8>) -> Result<SpannedToken, ErrorModel> {
        expect_next(self, expected, src)
    }

    /// At the end of the text, a `NoValidToken` error pointing at the end; else as
    /// for what was found.
    fn expect_token(self, expected: &[Token], source: &[u8]) -> (r: Result<SpannedToken, VdfError>) {
        match self {
            Some(found) => found.expect_token(expected, source),
            None => Err(
                VdfError::NoValidToken(
                    NoValidTokenError::new(
                        expected,
                        SourceSpan::from_span(Span::new(source.len(), source.len())),
                        text::to_vec(source),
                    ),
                ),
            ),
        }
    }
}

fn clone_names(names: &Vec<Vec<u8>>) -> (r: Vec<Vec<u8>>)
    ensures
        names_model(r@) == names_model(names@),
{
    let mut out: Vec<Vec<u8>> = Vec::new();
    let mut i: usize = 0;
    while i < names.len()
        invariant
            i <= names@.len(),
            out@.len() == i,
            forall|j: int| 0 <= j < i ==> out@[j]@ == names@[j]@,
        decreases names@.len() - i,
    {
        out.push(names[i].clone());
        i = i + 1;
    }
    out
}

impl Clone for VdfError {
    fn clone(&self) -> (r: Self)
        ensures
            r@ == self@,
    {
        match self {
            VdfError::UnexpectedToken(e) => VdfError::UnexpectedToken(
                UnexpectedTokenError {
                    err_span: e.err_span,
                    expected: slice_to_vec(e.expected.as_slice()),
                    found: e.found,
                    src: e.src.clone(),
                },
            ),
            VdfError::NoValidToken(e) => VdfError::NoValidToken(
                NoValidTokenError {
                    err_span: e.err_span,
                    expected: slice_to_vec(e.expected.as_slice()),
                    src: e.src.clone(),
                },
            ),
            VdfError::WrongEntryType(e) => VdfError::WrongEntryType(
                Box::new(
                    WrongEventTypeError {
                        expected: e.expected,
                        got: e.got,
                        event: e.event.clone(),
                        err_span: e.err_span,
                        src: e.src.clone(),
                    },
                ),
            ),
            VdfError::ParseEntry(e) => VdfError::ParseEntry(
                ParseEntryError { ty: e.ty, value: e.value.clone() },
            ),
            VdfError::ParseItem(e) => VdfError::ParseItem(
                ParseItemError { ty: e.ty, value: e.value.clone() },
            ),
            VdfError::ParseString(e) => VdfError::ParseString(
                ParseStringError { ty: e.ty, value: e.value.clone() },
            ),
            VdfError::UnknownVariant(e) => VdfError::UnknownVariant(
                UnknownVariantError {
                    variant: e.variant.clone(),
                    expected: clone_names(&e.expected),
                    err_span: e.err_span,
                    src: e.src.clone(),
                },
            ),
            VdfError::SerdeParse(e) => VdfError::SerdeParse(
                SerdeParseError {
                    ty: e.ty,
                    value: e.value.clone(),
                    err_span: e.err_span,
                    src: e.src.clone(),
                },
            ),
            VdfError::Other(message) => VdfError::Other(message.clone()),
        }
    }
}

} // verus!
