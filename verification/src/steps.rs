//! The steps of the typed decoder: what is decided at the start and at the end
//! of a group, a sequence, an enum and an optional value. Each step takes the
//! cursor from one place to the next; what stands between two steps is the
//! decoding of a value.

use crate::cursor::{
    group_end_tokens, group_start_tokens, key_token, key_tokens, lemma_cursor_moves,
    string_item_tokens, string_items, value_token, value_tokens, Cursor, Deserializer,
};
use crate::entry::array::word_end;
use crate::entry::{is_array_text, string_is_array};
use crate::error::{
    expect_lexed, expect_next, ErrorModel, ExpectToken, NoValidTokenError, UnexpectedTokenError,
    UnknownVariantError, VdfError,
};
use crate::lexer::{SpannedToken, SPACE};
use crate::parser::Token;
use crate::reader::{is_text_token, strip_quotes};
use crate::scalar::{infer, inferred};
use crate::shape::{names_of, variant_names, Decoded, DecodedModel, Variant};
use crate::span::{SourceSpan, Span};
use crate::text;
use crate::text::{has_newline, slice_of, trim_segment, trimmed};
use crate::tokenizer::token_text;
use vstd::prelude::*;

verus! {

/// What a step gives, and where the cursor stands after it.
pub struct Stepped<T> {
    pub result: Result<T, ErrorModel>,
    pub cursor: Cursor,
}

/// A result with the view of its error.
pub open spec fn modelled<T>(r: Result<T, VdfError>) -> Result<T, ErrorModel> {
    match r {
        Ok(v) => Ok(v),
        Err(e) => Err(e@),
    }
}

/// What a step of a decoder gave, as a mathematical value.
pub open spec fn stepped<T>(r: Result<T, VdfError>, cursor: Cursor) -> Stepped<T> {
    Stepped { result: modelled(r), cursor }
}

/// Whether a token is a sequence written in one token: a quoted item whose
/// content starts with `[` and ends with `]`, or starts with `{` and ends with `}`.
pub open spec fn is_inline_list(src: Seq<u8>, token: SpannedToken) -> bool {
    token.token == Token::Item && token.quoted && is_array_text(
        strip_quotes(slice_of(src, token.span)),
    )
}

/// Whether a token is an empty value: a token that holds a text, and the text is
/// empty.
pub open spec fn is_empty_value(src: Seq<u8>, token: SpannedToken) -> bool {
    is_text_token(token.token) && token_text(src, token).len() == 0
}

/// How a value of any shape starts.
pub enum AnyStart {
    /// With `{`: a group follows.
    Group(SpannedToken),
    /// With a sequence written in one token.
    Inline(SpannedToken),
    /// With a text, which was read as what it denotes.
    Scalar(Decoded),
}

/// How a value of any shape starts, as a mathematical value.
pub enum AnyStartModel {
    Group(SpannedToken),
    Inline(SpannedToken),
    Scalar(DecodedModel),
}

impl View for AnyStart {
    type V = AnyStartModel;

    open spec fn view(&self) -> AnyStartModel {
        match self {
            AnyStart::Group(token) => AnyStartModel::Group(*token),
            AnyStart::Inline(token) => AnyStartModel::Inline(*token),
            AnyStart::Scalar(value) => AnyStartModel::Scalar(value@),
        }
    }
}

/// The start of a value of any shape: the next token is taken. A `{` starts a
/// group. A text is an integer or a floating-point number where it denotes one;
/// else it is a sequence where the token is one written in one token; else it is
/// the text.
pub open spec fn any_start(src: Seq<u8>, c: Cursor) -> Stepped<AnyStartModel> {
    Stepped {
        result: match expect_next(c.next_found(src), value_token(), src) {
            Err(e) => Err(e),
            Ok(token) => if token.token == Token::GroupStart {
                Ok(AnyStartModel::Group(token))
            } else if inferred(token_text(src, token)) is Str && is_inline_list(src, token) {
                Ok(AnyStartModel::Inline(token))
            } else {
                Ok(AnyStartModel::Scalar(inferred(token_text(src, token))))
            },
        },
        cursor: c.after_next(src),
    }
}

/// The error `e` pointing at `span`, where it points at the start of `span`.
pub open spec fn widened(e: ErrorModel, span: Span, src: Seq<u8>) -> ErrorModel {
    if e.span() matches Some(at) && at.offset == span.start {
        e.with_source_span(SourceSpan::of(span), src)
    } else {
        e
    }
}

/// The error of a group of any shape that started with `first`: where it has no
/// place yet, or points at the start of the group, it points at the whole group,
/// up to the end of what was taken last.
pub open spec fn group_error(e: ErrorModel, first: SpannedToken, after: Cursor, src: Seq<u8>) -> ErrorModel {
    let span = Span { start: first.span.start, end: after.last_span.end };
    widened(e.ensure_span(SourceSpan::of(span), src), span, src)
}

/// The start of an optional value: whether a value is there. At the end of the
/// text none is. An empty value is taken and stands for none. Any other token is
/// left in place and starts the value.
pub open spec fn optional_start(src: Seq<u8>, c: Cursor) -> Stepped<bool> {
    let after = c.after_next(src);
    match c.next_found(src) {
        None => Stepped { result: Ok(false), cursor: after },
        Some(Err(span)) => Stepped {
            result: Err(
                ErrorModel::NoValidToken { expected: value_token(), span: SourceSpan::of(span), src },
            ),
            cursor: after,
        },
        Some(Ok(token)) => if is_empty_value(src, token) {
            Stepped { result: Ok(false), cursor: after }
        } else {
            Stepped { result: Ok(true), cursor: after.with_peeked(token) }
        },
    }
}

/// How a sequence starts.
pub enum ListStart {
    /// With a sequence written in one token, which was taken.
    Inline(SpannedToken),
    /// With the first of the values that follow one another under the given key.
    Repeated(Vec<u8>),
}

/// How a sequence starts, as a mathematical value.
pub enum ListStartModel {
    Inline(SpannedToken),
    Repeated(Seq<u8>),
}

impl View for ListStart {
    type V = ListStartModel;

    open spec fn view(&self) -> ListStartModel {
        match self {
            ListStart::Inline(token) => ListStartModel::Inline(*token),
            ListStart::Repeated(key) => ListStartModel::Repeated(key@),
        }
    }
}

/// The start of a sequence. The next token must hold a text. Where it is a
/// sequence written in one token, it is taken. Else it stays in place: it is the
/// first of the values that follow one another under the key read last.
pub open spec fn list_start(src: Seq<u8>, c: Cursor) -> Stepped<ListStartModel> {
    let peeked = c.after_peek(src);
    match expect_next(c.next_found(src), string_items(), src) {
        Err(e) => Stepped { result: Err(e), cursor: peeked },
        Ok(token) => if is_inline_list(src, token) {
            Stepped { result: Ok(ListStartModel::Inline(token)), cursor: peeked.after_next(src) }
        } else {
            Stepped { result: Ok(ListStartModel::Repeated(peeked.last_key)), cursor: peeked }
        },
    }
}

/// A text without the blanks at its ends.
pub open spec fn trim(s: Seq<u8>) -> Seq<u8> {
    trimmed(s, 0, s.len() as int)
}

/// What stands between the brackets of a sequence written in one token, without
/// the blanks at its ends.
pub open spec fn inline_interior(src: Seq<u8>, token: SpannedToken) -> Seq<u8> {
    let raw = slice_of(src, token.span);
    if raw.len() >= 4 {
        trim(raw.subrange(2, raw.len() - 2))
    } else {
        Seq::empty()
    }
}

/// The range between the brackets of a sequence written in one token.
pub open spec fn inline_span(src: Seq<u8>, token: SpannedToken) -> Span {
    if slice_of(src, token.span).len() >= 4 {
        Span { start: (token.span.start + 2) as usize, end: (token.span.end - 2) as usize }
    } else {
        Span { start: 0, end: 0 }
    }
}

/// One step through the words of a sequence written in one token.
pub struct InlineStep {
    /// The next word: what stands before the first space.
    pub item: Seq<u8>,
    /// Where the word stands in the source.
    pub item_span: Span,
    /// What is left after the word and the space, without the blanks at its ends.
    pub rest: Seq<u8>,
    /// A range that ends where the sequence ends, as long as what is left.
    pub span: Span,
}

/// The next word of what is left of a sequence written in one token, where
/// `span` starts where what is left starts and ends where the sequence ends.
pub open spec fn inline_step(rest: Seq<u8>, span: Span) -> InlineStep {
    let cut = word_end(rest, 0);
    let item = rest.subrange(0, cut);
    let after = trim(
        rest.subrange(
            if cut < rest.len() {
                cut + 1
            } else {
                cut
            },
            rest.len() as int,
        ),
    );
    InlineStep {
        item,
        item_span: Span { start: span.start, end: (span.start + item.len()) as usize },
        rest: after,
        span: Span { start: (span.end - after.len()) as usize, end: span.end },
    }
}

/// What an element of a sequence of values that follow one another counts as: an
/// element that could not be read because no valid token was left is no element,
/// and no error either.
pub open spec fn element_kept<T>(r: Result<T, ErrorModel>) -> Result<Option<T>, ErrorModel> {
    match r {
        Ok(v) => Ok(Some(v)),
        Err(e) => if e is NoValidToken {
            Ok(None)
        } else {
            Err(e)
        },
    }
}

/// What reading a key gives: the key token, or nothing where the group ends.
pub struct KeyStep {
    pub key: Result<Option<SpannedToken>, ErrorModel>,
    pub cursor: Cursor,
}

/// The error for a group that the text ends in: the end of the text was not
/// expected, and the error points at it.
pub open spec fn unclosed_group(expected: Seq<Token>, src: Seq<u8>) -> ErrorModel {
    ErrorModel::UnexpectedToken {
        expected,
        found: None,
        span: SourceSpan { offset: src.len() as usize, length: 0 },
        src,
    }
}

/// Reading a key. Inside a group a key or `}` is expected, and the end of the text
/// is an error; at the top level a key is expected, and the end of the text ends
/// the group. The `}` is put back where `retain` asks for it.
pub open spec fn key_step(src: Seq<u8>, c: Cursor, toplevel: bool, retain: bool) -> KeyStep {
    let expected = if toplevel {
        string_items()
    } else {
        key_token()
    };
    let after = c.after_next(src);
    match c.next_found(src) {
        None => KeyStep {
            key: if toplevel {
                Ok(None)
            } else {
                Err(unclosed_group(expected, src))
            },
            cursor: after,
        },
        Some(found) => match expect_lexed(found, expected, src) {
            Err(e) => KeyStep { key: Err(e), cursor: after },
            Ok(key) => if key.token == Token::GroupEnd {
                KeyStep {
                    key: Ok(None),
                    cursor: if retain {
                        after.with_peeked(key)
                    } else {
                        after
                    },
                }
            } else {
                KeyStep { key: Ok(Some(key)), cursor: after }
            },
        },
    }
}

/// What is left to read at a mark: see `Cursor::remaining`.
pub open spec fn mark_remaining(src: Seq<u8>, mark: (usize, bool)) -> int {
    2 * (src.len() - mark.0) + (if mark.1 {
        1int
    } else {
        0int
    })
}

/// Whether one more element follows an element of a sequence of values that
/// follow one another. `at` is where the element ended, `before` what was left to
/// read where it started, and `more` says whether the element was read. Where the
/// next token stands on the same line, it is the next element. Where it stands on
/// a later line, it is read as a key: the same key once more goes before one more
/// element; another key, put back, or the end of the group, put back, ends the
/// sequence. The sequence also ends where the element was not read, or took
/// nothing.
pub open spec fn list_next(src: Seq<u8>, before: int, at: Cursor, key: Seq<u8>, more: bool) -> Stepped<
    bool,
> {
    let newline = match at.next_span(src) {
        Some(next) => has_newline(slice_of(src, Span { start: at.last_span.end, end: next.start })),
        None => false,
    };
    let peeked = at.after_peek(src);
    let step = key_step(src, peeked, false, true);
    if !newline {
        Stepped { result: Ok(more && peeked.fits(src) && peeked.remaining(src) < before), cursor: peeked }
    } else {
        match step.key {
            Err(e) => Stepped { result: Err(e), cursor: step.cursor },
            Ok(None) => Stepped { result: Ok(false), cursor: step.cursor },
            Ok(Some(next_key)) => if token_text(src, next_key) != key {
                Stepped { result: Ok(false), cursor: step.cursor.with_peeked(next_key) }
            } else {
                Stepped {
                    result: Ok(more && step.cursor.fits(src) && step.cursor.remaining(src) < before),
                    cursor: step.cursor,
                }
            },
        }
    }
}

/// The start of a group: whether it is the whole text. After `{`, which is taken,
/// it is not. Without `{` it is, where the token is the first of the text;
/// anywhere else the token is not expected.
pub open spec fn map_start(src: Seq<u8>, c: Cursor) -> Stepped<bool> {
    let peeked = c.after_peek(src);
    match expect_next(c.next_found(src), seq![Token::GroupStart], src) {
        Ok(_) => Stepped { result: Ok(false), cursor: peeked.after_next(src) },
        Err(e) => if e is UnexpectedToken && peeked.lex.count <= 1 {
            Stepped { result: Ok(true), cursor: peeked }
        } else {
            Stepped { result: Err(e), cursor: peeked }
        },
    }
}

/// The error of a value with the range of the value as its place, where it has
/// none yet. The value runs from `start`, where a token started it, to the end of
/// what was taken last.
pub open spec fn value_error(e: ErrorModel, start: Option<Span>, after: Cursor, src: Seq<u8>) -> ErrorModel {
    match start {
        Some(first) => e.ensure_span(
            SourceSpan::of(Span { start: first.start, end: after.last_span.end }),
            src,
        ),
        None => e,
    }
}

/// The start of a variant: whether it stands in braces, and its tag. Where `{`
/// comes first, it is taken. The tag is read as a text.
pub open spec fn variant_start(src: Seq<u8>, c: Cursor) -> Stepped<(bool, Seq<u8>)> {
    let peeked = c.after_peek(src);
    let enclosed = match c.next_found(src) {
        Some(Ok(first)) => first.token == Token::GroupStart,
        _ => false,
    };
    let at_tag = if enclosed {
        peeked.after_next(src)
    } else {
        peeked
    };
    Stepped {
        result: match at_tag.next_text(src) {
            Ok((tag, _)) => Ok((enclosed, tag)),
            Err(e) => Err(e),
        },
        cursor: at_tag.after_next(src),
    }
}

/// The end of a variant with a payload: where the variant stands in braces, `}`
/// is taken.
pub open spec fn variant_end(src: Seq<u8>, c: Cursor, enclosed: bool) -> Stepped<()> {
    if enclosed {
        Stepped {
            result: match expect_next(c.next_found(src), seq![Token::GroupEnd], src) {
                Ok(_) => Ok(()),
                Err(e) => Err(e),
            },
            cursor: c.after_next(src),
        }
    } else {
        Stepped { result: Ok(()), cursor: c }
    }
}

/// The error for a tag that is the name of no variant: it holds the tag and the
/// names, and has no place yet.
pub open spec fn unknown_variant(tag: Seq<u8>, names: Seq<Seq<u8>>) -> ErrorModel {
    ErrorModel::UnknownVariant {
        variant: tag,
        expected: names,
        span: SourceSpan { offset: 0, length: 0 },
        src: Seq::empty(),
    }
}

/// The error of an enum whose first token was `first`: an `UnknownVariant` error
/// points at the range from that token to the end of what was taken last.
pub open spec fn variant_error(e: ErrorModel, first: Option<SpannedToken>, after: Cursor, src: Seq<u8>) -> ErrorModel {
    match first {
        Some(first) => if e is UnknownVariant {
            e.with_source_span(
                SourceSpan::of(Span { start: first.span.start, end: after.last_span.end }),
                src,
            )
        } else {
            e
        },
        None => e,
    }
}

/// The view of a key token that may be there, or of the error in its place.
pub open spec fn key_result(r: Result<Option<SpannedToken>, VdfError>) -> Result<
    Option<SpannedToken>,
    ErrorModel,
> {
    match r {
        Ok(key) => Ok(key),
        Err(e) => Err(e@),
    }
}

/// The view of how a value of any shape starts, or of the error in its place.
pub open spec fn any_result(r: Result<AnyStart, VdfError>) -> Result<AnyStartModel, ErrorModel> {
    match r {
        Ok(start) => Ok(start@),
        Err(e) => Err(e@),
    }
}

/// The view of how a sequence starts, or of the error in its place.
pub open spec fn list_result(r: Result<ListStart, VdfError>) -> Result<ListStartModel, ErrorModel> {
    match r {
        Ok(start) => Ok(start@),
        Err(e) => Err(e@),
    }
}

/// The view of how a variant starts, or of the error in its place.
pub open spec fn tag_result(r: Result<(bool, Vec<u8>), VdfError>) -> Result<(bool, Seq<u8>), ErrorModel> {
    match r {
        Ok((enclosed, tag)) => Ok((enclosed, tag@)),
        Err(e) => Err(e@),
    }
}

/// Whether a token is a sequence written in one token.
pub fn inline_list_token(source: &[u8], token: &SpannedToken) -> (r: bool)
    ensures
        r == is_inline_list(source@, *token),
        r ==> token.span.start + 4 <= token.span.end <= source@.len(),
{
    match token.token {
        Token::Item => {
            let raw = text::slice(source, token.span);
            if token.quoted && raw.len() >= 2 {
                string_is_array(vstd::slice::slice_subrange(raw, 1, raw.len() - 1))
            } else {
                false
            }
        },
        _ => false,
    }
}

fn trim_bytes<'a>(s: &'a [u8]) -> (r: &'a [u8])
    ensures
        r@ == trim(s@),
        r@.len() <= s@.len(),
{
    trim_segment(s, 0, s.len())
}

/// What an element of a sequence of values that follow one another counts as:
/// see `element_kept`.
pub fn keep_element<T>(r: Result<T, VdfError>) -> (kept: Result<Option<T>, VdfError>)
    ensures
        modelled(kept) == element_kept(modelled(r)),
{
    match r {
        Ok(v) => Ok(Some(v)),
        Err(VdfError::NoValidToken(_)) => Ok(None),
        Err(e) => Err(e),
    }
}

/// The error for a tag that is the name of no variant.
pub fn unknown_variant_error(tag: &[u8], variants: &Vec<Variant>) -> (r: VdfError)
    ensures
        r@ == unknown_variant(tag@, variant_names(variants@)),
{
    let nowhere: Vec<u8> = Vec::new();
    VdfError::UnknownVariant(
        UnknownVariantError::new(tag, names_of(variants), Span::new(0, 0), nowhere.as_slice()),
    )
}

/// Walks through the words of a sequence written in one token.
pub struct StringArrayWalker<'source> {
    source: &'source [u8],
    remaining: &'source [u8],
    span: Span,
}

impl<'source> StringArrayWalker<'source> {
    #[verifier::type_invariant]
    spec fn inv(self) -> bool {
        &&& self.span.start + self.remaining@.len() <= self.span.end
        &&& self.remaining@.len() == 0 || self.remaining@.len() + 4 <= self.source@.len()
    }

    /// What is left of the text between the brackets.
    pub closed spec fn rest(&self) -> Seq<u8> {
        self.remaining@
    }

    /// A range that ends where the sequence ends, as long as what is left.
    pub closed spec fn rest_span(&self) -> Span {
        self.span
    }

    /// The text that the sequence stands in.
    pub closed spec fn text(&self) -> Seq<u8> {
        self.source@
    }

    /// A walker at the first word of the sequence that `token` is; where the token
    /// is no sequence, a walker that has no word.
    pub fn new(source: &'source [u8], token: SpannedToken) -> (r: Self)
        ensures
            r.text() == source@,
            is_inline_list(source@, token) ==> r.rest() == inline_interior(source@, token)
                && r.rest_span() == inline_span(source@, token),
            !is_inline_list(source@, token) ==> r.rest().len() == 0,
    {
        if inline_list_token(source, &token) {
            let raw = text::slice(source, token.span);
            let interior = trim_bytes(vstd::slice::slice_subrange(raw, 2, raw.len() - 2));
            StringArrayWalker {
                source,
                remaining: interior,
                span: Span::new(token.span.start + 2, token.span.end - 2),
            }
        } else {
            StringArrayWalker {
                source,
                remaining: vstd::slice::slice_subrange(source, 0, 0),
                span: Span::new(0, 0),
            }
        }
    }

    /// The text that the sequence stands in.
    pub fn source(&self) -> (r: &'source [u8])
        ensures
            r@ == self.text(),
    {
        self.source
    }

    /// The next word with its range in the source; `None` when no word is left.
    pub fn next_item(&mut self) -> (r: Option<(&'source [u8], Span)>)
        ensures
            final(self).text() == old(self).text(),
            match r {
                None => old(self).rest().len() == 0 && final(self).rest() == old(self).rest()
                    && final(self).rest_span() == old(self).rest_span(),
                Some((item, item_span)) => {
                    let step = inline_step(old(self).rest(), old(self).rest_span());
                    &&& old(self).rest().len() > 0
                    &&& item@ == step.item
                    &&& item_span == step.item_span
                    &&& final(self).rest() == step.rest
                    &&& final(self).rest_span() == step.span
                    &&& item@.len() < old(self).text().len()
                    &&& final(self).rest().len() < old(self).rest().len()
                },
            },
    {
        proof {
            use_type_invariant(&*self);
        }
        let rest = self.remaining;
        if rest.len() == 0 {
            return None;
        }
        let mut cut: usize = 0;
        while cut < rest.len() && rest[cut] != SPACE
            invariant
                cut <= rest@.len(),
                word_end(rest@, 0) == word_end(rest@, cut as int),
            decreases rest@.len() - cut,
        {
            cut = cut + 1;
        }
        let item = vstd::slice::slice_subrange(rest, 0, cut);
        let tail_start = if cut < rest.len() {
            cut + 1
        } else {
            cut
        };
        let after = trim_bytes(vstd::slice::slice_subrange(rest, tail_start, rest.len()));
        let item_span = Span::new(self.span.start, self.span.start + item.len());
        let after_span = Span::new(self.span.end - after.len(), self.span.end);
        *self = StringArrayWalker { source: self.source, remaining: after, span: after_span };
        Some((item, item_span))
    }
}

impl<'de> Deserializer<'de> {
    /// Reads a key: see `key_step`.
    pub fn key_token(&mut self, toplevel: bool, retain_group_end: bool) -> (r: Result<
        Option<SpannedToken>,
        VdfError,
    >)
        ensures
            key_result(r) == key_step(old(self).text(), old(self).cursor(), toplevel, retain_group_end).key,
            final(self).cursor() == key_step(
                old(self).text(),
                old(self).cursor(),
                toplevel,
                retain_group_end,
            ).cursor,
            final(self).text() == old(self).text(),
            final(self).cursor().fits(old(self).text()),
            final(self).cursor().remaining(old(self).text()) <= old(self).cursor().remaining(
                old(self).text(),
            ),
            r matches Ok(Some(_)) ==> final(self).cursor().remaining(old(self).text()) < old(
                self,
            ).cursor().remaining(old(self).text()),
    {
        let source = self.source();
        proof {
            lemma_cursor_moves(self.text(), self.cursor());
        }
        let expected = if toplevel {
            string_item_tokens()
        } else {
            key_tokens()
        };
        let found = match self.next() {
            Some(found) => found,
            None => {
                if toplevel {
                    return Ok(None);
                }
                return Err(
                    VdfError::UnexpectedToken(
                        UnexpectedTokenError::new(
                            expected.as_slice(),
                            None,
                            SourceSpan::from_span(Span::new(source.len(), source.len())),
                            text::to_vec(source),
                        ),
                    ),
                );
            },
        };
        let key = match found.expect_token(expected.as_slice(), source) {
            Ok(key) => key,
            Err(e) => {
                return Err(e);
            },
        };
        match key.token {
            Token::GroupEnd => {
                if retain_group_end {
                    self.push_peeked(key);
                }
                Ok(None)
            },
            _ => Ok(Some(key)),
        }
    }

    /// Starts a value of any shape: see `any_start`.
    pub fn begin_any(&mut self) -> (r: Result<AnyStart, VdfError>)
        ensures
            any_result(r) == any_start(old(self).text(), old(self).cursor()).result,
            final(self).cursor() == any_start(old(self).text(), old(self).cursor()).cursor,
            final(self).text() == old(self).text(),
            final(self).cursor().fits(old(self).text()),
            final(self).cursor().remaining(old(self).text()) <= old(self).cursor().remaining(
                old(self).text(),
            ),
            r is Ok ==> final(self).cursor().remaining(old(self).text()) < old(self).cursor().remaining(
                old(self).text(),
            ),
            r matches Ok(AnyStart::Inline(token)) ==> is_inline_list(old(self).text(), token),
    {
        let source = self.source();
        proof {
            lemma_cursor_moves(self.text(), self.cursor());
        }
        let expected = value_tokens();
        let token = match self.next().expect_token(expected.as_slice(), source) {
            Ok(token) => token,
            Err(e) => {
                return Err(e);
            },
        };
        match token.token {
            Token::GroupStart => Ok(AnyStart::Group(token)),
            _ => {
                let text = token.string(source);
                let value = infer(text.as_slice());
                let is_text = match &value {
                    Decoded::Str(_) => true,
                    _ => false,
                };
                if is_text && inline_list_token(source, &token) {
                    Ok(AnyStart::Inline(token))
                } else {
                    Ok(AnyStart::Scalar(value))
                }
            },
        }
    }

    /// The error of a group of any shape that started with `first`: see
    /// `group_error`.
    pub fn group_error(&self, e: VdfError, first: SpannedToken) -> (r: VdfError)
        ensures
            r@ == group_error(e@, first, self.cursor(), self.text()),
            r@.same_kind(e@),
    {
        let source = self.source();
        let span = Span::new(first.span.start, self.last_span().end);
        let e = e.ensure_span(span, source);
        let at_start = match e.span() {
            Some(at) => at.offset == span.start,
            None => false,
        };
        if at_start {
            e.with_source_span(span, source)
        } else {
            e
        }
    }

    /// Starts an optional value: see `optional_start`.
    pub fn take_optional(&mut self) -> (r: Result<bool, VdfError>)
        ensures
            stepped(r, final(self).cursor()) == optional_start(old(self).text(), old(self).cursor()),
            final(self).text() == old(self).text(),
            final(self).cursor().fits(old(self).text()),
            final(self).cursor().remaining(old(self).text()) <= old(self).cursor().remaining(
                old(self).text(),
            ),
    {
        let source = self.source();
        proof {
            lemma_cursor_moves(self.text(), self.cursor());
        }
        let token = match self.next() {
            None => {
                return Ok(false);
            },
            Some(Err(span)) => {
                let expected = value_tokens();
                return Err(
                    VdfError::NoValidToken(
                        NoValidTokenError::new(
                            expected.as_slice(),
                            SourceSpan::from_span(span),
                            text::to_vec(source),
                        ),
                    ),
                );
            },
            Some(Ok(token)) => token,
        };
        let holds_text = match token.token {
            Token::GroupStart | Token::GroupEnd => false,
            _ => true,
        };
        if holds_text && token.string(source).len() == 0 {
            return Ok(false);
        }
        self.push_peeked(token);
        Ok(true)
    }

    /// Starts a sequence: see `list_start`.
    pub fn begin_list(&mut self) -> (r: Result<ListStart, VdfError>)
        ensures
            list_result(r) == list_start(old(self).text(), old(self).cursor()).result,
            final(self).cursor() == list_start(old(self).text(), old(self).cursor()).cursor,
            final(self).text() == old(self).text(),
            final(self).cursor().fits(old(self).text()),
            final(self).cursor().remaining(old(self).text()) <= old(self).cursor().remaining(
                old(self).text(),
            ),
            r is Ok ==> old(self).cursor().remaining(old(self).text()) > 0,
            r matches Ok(ListStart::Inline(token)) ==> is_inline_list(old(self).text(), token),
    {
        let source = self.source();
        proof {
            lemma_cursor_moves(self.text(), self.cursor());
            lemma_cursor_moves(self.text(), self.cursor().after_peek(self.text()));
        }
        let expected = string_item_tokens();
        let token = match self.peek().expect_token(expected.as_slice(), source) {
            Ok(token) => token,
            Err(e) => {
                return Err(e);
            },
        };
        if inline_list_token(source, &token) {
            let _ = self.next();
            Ok(ListStart::Inline(token))
        } else {
            Ok(ListStart::Repeated(text::to_vec(self.last_key())))
        }
    }

    /// Decides whether one more element follows in a sequence of values that
    /// follow one another: see `list_next`. `mark` is the mark of the decoder
    /// where the element started.
    pub fn after_element(&mut self, key: &[u8], mark: (usize, bool), more: bool) -> (r: Result<
        bool,
        VdfError,
    >)
        ensures
            stepped(r, final(self).cursor()) == list_next(
                old(self).text(),
                mark_remaining(old(self).text(), mark),
                old(self).cursor(),
                key@,
                more,
            ),
            final(self).text() == old(self).text(),
            final(self).cursor().fits(old(self).text()),
            final(self).cursor().remaining(old(self).text()) <= old(self).cursor().remaining(
                old(self).text(),
            ),
    {
        let source = self.source();
        proof {
            lemma_cursor_moves(self.text(), self.cursor());
            lemma_cursor_moves(self.text(), self.cursor().after_peek(self.text()));
        }
        let value_span = self.last_span();
        let newline = match self.peek_span() {
            Some(next) => text::contains_newline(
                text::slice(source, Span::new(value_span.end, next.start)),
            ),
            None => false,
        };
        if newline {
            match self.key_token(false, true) {
                Err(e) => {
                    return Err(e);
                },
                Ok(None) => {
                    return Ok(false);
                },
                Ok(Some(next_key)) => {
                    let name = next_key.string(source);
                    if !text::same(name.as_slice(), key) {
                        self.push_peeked(next_key);
                        return Ok(false);
                    }
                },
            }
        }
        let now = self.mark();
        let advanced = now.0 > mark.0 || (now.0 == mark.0 && !now.1 && mark.1);
        Ok(more && advanced)
    }

    /// Starts a group: see `map_start`.
    pub fn begin_map(&mut self) -> (r: Result<bool, VdfError>)
        ensures
            stepped(r, final(self).cursor()) == map_start(old(self).text(), old(self).cursor()),
            final(self).text() == old(self).text(),
            final(self).cursor().fits(old(self).text()),
            final(self).cursor().remaining(old(self).text()) <= old(self).cursor().remaining(
                old(self).text(),
            ),
    {
        let source = self.source();
        proof {
            lemma_cursor_moves(self.text(), self.cursor());
            lemma_cursor_moves(self.text(), self.cursor().after_peek(self.text()));
        }
        // a group without `{` at the start of the text is the whole text
        let expected = group_start_tokens();
        match self.peek().expect_token(expected.as_slice(), source) {
            Ok(_) => {
                let _ = self.next();
                Ok(false)
            },
            Err(VdfError::UnexpectedToken(e)) => {
                if self.count() > 1 {
                    return Err(VdfError::UnexpectedToken(e));
                }
                Ok(true)
            },
            Err(e) => Err(e),
        }
    }

    /// The error of a value that the token at `first` started: see `value_error`.
    pub fn value_error(&self, e: VdfError, first: Option<Span>) -> (r: VdfError)
        ensures
            r@ == value_error(e@, first, self.cursor(), self.text()),
            r@.same_kind(e@),
    {
        match first {
            Some(first) => e.ensure_span(Span::new(first.start, self.last_span().end), self.source()),
            None => e,
        }
    }

    /// Starts a variant: see `variant_start`.
    pub fn begin_variant(&mut self) -> (r: Result<(bool, Vec<u8>), VdfError>)
        ensures
            tag_result(r) == variant_start(old(self).text(), old(self).cursor()).result,
            final(self).cursor() == variant_start(old(self).text(), old(self).cursor()).cursor,
            final(self).text() == old(self).text(),
            final(self).cursor().fits(old(self).text()),
            final(self).cursor().remaining(old(self).text()) <= old(self).cursor().remaining(
                old(self).text(),
            ),
            r is Ok ==> final(self).cursor().remaining(old(self).text()) < old(self).cursor().remaining(
                old(self).text(),
            ),
    {
        let _ = self.source();
        proof {
            lemma_cursor_moves(self.text(), self.cursor());
            lemma_cursor_moves(self.text(), self.cursor().after_peek(self.text()));
        }
        let enclosed = match self.peek() {
            Some(Ok(first)) => match first.token {
                Token::GroupStart => true,
                _ => false,
            },
            _ => false,
        };
        if enclosed {
            let _ = self.next();
        }
        proof {
            lemma_cursor_moves(self.text(), self.cursor());
        }
        match self.read_str() {
            Ok((tag, _)) => Ok((enclosed, tag)),
            Err(e) => Err(e),
        }
    }

    /// Ends a variant with a payload: see `variant_end`.
    pub fn end_variant(&mut self, enclosed: bool) -> (r: Result<(), VdfError>)
        ensures
            stepped(r, final(self).cursor()) == variant_end(old(self).text(), old(self).cursor(), enclosed),
            final(self).text() == old(self).text(),
            final(self).cursor().fits(old(self).text()),
            final(self).cursor().remaining(old(self).text()) <= old(self).cursor().remaining(
                old(self).text(),
            ),
    {
        let source = self.source();
        if !enclosed {
            return Ok(());
        }
        proof {
            lemma_cursor_moves(self.text(), self.cursor());
        }
        let expected = group_end_tokens();
        match self.next().expect_token(expected.as_slice(), source) {
            Ok(_) => Ok(()),
            Err(e) => Err(e),
        }
    }

    /// The error of an enum whose first token was `first`: see `variant_error`.
    pub fn variant_error(&self, e: VdfError, first: Option<SpannedToken>) -> (r: VdfError)
        ensures
            r@ == variant_error(e@, first, self.cursor(), self.text()),
            r@.same_kind(e@),
    {
        let unknown = match &e {
            VdfError::UnknownVariant(_) => true,
            _ => false,
        };
        match first {
            Some(first) => if unknown {
                e.with_source_span(Span::new(first.span.start, self.last_span().end), self.source())
            } else {
                e
            },
            None => e,
        }
    }
}

} // verus!
