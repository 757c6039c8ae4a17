//! The typed decoder: from a text and the shape asked for to a decoded value.

use crate::cursor::{lemma_cursor_moves, Cursor, Deserializer};
use crate::error::{ErrorModel, SerdeParseError, VdfError};
use crate::lexer::SpannedToken;
use crate::scalar::{name_of, scalar, scalar_name, scalar_value};
use crate::shape::{
    field_index, find_field, find_variant, list_model, pairs_model, variant_index, variant_names,
    Decoded, DecodedModel, Shape, Variant,
};
use crate::span::{SourceSpan, Span};
use crate::steps::{
    any_start, element_kept, group_error, inline_interior, inline_span, inline_step,
    is_inline_list, keep_element, key_step, list_next, list_start, map_start, optional_start,
    unknown_variant, unknown_variant_error, value_error, variant_end, variant_error,
    variant_start, AnyStart, AnyStartModel, ListStart, ListStartModel, StringArrayWalker,
};
use crate::tokenizer::token_text;
use vstd::prelude::*;
use vstd::string::StringSliceAdditionalSpecFns;

verus! {

/// What decoding gives: the value or the error, and where the cursor stands
/// after it.
pub struct Outcome {
    pub result: Result<DecodedModel, ErrorModel>,
    pub cursor: Cursor,
}

/// Decoding a scalar: the next token is taken as a text and read as the shape.
/// A text that is not of the shape gives a `SerdeParse` error that names the shape
/// and points at the token.
pub open spec fn decode_scalar(src: Seq<u8>, c: Cursor, shape: Shape) -> Outcome {
    Outcome {
        result: match c.next_text(src) {
            Err(e) => Err(e),
            Ok((text, span)) => match scalar_value(shape, text) {
                Some(value) => Ok(value),
                None => Err(
                    ErrorModel::SerdeParse {
                        ty: scalar_name(shape),
                        value: text,
                        span: SourceSpan::of(span),
                        src,
                    },
                ),
            },
        },
        cursor: c.after_next(src),
    }
}

/// The shape of the value under `name` in a group of the given shape: the shape of
/// the field of that name, the shape of all values of a table, else any.
pub open spec fn value_shape(shape: Shape, name: Seq<u8>) -> Shape {
    match shape {
        Shape::Struct(fields) => if field_index(fields@, name) < fields@.len() {
            fields@[field_index(fields@, name)].shape
        } else {
            Shape::Any
        },
        Shape::Table(values) => *values,
        _ => Shape::Any,
    }
}

/// Whether the value under `name` is kept: in a struct, where a field has that
/// name.
pub open spec fn keeps(shape: Shape, name: Seq<u8>) -> bool {
    match shape {
        Shape::Struct(fields) => field_index(fields@, name) < fields@.len(),
        _ => true,
    }
}

/// Decoding the entries of a group, given the pairs read so far: a key is read,
/// then its value in the shape that the group gives to that key, until the group
/// ends. An error in a value that has no place yet points at the value.
///
/// Every key takes a token, so the cursor after an entry stands further on; the
/// test on what is left only shows that this definition is well-founded.
pub open spec fn walk_map(
    src: Seq<u8>,
    c: Cursor,
    shape: Shape,
    toplevel: bool,
    pairs: Seq<(Seq<u8>, DecodedModel)>,
) -> Outcome
    decreases src.len(), c.remaining(src), shape, 0int,
    when c.fits(src)
{
    let step = key_step(src, c, toplevel, false);
    match step.key {
        Err(e) => Outcome { result: Err(e), cursor: step.cursor },
        Ok(None) => Outcome { result: Ok(DecodedModel::Table(pairs)), cursor: step.cursor },
        Ok(Some(key)) => {
            let name = token_text(src, key);
            let at_value = step.cursor.with_last_key(name);
            proof {
                lemma_cursor_moves(src, c);
                lemma_cursor_moves(src, at_value);
            }
            let value = decode(src, at_value.after_peek(src), value_shape(shape, name));
            match value.result {
                Err(e) => Outcome {
                    result: Err(value_error(e, at_value.next_span(src), value.cursor, src)),
                    cursor: value.cursor,
                },
                Ok(v) => {
                    let pairs = if keeps(shape, name) {
                        pairs.push((name, v))
                    } else {
                        pairs
                    };
                    if value.cursor.fits(src) && value.cursor.remaining(src) < c.remaining(src) {
                        walk_map(src, value.cursor, shape, toplevel, pairs)
                    } else {
                        Outcome { result: Ok(DecodedModel::Table(pairs)), cursor: value.cursor }
                    }
                },
            }
        },
    }
}

/// Decoding a group: it starts as `map_start` says, then its entries are read.
pub open spec fn decode_map(src: Seq<u8>, c: Cursor, shape: Shape) -> Outcome
    decreases src.len(), c.remaining(src), shape, 1int,
    when c.fits(src)
{
    let start = map_start(src, c);
    proof {
        lemma_cursor_moves(src, c);
        lemma_cursor_moves(src, c.after_peek(src));
    }
    match start.result {
        Err(e) => Outcome { result: Err(e), cursor: start.cursor },
        Ok(toplevel) => walk_map(src, start.cursor, shape, toplevel, Seq::empty()),
    }
}

/// Decoding the elements of a sequence written in one token, given the elements
/// read so far. `rest` is what is left of the text between the brackets and `span`
/// its range in the source. Each word, decoded as a text of its own, is an
/// element; an error in it points at its range in the source.
pub open spec fn inline_items(
    src: Seq<u8>,
    rest: Seq<u8>,
    span: Span,
    shape: Shape,
    items: Seq<DecodedModel>,
) -> Result<DecodedModel, ErrorModel>
    decreases src.len(), 0int, shape, rest.len(),
{
    if rest.len() == 0 {
        Ok(DecodedModel::List(items))
    } else {
        let step = inline_step(rest, span);
        if step.item.len() < src.len() && step.rest.len() < rest.len() {
            match decode(step.item, Cursor::start(), shape).result {
                Err(e) => Err(e.with_source_span(SourceSpan::of(step.item_span), src)),
                Ok(v) => inline_items(src, step.rest, step.span, shape, items.push(v)),
            }
        } else {
            Ok(DecodedModel::List(items))
        }
    }
}

/// Decoding the elements of a sequence of values that follow one another, given
/// the key `key` that they stand under and the elements read so far. An element
/// is decoded, then `list_next` decides whether one more follows.
pub open spec fn walk_list(
    src: Seq<u8>,
    c: Cursor,
    shape: Shape,
    key: Seq<u8>,
    items: Seq<DecodedModel>,
) -> Outcome
    decreases src.len(), c.remaining(src), shape, 3int,
    when c.fits(src)
{
    let element = decode(src, c, shape);
    match element_kept(element.result) {
        Err(e) => Outcome { result: Err(e), cursor: element.cursor },
        Ok(kept) => {
            let items = match kept {
                Some(v) => items.push(v),
                None => items,
            };
            let next = list_next(src, c.remaining(src), element.cursor, key, kept is Some);
            match next.result {
                Err(e) => Outcome { result: Err(e), cursor: next.cursor },
                Ok(more) => if more && next.cursor.fits(src) && next.cursor.remaining(src)
                    < c.remaining(src) {
                    walk_list(src, next.cursor, shape, key, items)
                } else {
                    Outcome { result: Ok(DecodedModel::List(items)), cursor: next.cursor }
                },
            }
        },
    }
}

/// Decoding a sequence: it starts as `list_start` says. The words of a sequence
/// written in one token are its elements; else the elements follow one another.
pub open spec fn decode_list(src: Seq<u8>, c: Cursor, shape: Shape) -> Outcome
    decreases src.len(), c.remaining(src), shape, 4int,
    when c.fits(src)
{
    let start = list_start(src, c);
    proof {
        lemma_cursor_moves(src, c);
    }
    match start.result {
        Err(e) => Outcome { result: Err(e), cursor: start.cursor },
        Ok(ListStartModel::Inline(token)) => Outcome {
            result: inline_items(
                src,
                inline_interior(src, token),
                inline_span(src, token),
                shape,
                Seq::empty(),
            ),
            cursor: start.cursor,
        },
        Ok(ListStartModel::Repeated(key)) => walk_list(src, start.cursor, shape, key, Seq::empty()),
    }
}

/// Decoding a value of any shape: it starts as `any_start` says. A group holds
/// values of any shape, and so does a sequence written in one token. An error in
/// the sequence that has no place yet points at the token.
pub open spec fn decode_any(src: Seq<u8>, c: Cursor) -> Outcome
    decreases src.len(), c.remaining(src), Shape::Any, 1int,
    when c.fits(src)
{
    let start = any_start(src, c);
    proof {
        lemma_cursor_moves(src, c);
    }
    match start.result {
        Err(e) => Outcome { result: Err(e), cursor: start.cursor },
        Ok(AnyStartModel::Scalar(v)) => Outcome { result: Ok(v), cursor: start.cursor },
        Ok(AnyStartModel::Inline(token)) => Outcome {
            result: match inline_items(
                src,
                inline_interior(src, token),
                inline_span(src, token),
                Shape::Any,
                Seq::empty(),
            ) {
                Ok(v) => Ok(v),
                Err(e) => Err(e.ensure_span(SourceSpan::of(token.span), src)),
            },
            cursor: start.cursor,
        },
        Ok(AnyStartModel::Group(first)) => {
            let group = walk_map(src, start.cursor, Shape::Any, false, Seq::empty());
            Outcome {
                result: match group.result {
                    Ok(v) => Ok(v),
                    Err(e) => Err(group_error(e, first, group.cursor, src)),
                },
                cursor: group.cursor,
            }
        },
    }
}

/// Decoding the variant of an enum: it starts as `variant_start` says. The tag
/// must be the name of a variant. Where the variant has a payload, the payload
/// follows in its shape, and the variant ends as `variant_end` says.
pub open spec fn decode_variant(src: Seq<u8>, c: Cursor, variants: Vec<Variant>) -> Outcome
    decreases src.len(), c.remaining(src), Shape::Enum(variants), 0int,
    when c.fits(src)
{
    let start = variant_start(src, c);
    proof {
        lemma_cursor_moves(src, c);
        lemma_cursor_moves(src, c.after_peek(src));
        lemma_cursor_moves(src, c.after_peek(src).after_next(src));
    }
    match start.result {
        Err(e) => Outcome { result: Err(e), cursor: start.cursor },
        Ok((enclosed, tag)) => {
            let i = variant_index(variants@, tag);
            if i >= variants@.len() {
                Outcome {
                    result: Err(unknown_variant(tag, variant_names(variants@))),
                    cursor: start.cursor,
                }
            } else {
                match variants@[i].payload {
                    None => Outcome { result: Ok(DecodedModel::Variant(tag, None)), cursor: start.cursor },
                    Some(shape) => {
                        let payload = decode(src, start.cursor, shape);
                        match payload.result {
                            Err(e) => payload,
                            Ok(v) => {
                                let end = variant_end(src, payload.cursor, enclosed);
                                Outcome {
                                    result: match end.result {
                                        Ok(_) => Ok(DecodedModel::Variant(tag, Some(Box::new(v)))),
                                        Err(e) => Err(e),
                                    },
                                    cursor: end.cursor,
                                }
                            },
                        }
                    },
                }
            }
        },
    }
}

/// Decoding an enum: its variant is decoded. An `UnknownVariant` error points at
/// the range from the first token of the enum to the end of what was taken last.
pub open spec fn decode_enum(src: Seq<u8>, c: Cursor, variants: Vec<Variant>) -> Outcome
    decreases src.len(), c.remaining(src), Shape::Enum(variants), 1int,
    when c.fits(src)
{
    proof {
        lemma_cursor_moves(src, c);
    }
    let first = match c.next_found(src) {
        Some(Ok(first)) => Some(first),
        _ => None,
    };
    let inner = decode_variant(src, c.after_peek(src), variants);
    Outcome {
        result: match inner.result {
            Err(e) => Err(variant_error(e, first, inner.cursor, src)),
            Ok(v) => Ok(v),
        },
        cursor: inner.cursor,
    }
}

/// Decoding an optional value: where `optional_start` finds a value, the value is
/// decoded.
pub open spec fn decode_optional(src: Seq<u8>, c: Cursor, inner: Shape) -> Outcome
    decreases src.len(), c.remaining(src), inner, 5int,
    when c.fits(src)
{
    let start = optional_start(src, c);
    proof {
        lemma_cursor_moves(src, c);
    }
    match start.result {
        Err(e) => Outcome { result: Err(e), cursor: start.cursor },
        Ok(false) => Outcome { result: Ok(DecodedModel::Absent), cursor: start.cursor },
        Ok(true) => {
            let value = decode(src, start.cursor, inner);
            Outcome {
                result: match value.result {
                    Ok(v) => Ok(DecodedModel::Present(Box::new(v))),
                    Err(e) => Err(e),
                },
                cursor: value.cursor,
            }
        },
    }
}

/// Decoding a value of the shape asked for, from where the cursor stands.
pub open spec fn decode(src: Seq<u8>, c: Cursor, shape: Shape) -> Outcome
    decreases src.len(), c.remaining(src), shape, 2int,
    when c.fits(src)
{
    match shape {
        Shape::Any => decode_any(src, c),
        Shape::Optional(inner) => decode_optional(src, c, *inner),
        Shape::List(elements) => decode_list(src, c, *elements),
        Shape::Table(_) => decode_map(src, c, shape),
        Shape::Struct(_) => decode_map(src, c, shape),
        Shape::Enum(variants) => decode_enum(src, c, variants),
        _ => decode_scalar(src, c, shape),
    }
}

/// What decoding gave, as a mathematical value.
pub open spec fn outcome(r: Result<Decoded, VdfError>, cursor: Cursor) -> Outcome {
    Outcome {
        result: match r {
            Ok(v) => Ok(v@),
            Err(e) => Err(e@),
        },
        cursor,
    }
}

/// The view of a decoded value or of the error in its place.
pub open spec fn decoded_result(r: Result<Decoded, VdfError>) -> Result<DecodedModel, ErrorModel> {
    match r {
        Ok(v) => Ok(v@),
        Err(e) => Err(e@),
    }
}

/// Decodes a sequence written in one token: the words between its brackets, each
/// as a text of its own.
fn decode_inline(source: &[u8], token: SpannedToken, shape: &Shape) -> (r: Result<Decoded, VdfError>)
    requires
        is_inline_list(source@, token),
    ensures
        decoded_result(r) == inline_items(
            source@,
            inline_interior(source@, token),
            inline_span(source@, token),
            *shape,
            Seq::empty(),
        ),
    decreases source@.len(), 0int, shape, 0int,
{
    let mut walker = StringArrayWalker::new(source, token);
    let mut items: Vec<Decoded> = Vec::new();
    let ghost src = source@;
    let ghost goal = inline_items(
        src,
        inline_interior(src, token),
        inline_span(src, token),
        *shape,
        Seq::empty(),
    );
    assert(list_model(items@) =~= Seq::<DecodedModel>::empty());
    loop
        invariant
            src == source@,
            walker.text() == src,
            goal == inline_items(src, inline_interior(src, token), inline_span(src, token), *shape, Seq::empty()),
            goal == inline_items(src, walker.rest(), walker.rest_span(), *shape, list_model(items@)),
        decreases walker.rest().len(),
    {
        let (item, item_span) = match walker.next_item() {
            Some(next) => next,
            None => {
                return Ok(Decoded::List(items));
            },
        };
        let mut de = Deserializer::from_bytes(item);
        let ghost before = list_model(items@);
        match de.decode(shape) {
            Err(e) => {
                return Err(e.with_source_span(item_span, source));
            },
            Ok(v) => {
                items.push(v);
                assert(list_model(items@) =~= before.push(v@));
            },
        }
    }
}

impl<'de> Deserializer<'de> {
    /// Decodes a scalar: see `decode_scalar`.
    pub fn decode_scalar(&mut self, shape: &Shape) -> (r: Result<Decoded, VdfError>)
        ensures
            outcome(r, final(self).cursor()) == decode_scalar(
                old(self).text(),
                old(self).cursor(),
                *shape,
            ),
            final(self).text() == old(self).text(),
            final(self).cursor().fits(old(self).text()),
            final(self).cursor().remaining(old(self).text()) <= old(self).cursor().remaining(
                old(self).text(),
            ),
    {
        let source = self.source();
        proof {
            lemma_cursor_moves(self.text(), self.cursor());
        }
        let (text, span) = match self.read_str() {
            Ok(read) => read,
            Err(e) => {
                return Err(e);
            },
        };
        match scalar(shape, text.as_slice()) {
            Some(value) => Ok(value),
            None => Err(
                VdfError::SerdeParse(SerdeParseError::new(name_of(shape), text.as_slice(), span, source)),
            ),
        }
    }

    /// Decodes the entries of a group: see `walk_map`.
    fn walk_map(&mut self, shape: &Shape, toplevel: bool) -> (r: Result<Decoded, VdfError>)
        ensures
            outcome(r, final(self).cursor()) == walk_map(
                old(self).text(),
                old(self).cursor(),
                *shape,
                toplevel,
                Seq::empty(),
            ),
            final(self).text() == old(self).text(),
            final(self).cursor().fits(old(self).text()),
            final(self).cursor().remaining(old(self).text()) <= old(self).cursor().remaining(
                old(self).text(),
            ),
        decreases old(self).text().len(), old(self).cursor().remaining(old(self).text()), shape, 0int,
    {
        let source = self.source();
        let any = Shape::Any;
        let mut pairs: Vec<(Vec<u8>, Decoded)> = Vec::new();
        let ghost src = self.text();
        let ghost start = self.cursor();
        assert(pairs_model(pairs@) =~= Seq::<(Seq<u8>, DecodedModel)>::empty());
        loop
            invariant
                src == source@,
                self.text() == src,
                old(self).text() == src,
                old(self).cursor() == start,
                any == Shape::Any,
                self.cursor().fits(src),
                self.cursor().remaining(src) <= start.remaining(src),
                walk_map(src, start, *shape, toplevel, Seq::empty()) == walk_map(
                    src,
                    self.cursor(),
                    *shape,
                    toplevel,
                    pairs_model(pairs@),
                ),
            decreases self.cursor().remaining(src),
        {
            let ghost before = pairs_model(pairs@);
            let key = match self.key_token(toplevel, false) {
                Err(e) => {
                    return Err(e);
                },
                Ok(None) => {
                    return Ok(Decoded::Table(pairs));
                },
                Ok(Some(key)) => key,
            };
            let name = key.string(source);
            self.set_last_key(name.clone());
            proof {
                lemma_cursor_moves(src, self.cursor());
            }
            let first = self.peek_span();
            let (value_shape, keep) = match shape {
                Shape::Struct(fields) => {
                    let i = find_field(fields, name.as_slice());
                    if i < fields.len() {
                        (&fields[i].shape, true)
                    } else {
                        (&any, false)
                    }
                },
                Shape::Table(values) => (&**values, true),
                _ => (&any, true),
            };
            match self.decode(value_shape) {
                Err(e) => {
                    return Err(self.value_error(e, first));
                },
                Ok(v) => {
                    if keep {
                        pairs.push((name, v));
                        assert(pairs_model(pairs@) =~= before.push((name@, v@)));
                    }
                },
            }
        }
    }

    /// Decodes a group: see `decode_map`.
    fn decode_map(&mut self, shape: &Shape) -> (r: Result<Decoded, VdfError>)
        ensures
            outcome(r, final(self).cursor()) == decode_map(old(self).text(), old(self).cursor(), *shape),
            final(self).text() == old(self).text(),
            final(self).cursor().fits(old(self).text()),
            final(self).cursor().remaining(old(self).text()) <= old(self).cursor().remaining(
                old(self).text(),
            ),
        decreases old(self).text().len(), old(self).cursor().remaining(old(self).text()), shape, 1int,
    {
        let _ = self.source();
        match self.begin_map() {
            Err(e) => Err(e),
            Ok(toplevel) => self.walk_map(shape, toplevel),
        }
    }

    /// Decodes the elements of a sequence of values that follow one another: see
    /// `walk_list`.
    fn walk_list(&mut self, shape: &Shape, key: &[u8]) -> (r: Result<Decoded, VdfError>)
        ensures
            outcome(r, final(self).cursor()) == walk_list(
                old(self).text(),
                old(self).cursor(),
                *shape,
                key@,
                Seq::empty(),
            ),
            final(self).text() == old(self).text(),
            final(self).cursor().fits(old(self).text()),
            final(self).cursor().remaining(old(self).text()) <= old(self).cursor().remaining(
                old(self).text(),
            ),
        decreases old(self).text().len(), old(self).cursor().remaining(old(self).text()), shape, 3int,
    {
        let _ = self.source();
        let mut items: Vec<Decoded> = Vec::new();
        let ghost src = self.text();
        let ghost start = self.cursor();
        assert(list_model(items@) =~= Seq::<DecodedModel>::empty());
        loop
            invariant
                self.text() == src,
                old(self).text() == src,
                old(self).cursor() == start,
                self.cursor().fits(src),
                self.cursor().remaining(src) <= start.remaining(src),
                walk_list(src, start, *shape, key@, Seq::empty()) == walk_list(
                    src,
                    self.cursor(),
                    *shape,
                    key@,
                    list_model(items@),
                ),
            decreases self.cursor().remaining(src),
        {
            let ghost before = list_model(items@);
            let mark = self.mark();
            let more = match keep_element(self.decode(shape)) {
                Err(e) => {
                    return Err(e);
                },
                Ok(Some(v)) => {
                    items.push(v);
                    assert(list_model(items@) =~= before.push(v@));
                    true
                },
                Ok(None) => false,
            };
            match self.after_element(key, mark, more) {
                Err(e) => {
                    return Err(e);
                },
                Ok(false) => {
                    return Ok(Decoded::List(items));
                },
                Ok(true) => {},
            }
        }
    }

    /// Decodes a sequence: see `decode_list`.
    fn decode_list(&mut self, shape: &Shape) -> (r: Result<Decoded, VdfError>)
        ensures
            outcome(r, final(self).cursor()) == decode_list(old(self).text(), old(self).cursor(), *shape),
            final(self).text() == old(self).text(),
            final(self).cursor().fits(old(self).text()),
            final(self).cursor().remaining(old(self).text()) <= old(self).cursor().remaining(
                old(self).text(),
            ),
        decreases old(self).text().len(), old(self).cursor().remaining(old(self).text()), shape, 4int,
    {
        let source = self.source();
        match self.begin_list() {
            Err(e) => Err(e),
            Ok(ListStart::Inline(token)) => decode_inline(source, token, shape),
            Ok(ListStart::Repeated(key)) => self.walk_list(shape, key.as_slice()),
        }
    }

    /// Decodes a value of any shape: see `decode_any`.
    fn decode_any(&mut self) -> (r: Result<Decoded, VdfError>)
        ensures
            outcome(r, final(self).cursor()) == decode_any(old(self).text(), old(self).cursor()),
            final(self).text() == old(self).text(),
            final(self).cursor().fits(old(self).text()),
            final(self).cursor().remaining(old(self).text()) <= old(self).cursor().remaining(
                old(self).text(),
            ),
        decreases old(self).text().len(), old(self).cursor().remaining(old(self).text()), Shape::Any, 1int,
    {
        let source = self.source();
        match self.begin_any() {
            Err(e) => Err(e),
            Ok(AnyStart::Scalar(value)) => Ok(value),
            Ok(AnyStart::Inline(token)) => {
                let any = Shape::Any;
                match decode_inline(source, token, &any) {
                    Ok(v) => Ok(v),
                    Err(e) => Err(e.ensure_span(token.span, source)),
                }
            },
            Ok(AnyStart::Group(first)) => {
                let any = Shape::Any;
                match self.walk_map(&any, false) {
                    Ok(v) => Ok(v),
                    Err(e) => Err(self.group_error(e, first)),
                }
            },
        }
    }

    /// Decodes an optional value: see `decode_optional`.
    fn decode_optional(&mut self, inner: &Shape) -> (r: Result<Decoded, VdfError>)
        ensures
            outcome(r, final(self).cursor()) == decode_optional(
                old(self).text(),
                old(self).cursor(),
                *inner,
            ),
            final(self).text() == old(self).text(),
            final(self).cursor().fits(old(self).text()),
            final(self).cursor().remaining(old(self).text()) <= old(self).cursor().remaining(
                old(self).text(),
            ),
        decreases old(self).text().len(), old(self).cursor().remaining(old(self).text()), inner, 5int,
    {
        let _ = self.source();
        match self.take_optional() {
            Err(e) => Err(e),
            Ok(false) => Ok(Decoded::Absent),
            Ok(true) => match self.decode(inner) {
                Ok(v) => Ok(Decoded::Present(Box::new(v))),
                Err(e) => Err(e),
            },
        }
    }

    /// Decodes an enum: see `decode_enum`.
    fn decode_enum(&mut self, variants: &Vec<Variant>) -> (r: Result<Decoded, VdfError>)
        ensures
            outcome(r, final(self).cursor()) == decode_enum(
                old(self).text(),
                old(self).cursor(),
                *variants,
            ),
            final(self).text() == old(self).text(),
            final(self).cursor().fits(old(self).text()),
            final(self).cursor().remaining(old(self).text()) <= old(self).cursor().remaining(
                old(self).text(),
            ),
        decreases old(self).text().len(), old(self).cursor().remaining(old(self).text()), Shape::Enum(
            *variants,
        ), 1int,
    {
        let _ = self.source();
        proof {
            lemma_cursor_moves(self.text(), self.cursor());
        }
        let first = match self.peek() {
            Some(Ok(first)) => Some(first),
            _ => None,
        };
        match self.decode_variant(variants) {
            Ok(v) => Ok(v),
            Err(e) => Err(self.variant_error(e, first)),
        }
    }

    /// Decodes the variant of an enum: see `decode_variant`.
    fn decode_variant(&mut self, variants: &Vec<Variant>) -> (r: Result<Decoded, VdfError>)
        ensures
            outcome(r, final(self).cursor()) == decode_variant(
                old(self).text(),
                old(self).cursor(),
                *variants,
            ),
            final(self).text() == old(self).text(),
            final(self).cursor().fits(old(self).text()),
            final(self).cursor().remaining(old(self).text()) <= old(self).cursor().remaining(
                old(self).text(),
            ),
        decreases old(self).text().len(), old(self).cursor().remaining(old(self).text()), Shape::Enum(
            *variants,
        ), 0int,
    {
        let _ = self.source();
        let (enclosed, tag) = match self.begin_variant() {
            Ok(start) => start,
            Err(e) => {
                return Err(e);
            },
        };
        let i = find_variant(variants, tag.as_slice());
        if i >= variants.len() {
            return Err(unknown_variant_error(tag.as_slice(), variants));
        }
        let payload = match &variants[i].payload {
            None => {
                return Ok(Decoded::Variant(tag, None));
            },
            Some(shape) => match self.decode(shape) {
                Ok(v) => v,
                Err(e) => {
                    return Err(e);
                },
            },
        };
        match self.end_variant(enclosed) {
            Ok(_) => Ok(Decoded::Variant(tag, Some(Box::new(payload)))),
            Err(e) => Err(e),
        }
    }

    /// Decodes a value of the shape asked for, from where the decoder stands.
    pub fn decode(&mut self, shape: &Shape) -> (r: Result<Decoded, VdfError>)
        ensures
            outcome(r, final(self).cursor()) == decode(old(self).text(), old(self).cursor(), *shape),
            final(self).text() == old(self).text(),
            final(self).cursor().fits(old(self).text()),
            final(self).cursor().remaining(old(self).text()) <= old(self).cursor().remaining(
                old(self).text(),
            ),
        decreases old(self).text().len(), old(self).cursor().remaining(old(self).text()), shape, 2int,
    {
        let _ = self.source();
        match shape {
            Shape::Any => self.decode_any(),
            Shape::Optional(inner) => self.decode_optional(&**inner),
            Shape::List(elements) => self.decode_list(&**elements),
            Shape::Table(_) => self.decode_map(shape),
            Shape::Struct(_) => self.decode_map(shape),
            Shape::Enum(variants) => self.decode_enum(variants),
            _ => self.decode_scalar(shape),
        }
    }
}

/// Decodes a text as a value of the shape asked for. What follows the value in
/// the text is not looked at.
pub fn from_str(s: &str, shape: &Shape) -> (r: Result<Decoded, VdfError>)
    ensures
        decoded_result(r) == decode(s.spec_bytes(), Cursor::start(), *shape).result,
{
    let mut deserializer = Deserializer::from_str(s);
    deserializer.decode(shape)
}

} // verus!
