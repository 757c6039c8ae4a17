//! The two forms of a group that is a whole text: with braces around it and
//! without.

use crate::cursor::{lemma_cursor_moves, Cursor};
use crate::de::{decode, decode_any, decode_map, decode_scalar, keeps, value_shape, walk_map};
use crate::error::ErrorModel;
use crate::laws::lemma_string_items;
use crate::lexer::{
    ends_item, is_whitespace, item_end, lemma_item_end_bounds, lemma_lex_bounds,
    lemma_quoted_end_bounds, lemma_skip_trivia_bounds, lex_at, lex_end, quoted_end, skip_trivia,
    starts_comment, SpannedToken, BACKSLASH, BRACE_CLOSE, BRACE_OPEN, QUOTE,
};
use crate::parser::Token;
use crate::shape::{field_index, DecodedModel, Field, Shape};
use crate::span::Span;
use crate::steps::{is_inline_list, key_step, map_start};
use crate::text::slice_of;
use crate::tokenizer::token_text;
use vstd::prelude::*;

verus! {

/// A text between braces.
pub open spec fn braced(body: Seq<u8>) -> Seq<u8> {
    seq![BRACE_OPEN] + body + seq![BRACE_CLOSE]
}

/// The first position at or after `pos` that holds no whitespace, or the end.
pub open spec fn whitespace_end(src: Seq<u8>, pos: int) -> int
    decreases src.len() - pos,
{
    if pos < 0 || pos >= src.len() || !is_whitespace(src[pos]) {
        pos
    } else {
        whitespace_end(src, pos + 1)
    }
}

/// Whether a text holds, from `pos` on, nothing but items and the whitespace
/// between them: no brace, no statement, no comment, no sequence written in one
/// token, and nothing that is no token.
pub open spec fn only_items(body: Seq<u8>, pos: int) -> bool
    decreases body.len() - pos,
{
    0 <= pos <= body.len() && !starts_comment(body, whitespace_end(body, pos)) && (match lex_at(
        body,
        pos,
    ) {
        None => true,
        Some(Err(_)) => false,
        Some(Ok(token)) => token.token == Token::Item && !is_inline_list(body, token) && if pos
            < token.span.end <= body.len() {
            only_items(body, token.span.end as int)
        } else {
            false
        },
    })
}

/// A token moved one byte on.
pub open spec fn moved(token: SpannedToken) -> SpannedToken {
    SpannedToken {
        token: token.token,
        quoted: token.quoted,
        span: Span { start: (token.span.start + 1) as usize, end: (token.span.end + 1) as usize },
    }
}

/// Whitespace ends within the text, at a byte that is none; where no comment
/// starts there, nothing else is skipped.
proof fn lemma_whitespace_end(src: Seq<u8>, pos: int)
    requires
        0 <= pos <= src.len(),
    ensures
        pos <= whitespace_end(src, pos) <= src.len(),
        whitespace_end(src, pos) < src.len() ==> !is_whitespace(src[whitespace_end(src, pos)]),
        !starts_comment(src, whitespace_end(src, pos)) ==> skip_trivia(src, pos) == whitespace_end(
            src,
            pos,
        ),
        whitespace_end(src, whitespace_end(src, pos)) == whitespace_end(src, pos),
    decreases src.len() - pos,
{
    if pos < src.len() && is_whitespace(src[pos]) {
        lemma_whitespace_end(src, pos + 1);
    }
}

/// Whitespace ends one byte on in the text between braces.
proof fn lemma_whitespace_moved(body: Seq<u8>, pos: int)
    requires
        0 <= pos <= body.len(),
    ensures
        whitespace_end(braced(body), pos + 1) == whitespace_end(body, pos) + 1,
    decreases body.len() - pos,
{
    if pos < body.len() && is_whitespace(body[pos]) {
        lemma_whitespace_moved(body, pos + 1);
    }
}

/// A bare item ends one byte on in the text between braces.
proof fn lemma_item_end_moved(body: Seq<u8>, pos: int)
    requires
        0 <= pos <= body.len(),
    ensures
        item_end(braced(body), pos + 1) == item_end(body, pos) + 1,
    decreases body.len() - pos,
{
    if pos < body.len() && !ends_item(body[pos]) {
        lemma_item_end_moved(body, pos + 1);
    }
}

/// A quoted token closes one byte on in the text between braces.
proof fn lemma_quoted_end_moved(body: Seq<u8>, pos: int)
    requires
        0 <= pos <= body.len(),
        quoted_end(body, pos).0,
    ensures
        quoted_end(braced(body), pos + 1) == (true, quoted_end(body, pos).1 + 1),
    decreases body.len() - pos,
{
    if pos < body.len() && body[pos] != QUOTE {
        if body[pos] == BACKSLASH {
            lemma_quoted_end_moved(body, pos + 2);
        } else {
            lemma_quoted_end_moved(body, pos + 1);
        }
    }
}

/// What is read from a text of items is read from the text between braces one
/// byte on, with the same text; where the text of items ends, the closing brace
/// is read.
pub proof fn lemma_lex_moved(body: Seq<u8>, pos: int)
    requires
        only_items(body, pos),
        body.len() + 2 <= usize::MAX,
    ensures
        lex_at(body, pos) is None ==> lex_at(braced(body), pos + 1) == Some(
            Ok::<SpannedToken, Span>(
                SpannedToken {
                    token: Token::GroupEnd,
                    quoted: false,
                    span: Span { start: (body.len() + 1) as usize, end: (body.len() + 2) as usize },
                },
            ),
        ) && lex_end(body, pos) == body.len(),
        lex_at(body, pos) matches Some(Ok(token)) ==> lex_at(braced(body), pos + 1) == Some(
            Ok::<SpannedToken, Span>(moved(token)),
        ) && token_text(braced(body), moved(token)) == token_text(body, token) && is_inline_list(
            braced(body),
            moved(token),
        ) == is_inline_list(body, token) && pos < token.span.end <= body.len(),
        lex_at(braced(body), body.len() as int + 2) is None,
        lex_at(braced(body), 0) == Some(
            Ok::<SpannedToken, Span>(
                SpannedToken { token: Token::GroupStart, quoted: false, span: Span { start: 0, end: 1 } },
            ),
        ),
{
    let whole = braced(body);
    lemma_whitespace_end(body, pos);
    lemma_whitespace_end(whole, pos + 1);
    lemma_whitespace_moved(body, pos);
    lemma_lex_bounds(body, pos);
    let start = whitespace_end(body, pos);
    if start < body.len() {
        let token = lex_at(body, pos)->Some_0->Ok_0;
        lemma_item_end_moved(body, start + 1);
        lemma_item_end_bounds(body, start + 1);
        if body[start] == QUOTE {
            lemma_quoted_end_bounds(body, start + 1);
            lemma_quoted_end_moved(body, start + 1);
        }
        assert(slice_of(whole, moved(token).span) =~= slice_of(body, token.span));
    }
}

/// Whether a cursor stands before what is read from `pos`: what it takes next is
/// what the lexer finds from `pos` on, and it goes on after that.
pub open spec fn stands_at(src: Seq<u8>, c: Cursor, pos: int) -> bool {
    c.fits(src) && 0 <= pos <= src.len() && (match c.peeked {
        None => lex_at(src, c.lex.pos) == lex_at(src, pos) && lex_end(src, c.lex.pos) == lex_end(
            src,
            pos,
        ),
        Some(found) => Some(found) == lex_at(src, pos) && c.lex.pos == lex_end(src, pos),
    })
}

/// Whether a shape is that of a single token read as a text.
pub open spec fn is_scalar(shape: Shape) -> bool {
    !(shape is Any || shape is Optional || shape is List || shape is Table || shape is Struct
        || shape is Enum)
}

/// Whether a shape is a struct whose fields are all scalars.
pub open spec fn is_flat_struct(shape: Shape) -> bool {
    shape matches Shape::Struct(fields) && forall|i: int|
        0 <= i < fields@.len() ==> is_scalar(#[trigger] fields@[i].shape)
}

/// The value of a result, where it has one.
pub open spec fn value_of(r: Result<DecodedModel, ErrorModel>) -> Option<DecodedModel> {
    match r {
        Ok(v) => Some(v),
        Err(_) => None,
    }
}

/// A cursor that stands before what is read from `pos` takes that next, and
/// stands behind it afterwards; looking ahead leaves it where it stands.
proof fn lemma_stands(src: Seq<u8>, c: Cursor, pos: int)
    requires
        stands_at(src, c, pos),
        src.len() <= usize::MAX,
    ensures
        c.next_found(src) == lex_at(src, pos),
        stands_at(src, c.after_next(src), lex_end(src, pos)),
        stands_at(src, c.after_peek(src), pos),
        c.after_next(src).peeked is None,
        c.after_next(src).lex.pos == lex_end(src, pos),
        forall|key: Seq<u8>| stands_at(src, c, pos) ==> #[trigger] stands_at(src, c.with_last_key(key), pos),
{
    lemma_lex_bounds(src, pos);
    lemma_lex_bounds(src, c.lex.pos);
    lemma_lex_bounds(src, lex_end(src, pos));
    lemma_skip_trivia_bounds(src, pos);
    lemma_skip_trivia_bounds(src, c.lex.pos);
    lemma_cursor_moves(src, c);
}

/// A scalar, or a value of any shape, decodes alike from a text of items and from
/// the text between braces; after it both cursors stand behind the token.
proof fn lemma_value_same(body: Seq<u8>, c1: Cursor, c2: Cursor, pos: int, shape: Shape)
    requires
        body.len() + 2 <= usize::MAX,
        only_items(body, pos),
        stands_at(body, c1, pos),
        stands_at(braced(body), c2, pos + 1),
        is_scalar(shape) || shape is Any,
    ensures
        value_of(decode(body, c1, shape).result) == value_of(decode(braced(body), c2, shape).result),
        decode(body, c1, shape).cursor == c1.after_next(body),
        decode(braced(body), c2, shape).cursor == c2.after_next(braced(body)),
        decode(body, c1, shape).result is Ok ==> lex_at(body, pos) is Some,
{
    let whole = braced(body);
    lemma_lex_moved(body, pos);
    lemma_stands(body, c1, pos);
    lemma_stands(whole, c2, pos + 1);
    lemma_string_items(Token::Item);
    lemma_string_items(Token::GroupEnd);
}

/// A key is read alike from a text of items, at the top level, and from the text
/// between braces, inside the group: the same key, or the end of the group.
proof fn lemma_key_same(body: Seq<u8>, c1: Cursor, c2: Cursor, pos: int)
    requires
        body.len() + 2 <= usize::MAX,
        only_items(body, pos),
        stands_at(body, c1, pos),
        stands_at(braced(body), c2, pos + 1),
    ensures
        key_step(body, c1, true, false).cursor == c1.after_next(body),
        key_step(braced(body), c2, false, false).cursor == c2.after_next(braced(body)),
        lex_at(body, pos) is None ==> key_step(body, c1, true, false).key == Ok::<
            Option<SpannedToken>,
            ErrorModel,
        >(None) && key_step(braced(body), c2, false, false).key == Ok::<
            Option<SpannedToken>,
            ErrorModel,
        >(None),
        lex_at(body, pos) matches Some(Ok(key)) ==> key_step(body, c1, true, false).key == Ok::<
            Option<SpannedToken>,
            ErrorModel,
        >(Some(key)) && key_step(braced(body), c2, false, false).key == Ok::<
            Option<SpannedToken>,
            ErrorModel,
        >(Some(moved(key))) && token_text(braced(body), moved(key)) == token_text(body, key),
{
    lemma_lex_moved(body, pos);
    lemma_stands(body, c1, pos);
    lemma_stands(braced(body), c2, pos + 1);
    lemma_string_items(Token::Item);
    lemma_string_items(Token::GroupEnd);
}

/// After a key and its value were taken, less is left to read, and the cursor
/// stands behind the value.
proof fn lemma_entry_taken(src: Seq<u8>, c: Cursor, pos: int, name: Seq<u8>)
    requires
        src.len() <= usize::MAX,
        stands_at(src, c, pos),
        lex_at(src, pos) is Some,
    ensures
        ({
            let at_value = c.after_next(src).with_last_key(name);
            let peeked = at_value.after_peek(src);
            &&& stands_at(src, peeked, lex_end(src, pos))
            &&& at_value.fits(src)
            &&& peeked.after_next(src).fits(src)
            &&& peeked.after_next(src).remaining(src) < c.remaining(src)
            &&& stands_at(src, peeked.after_next(src), lex_end(src, lex_end(src, pos)))
        }),
{
    let at_value = c.after_next(src).with_last_key(name);
    let peeked = at_value.after_peek(src);
    lemma_stands(src, c, pos);
    lemma_cursor_moves(src, c);
    lemma_stands(src, at_value, lex_end(src, pos));
    lemma_cursor_moves(src, at_value);
    lemma_stands(src, peeked, lex_end(src, pos));
    lemma_cursor_moves(src, peeked);
}

/// The position that `field_index` gives lies within the fields, or just behind.
proof fn lemma_field_index_bounds(fields: Seq<Field>, name: Seq<u8>)
    ensures
        0 <= field_index(fields, name) <= fields.len(),
    decreases fields.len(),
{
    if fields.len() > 0 && fields[0].name@ != name {
        lemma_field_index_bounds(fields.skip(1), name);
    }
}

/// The entries of a struct of scalars decode alike from a text of items, up to
/// its end, and from the text between braces, up to the closing brace.
proof fn lemma_walk_same(
    body: Seq<u8>,
    c1: Cursor,
    c2: Cursor,
    pos: int,
    shape: Shape,
    pairs: Seq<(Seq<u8>, DecodedModel)>,
)
    requires
        body.len() + 2 <= usize::MAX,
        is_flat_struct(shape),
        only_items(body, pos),
        stands_at(body, c1, pos),
        stands_at(braced(body), c2, pos + 1),
    ensures
        value_of(walk_map(body, c1, shape, true, pairs).result) == value_of(
            walk_map(braced(body), c2, shape, false, pairs).result,
        ),
    decreases body.len() - pos,
{
    let whole = braced(body);
    lemma_key_same(body, c1, c2, pos);
    match lex_at(body, pos) {
        Some(Ok(key)) => {
            let name = token_text(body, key);
            let at = lex_end(body, pos);
            assert(at == key.span.end && lex_end(whole, pos + 1) == at + 1 && only_items(body, at)) by {
                lemma_lex_moved(body, pos);
            }
            lemma_entry_taken(body, c1, pos, name);
            assert(lex_at(whole, pos + 1) is Some) by {
                lemma_lex_moved(body, pos);
            }
            lemma_entry_taken(whole, c2, pos + 1, name);
            let p1 = c1.after_next(body).with_last_key(name).after_peek(body);
            let p2 = c2.after_next(whole).with_last_key(name).after_peek(whole);
            let wanted = value_shape(shape, name);
            assert(is_scalar(wanted) || wanted is Any) by {
                let fields = shape->Struct_0;
                lemma_field_index_bounds(fields@, name);
            }
            lemma_value_same(body, p1, p2, at, wanted);
            let v1 = decode(body, p1, wanted);
            let v2 = decode(whole, p2, wanted);
            if v1.result is Ok {
                let next = lex_end(body, at);
                assert(only_items(body, next) && lex_end(whole, at + 1) == next + 1 && at < next) by {
                    lemma_lex_moved(body, at);
                }
                let grown = if keeps(shape, name) {
                    pairs.push((name, v1.result->Ok_0))
                } else {
                    pairs
                };
                lemma_walk_same(body, v1.cursor, v2.cursor, next, shape, grown);
            }
        },
        _ => {},
    }
}

/// A struct whose fields are all scalars decodes alike from a text of items and
/// from the same text between braces: to the same value, or to none. The text
/// holds at least one item, and nothing but items and the whitespace between
/// them.
pub proof fn lemma_braces_make_no_difference(body: Seq<u8>, shape: Shape)
    requires
        body.len() + 2 <= usize::MAX,
        is_flat_struct(shape),
        only_items(body, 0),
        lex_at(body, 0) is Some,
    ensures
        value_of(decode(body, Cursor::start(), shape).result) == value_of(
            decode(braced(body), Cursor::start(), shape).result,
        ),
{
    let whole = braced(body);
    let start = Cursor::start();
    lemma_lex_moved(body, 0);
    lemma_lex_bounds(body, 0);
    lemma_lex_bounds(whole, 0);
    lemma_cursor_moves(body, start);
    lemma_cursor_moves(whole, start);
    lemma_string_items(Token::Item);
    lemma_string_items(Token::GroupStart);
    let c1 = start.after_peek(body);
    let c2 = start.after_peek(whole).after_next(whole);
    lemma_walk_same(body, c1, c2, 0, shape, Seq::empty());
}

} // verus!
