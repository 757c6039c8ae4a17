//! Laws that relate the parts of the library to one another.

use crate::cursor::{key_token, lemma_cursor_moves, string_items, value_token, Cursor};
use crate::de::decode;
use crate::entry::convert::{entry_from_text, text_entry};
use crate::entry::table::{entry_unique, keys_unique, load_from, same_entry, same_pairs};
use crate::parse::{
    integer_in, is_digit, is_float, is_word, lower, unsigned_part, word_inf, word_infinity, word_nan,
};
use crate::entry::{
    inserted, is_array_text, key_index, lemma_key_index, lemma_key_index_is, EntryModel,
};
use crate::error::ErrorModel;
use crate::lexer::{
    ends_item, ends_statement, item_end, lemma_item_end_bounds, lemma_item_end_first,
    lemma_lex_bounds, lemma_quoted_end_closes, lemma_skip_trivia_bounds, lemma_skip_trivia_stops,
    lemma_statement_end_bounds, lemma_statement_end_first, lex_at, quoted_end, skip_trivia,
    spanned, SpannedToken, BACKSLASH, BRACE_CLOSE, BRACE_OPEN, HASH, QUOTE, SLASH, SPACE,
};
use crate::parser::Token;
use crate::reader::{has_escape, is_escape_at, is_text_token, Reader};
use crate::shape::{DecodedModel, Shape};
use crate::span::Span;
use crate::steps::is_empty_value;
use crate::text::slice_of;
use crate::tokenizer::token_text;
use crate::tree::entry_as;
use vstd::prelude::*;
use vstd::relations::injective_on;
use vstd::set_lib::{lemma_int_range, lemma_map_size, lemma_subset_equality, set_int_range};

verus! {

/// Whether a text can stand as a bare item: it is not empty, holds no white space
/// and no brace, and starts neither with `#`, nor with a quote, nor with `//`.
pub open spec fn is_bare(text: Seq<u8>) -> bool {
    &&& text.len() > 0
    &&& forall|i: int| 0 <= i < text.len() ==> !ends_item(#[trigger] text[i])
    &&& text[0] != HASH
    &&& text[0] != QUOTE
    &&& !(text.len() > 1 && text[0] == SLASH && text[1] == SLASH)
}

/// A run of bytes that end no item, up to a byte that ends one or to the end of
/// the text, is where a bare item ends.
pub proof fn lemma_item_end_run(src: Seq<u8>, start: int, end: int)
    requires
        0 <= start <= end <= src.len(),
        forall|i: int| start <= i < end ==> !ends_item(#[trigger] src[i]),
        end < src.len() ==> ends_item(src[end]),
    ensures
        item_end(src, start) == end,
    decreases end - start,
{
    if start < end {
        lemma_item_end_run(src, start + 1, end);
    }
}

/// A bare item at `start`, followed by a byte that ends it or by the end of the
/// text, is read as one item token that covers it.
pub proof fn lemma_lex_bare(src: Seq<u8>, start: int, text: Seq<u8>)
    requires
        is_bare(text),
        0 <= start,
        start + text.len() <= src.len() <= usize::MAX,
        src.subrange(start, start + text.len()) == text,
        start + text.len() < src.len() ==> ends_item(src[start + text.len()]),
    ensures
        lex_at(src, start) == Some(
            Ok::<SpannedToken, Span>(spanned(crate::lexer::Token::Item, start, start + text.len())),
        ),
        slice_of(src, Span { start: start as usize, end: (start + text.len()) as usize }) == text,
{
    let end = start + text.len();
    assert forall|i: int| start <= i < end implies !ends_item(#[trigger] src[i]) by {
        assert(src[i] == text[i - start]);
    }
    lemma_item_end_run(src, start + 1, end);
}

/// A text made of a key, a space and a value, both bare and the value not of the
/// shape of an array, loads as the table that holds the value under the key: the
/// text of the leaf is the text that was written. Read back as a text, the leaf
/// gives that text again.
pub proof fn lemma_leaf_round_trip(key: Seq<u8>, value: Seq<u8>)
    requires
        is_bare(key),
        is_bare(value),
        !is_array_text(value),
        key.len() + value.len() < usize::MAX,
    ensures
        load_from(key + seq![SPACE] + value, Reader::start(), Seq::empty(), None).result == Ok::<
            Seq<(Seq<u8>, EntryModel)>,
            ErrorModel,
        >(seq![(key, EntryModel::Value(value))]),
        entry_as(EntryModel::Value(value), Shape::Str) == Ok::<DecodedModel, ErrorModel>(
            DecodedModel::Str(value),
        ),
{
    let src = key + seq![SPACE] + value;
    let k = key.len() as int;
    let n = src.len() as int;
    assert(src.subrange(0, k) =~= key);
    assert(src.subrange(k + 1, n) =~= value);
    lemma_lex_bare(src, 0, key);
    lemma_lex_bare(src, k + 1, value);
    reveal_with_fuel(load_from, 3);
}

/// The text of a value or a statement, read back as a text, is that text.
pub proof fn lemma_leaf_reads_back(text: Seq<u8>)
    ensures
        entry_as(EntryModel::Value(text), Shape::Str) == Ok::<DecodedModel, ErrorModel>(
            DecodedModel::Str(text),
        ),
        entry_as(EntryModel::Statement(text), Shape::Str) == Ok::<
            DecodedModel,
            ErrorModel,
        >(DecodedModel::Str(text)),
{
}

/// An optional value before which an empty value stands is absent, and the empty
/// value is taken. Before any other token it is never absent: it is there exactly
/// if the value decodes, from that token on.
pub proof fn lemma_optional(src: Seq<u8>, c: Cursor, inner: Shape, token: SpannedToken)
    requires
        c.fits(src),
        c.next_found(src) == Some(Ok::<SpannedToken, Span>(token)),
    ensures
        is_empty_value(src, token) ==> decode(src, c, Shape::Optional(Box::new(inner))).result == Ok::<
            DecodedModel,
            ErrorModel,
        >(DecodedModel::Absent) && decode(src, c, Shape::Optional(Box::new(inner))).cursor
            == c.after_next(src),
        !is_empty_value(src, token) ==> (match decode(
            src,
            c.after_next(src).with_peeked(token),
            inner,
        ).result {
            Ok(v) => decode(src, c, Shape::Optional(Box::new(inner))).result == Ok::<
                DecodedModel,
                ErrorModel,
            >(DecodedModel::Present(Box::new(v))),
            Err(e) => decode(src, c, Shape::Optional(Box::new(inner))).result == Err::<
                DecodedModel,
                ErrorModel,
            >(e),
        }),
{
    lemma_cursor_moves(src, c);
}

/// Whether a text can stand between quotes as it is: it holds neither a quote nor
/// a backslash.
pub open spec fn is_plain(text: Seq<u8>) -> bool {
    forall|i: int| 0 <= i < text.len() ==> (#[trigger] text[i]) != QUOTE && text[i] != BACKSLASH
}

/// A text between quotes.
pub open spec fn quoted(text: Seq<u8>) -> Seq<u8> {
    seq![QUOTE] + text + seq![QUOTE]
}

/// A run of bytes that are neither a quote nor a backslash, up to a quote, is
/// where a quoted token closes.
pub proof fn lemma_quoted_end_run(src: Seq<u8>, start: int, end: int)
    requires
        0 <= start <= end < src.len(),
        forall|i: int| start <= i < end ==> (#[trigger] src[i]) != QUOTE && src[i] != BACKSLASH,
        src[end] == QUOTE,
    ensures
        quoted_end(src, start) == (true, end + 1),
    decreases end - start,
{
    if start < end {
        lemma_quoted_end_run(src, start + 1, end);
    }
}

/// A plain text between quotes at `start` is read as one quoted token that
/// covers it with its quotes, and the text of the token is the plain text.
pub proof fn lemma_lex_quoted(src: Seq<u8>, start: int, text: Seq<u8>)
    requires
        is_plain(text),
        0 <= start,
        start + text.len() + 2 <= src.len() <= usize::MAX,
        src.subrange(start, start + text.len() + 2) == quoted(text),
    ensures
        lex_at(src, start) matches Some(Ok(token)) && token.span == (Span {
            start: start as usize,
            end: (start + text.len() + 2) as usize,
        }) && token.quoted && (token.token == Token::Item || token.token == Token::Statement)
            && token_text(src, token) == text,
{
    let end = start + text.len() + 1;
    let whole = quoted(text);
    assert(src[start] == whole[0]);
    assert(src[end] == whole[end - start]);
    assert forall|i: int| start + 1 <= i < end implies (#[trigger] src[i]) != QUOTE && src[i]
        != BACKSLASH by {
        assert(whole[i - start] == text[i - start - 1]);
    }
    lemma_quoted_end_run(src, start + 1, end);
    assert(!has_escape(text)) by {
        if has_escape(text) {
            let i = choose|i: int| is_escape_at(text, i);
            assert(text[i] == BACKSLASH);
        }
    }
}

/// A text made of a key, a space and a value between quotes, the key bare and the
/// value plain and not of the shape of an array, loads as the table that holds
/// the value under the key: the text of the leaf is the text that was written.
pub proof fn lemma_quoted_leaf_round_trip(key: Seq<u8>, value: Seq<u8>)
    requires
        is_bare(key),
        is_plain(value),
        !is_array_text(value),
        key.len() + value.len() + 3 < usize::MAX,
    ensures
        load_from(key + seq![SPACE] + quoted(value), Reader::start(), Seq::empty(), None).result == Ok::<
            Seq<(Seq<u8>, EntryModel)>,
            ErrorModel,
        >(seq![(key, EntryModel::Value(value))]),
{
    let src = key + seq![SPACE] + quoted(value);
    let k = key.len() as int;
    let n = src.len() as int;
    assert(src.subrange(0, k) =~= key);
    assert(src.subrange(k + 1, n) =~= quoted(value));
    lemma_lex_bare(src, 0, key);
    lemma_lex_quoted(src, k + 1, value);
    reveal_with_fuel(load_from, 3);
}

/// The sets of kinds of token that the decoder expects hold what their names say:
/// the kinds that hold a text, and with them the brace that starts a value or ends
/// a group.
pub proof fn lemma_string_items(token: Token)
    ensures
        string_items().contains(token) == is_text_token(token),
        value_token().contains(token) == (is_text_token(token) || token == Token::GroupStart),
        key_token().contains(token) == (is_text_token(token) || token == Token::GroupEnd),
        seq![Token::GroupStart].contains(token) == (token == Token::GroupStart),
        seq![Token::GroupEnd].contains(token) == (token == Token::GroupEnd),
{
    assert(seq![Token::GroupStart][0] == Token::GroupStart);
    assert(seq![Token::GroupEnd][0] == Token::GroupEnd);
}

/// Looking at the next token changes nothing of what is taken next: the same
/// token is found, and the cursor after taking it is the same.
pub proof fn lemma_peek_keeps_next(src: Seq<u8>, c: Cursor)
    requires
        c.fits(src),
    ensures
        c.after_peek(src).next_found(src) == c.next_found(src),
        c.after_peek(src).after_next(src) == c.after_next(src),
        c.after_peek(src).after_peek(src) == c.after_peek(src),
{
    lemma_cursor_moves(src, c);
}

/// After a value was inserted under a key, the key is there. Under a key that is
/// new stands the value itself; under a key that was there stands an array that
/// ends with the value. What stands under any other key stays.
pub proof fn lemma_insert_then_get(
    pairs: Seq<(Seq<u8>, EntryModel)>,
    key: Seq<u8>,
    value: EntryModel,
    other: Seq<u8>,
)
    ensures
        key_index(pairs, key) >= pairs.len() ==> EntryModel::Table(inserted(pairs, key, value)).get(key)
            == Some(value),
        key_index(pairs, key) < pairs.len() ==> (EntryModel::Table(inserted(pairs, key, value)).get(key)
            matches Some(EntryModel::Array(entries)) && entries.len() > 0 && entries.last() == value),
        other != key ==> EntryModel::Table(inserted(pairs, key, value)).get(other) == EntryModel::Table(
            pairs,
        ).get(other),
{
    let after = inserted(pairs, key, value);
    let i = key_index(pairs, key);
    lemma_key_index(pairs, key);
    lemma_key_index_is(after, key, i);
    if other != key {
        let j = key_index(pairs, other);
        lemma_key_index(pairs, other);
        lemma_key_index_is(after, other, if j < pairs.len() {
            j
        } else {
            after.len() as int
        });
    }
}

/// What a token covers, by its kind. A brace is a token of its own, and never
/// counts as quoted. A bare item starts with none of `#`, a quote, a brace and
/// whitespace, and holds neither whitespace nor a brace. A bare statement is `#`
/// and at least one more byte, and holds neither whitespace, nor a brace, nor a
/// quote. A quoted token is an item or a statement, starts and ends with a quote,
/// and is a statement exactly if `#` follows the first quote.
pub proof fn lemma_token_shape(src: Seq<u8>, pos: int, token: SpannedToken)
    requires
        0 <= pos <= src.len() <= usize::MAX,
        lex_at(src, pos) == Some(Ok::<SpannedToken, Span>(token)),
    ensures
        pos <= token.span.start < token.span.end <= src.len(),
        token.token == Token::GroupStart ==> token.span.end == token.span.start + 1
            && src[token.span.start as int] == BRACE_OPEN,
        token.token == Token::GroupEnd ==> token.span.end == token.span.start + 1
            && src[token.span.start as int] == BRACE_CLOSE,
        token.token == Token::Item && !token.quoted ==> src[token.span.start as int] != HASH
            && src[token.span.start as int] != QUOTE && forall|i: int|
            token.span.start <= i < token.span.end ==> !ends_item(#[trigger] src[i]),
        token.token == Token::Statement && !token.quoted ==> src[token.span.start as int] == HASH
            && token.span.start + 2 <= token.span.end && forall|i: int|
            token.span.start < i < token.span.end ==> !ends_statement(#[trigger] src[i]),
        token.quoted ==> (token.token == Token::Item || token.token == Token::Statement)
            && token.span.start + 2 <= token.span.end && src[token.span.start as int] == QUOTE
            && src[token.span.end - 1] == QUOTE && (token.token == Token::Statement
            <==> src[token.span.start + 1] == HASH),
        token.token == Token::GroupStart || token.token == Token::GroupEnd ==> !token.quoted,
{
    lemma_lex_bounds(src, pos);
    lemma_skip_trivia_bounds(src, pos);
    lemma_skip_trivia_stops(src, pos);
    let start = skip_trivia(src, pos);
    lemma_item_end_first(src, start + 1);
    lemma_statement_end_first(src, start + 1);
    lemma_statement_end_bounds(src, start + 1);
    if src[start] == QUOTE {
        lemma_quoted_end_closes(src, start + 1);
    }
    if token.token == Token::Item && !token.quoted {
        lemma_item_end_bounds(src, start + 1);
        assert forall|i: int| token.span.start <= i < token.span.end implies !ends_item(
            #[trigger] src[i],
        ) by {}
    }
}

/// A bare text, and a plain text between quotes, decodes as a text to itself.
pub proof fn lemma_text_decodes_to_itself(text: Seq<u8>)
    requires
        text.len() + 2 < usize::MAX,
    ensures
        is_bare(text) ==> decode(text, Cursor::start(), Shape::Str).result == Ok::<
            DecodedModel,
            ErrorModel,
        >(DecodedModel::Str(text)),
        is_plain(text) ==> decode(quoted(text), Cursor::start(), Shape::Str).result == Ok::<
            DecodedModel,
            ErrorModel,
        >(DecodedModel::Str(text)),
{
    if is_bare(text) {
        assert(text.subrange(0, text.len() as int) =~= text);
        lemma_lex_bare(text, 0, text);
        lemma_string_items(Token::Item);
    }
    if is_plain(text) {
        let src = quoted(text);
        assert(src.subrange(0, src.len() as int) =~= src);
        lemma_lex_quoted(src, 0, text);
        lemma_string_items(Token::Item);
        lemma_string_items(Token::Statement);
    }
}

/// A text that denotes a number starts with a sign, a digit, a dot or a letter:
/// it is not empty, and not the text of a statement.
pub proof fn lemma_number_is_no_statement(text: Seq<u8>, min: int, max: int)
    requires
        integer_in(text, min, max) is Some || is_float(text),
    ensures
        text.len() > 0,
        text[0] != HASH,
{
    if integer_in(text, min, max) is Some {
        let digits = unsigned_part(text);
        assert(is_digit(digits[0]));
    } else {
        let body = unsigned_part(text);
        assert(word_inf()[0] == 0x69 && word_infinity()[0] == 0x69 && word_nan()[0] == 0x6E);
        if is_word(body, word_inf()) || is_word(body, word_infinity()) || is_word(body, word_nan()) {
            assert(lower(body[0]) != HASH);
        }
    }
}

/// A leaf decoded into a tree keeps its text. A bare text, and a plain text
/// between quotes, that is not of the shape of an array decodes as an entry to
/// the value, or for a text that starts with `#` the statement, that holds the
/// text as it was written: a text that denotes a number too.
pub proof fn lemma_entry_keeps_text(text: Seq<u8>)
    requires
        text.len() + 2 < usize::MAX,
        !is_array_text(text),
    ensures
        is_bare(text) ==> entry_from_text(text) == Ok::<EntryModel, ErrorModel>(text_entry(text)),
        is_plain(text) ==> entry_from_text(quoted(text)) == Ok::<EntryModel, ErrorModel>(
            text_entry(text),
        ),
        entry_as(text_entry(text), Shape::Str) == Ok::<DecodedModel, ErrorModel>(
            DecodedModel::Str(text),
        ),
{
    if integer_in(text, i64::MIN as int, i64::MAX as int) is Some || is_float(text) {
        lemma_number_is_no_statement(text, i64::MIN as int, i64::MAX as int);
    }
    if is_bare(text) {
        assert(text.subrange(0, text.len() as int) =~= text);
        lemma_lex_bare(text, 0, text);
        lemma_string_items(Token::Item);
    }
    if is_plain(text) {
        let src = quoted(text);
        assert(src.subrange(0, src.len() as int) =~= src);
        lemma_lex_quoted(src, 0, text);
        lemma_string_items(Token::Item);
        lemma_string_items(Token::Statement);
    }
}

/// Where two lists of pairs of one length have no key twice, and every key of the
/// first is a key of the second, every key of the second is one of the first.
pub proof fn lemma_keys_onto(p: Seq<(Seq<u8>, EntryModel)>, q: Seq<(Seq<u8>, EntryModel)>)
    requires
        keys_unique(p),
        keys_unique(q),
        p.len() == q.len(),
        forall|i: int| 0 <= i < p.len() ==> key_index(q, (#[trigger] p[i]).0) < q.len(),
    ensures
        forall|j: int| 0 <= j < q.len() ==> key_index(p, (#[trigger] q[j]).0) < p.len(),
{
    let n = p.len() as int;
    let from = set_int_range(0, n);
    let to = |i: int| key_index(q, p[i].0);
    let image = from.map(to);
    lemma_int_range(0, n);
    assert forall|i: int| 0 <= i < n implies 0 <= #[trigger] to(i) < n && q[to(i)].0 == p[i].0 by {
        lemma_key_index(q, p[i].0);
    }
    assert(injective_on(to, from)) by {
        assert forall|a: int, b: int|
            from.contains(a) && from.contains(b) && #[trigger] to(a) == #[trigger] to(b) implies a
            == b by {
            assert(p[a].0 == q[to(a)].0);
            assert(p[b].0 == q[to(b)].0);
        }
    }
    lemma_map_size(from, image, to);
    assert(image.subset_of(from)) by {
        assert forall|j: int| image.contains(j) implies from.contains(j) by {
            let i = choose|i: int| from.contains(i) && j == to(i);
            assert(0 <= to(i) < n);
        }
    }
    lemma_subset_equality(image, from);
    assert forall|j: int| 0 <= j < q.len() implies key_index(p, (#[trigger] q[j]).0) < p.len() by {
        assert(from.contains(j));
        assert(image.contains(j));
        let i = choose|i: int| from.contains(i) && j == to(i);
        assert(p[i].0 == q[j].0);
        lemma_key_index(p, q[j].0);
    }
}

/// An entry in which no table has a key twice holds the same as itself.
pub proof fn lemma_same_entry_reflexive(a: EntryModel)
    requires
        entry_unique(a),
    ensures
        same_entry(a, a),
    decreases a,
{
    match a {
        EntryModel::Table(p) => {
            assert forall|i: int| 0 <= i < p.len() implies key_index(p, (#[trigger] p[i]).0) < p.len()
                && same_entry(p[i].1, p[key_index(p, p[i].0)].1) by {
                lemma_key_index_is(p, p[i].0, i);
                assert(entry_unique(p[i].1));
                lemma_same_entry_reflexive(p[i].1);
            }
            assert(same_pairs(p, p));
        },
        EntryModel::Array(x) => {
            assert forall|i: int| 0 <= i < x.len() implies same_entry(#[trigger] x[i], x[i]) by {
                assert(entry_unique(x[i]));
                lemma_same_entry_reflexive(x[i]);
            }
        },
        _ => {},
    }
}

/// To hold the same does not depend on which of two entries comes first, where
/// no table in them has a key twice: tables are compared as mappings.
pub proof fn lemma_same_entry_symmetric(a: EntryModel, b: EntryModel)
    requires
        entry_unique(a),
        entry_unique(b),
        same_entry(a, b),
    ensures
        same_entry(b, a),
    decreases a,
{
    match a {
        EntryModel::Table(p) => {
            let q = b->Table_0;
            assert(same_pairs(p, q));
            lemma_keys_onto(p, q);
            assert forall|j: int| 0 <= j < q.len() implies key_index(p, (#[trigger] q[j]).0) < p.len()
                && same_entry(q[j].1, p[key_index(p, q[j].0)].1) by {
                let i = key_index(p, q[j].0);
                lemma_key_index(p, q[j].0);
                lemma_key_index_is(q, p[i].0, j);
                assert(same_entry(p[i].1, q[key_index(q, p[i].0)].1));
                assert(entry_unique(p[i].1));
                assert(entry_unique(q[j].1));
                lemma_same_entry_symmetric(p[i].1, q[j].1);
            }
            assert(same_pairs(q, p));
        },
        EntryModel::Array(x) => {
            let y = b->Array_0;
            assert forall|i: int| 0 <= i < y.len() implies same_entry(#[trigger] y[i], x[i]) by {
                assert(same_entry(x[i], y[i]));
                assert(entry_unique(x[i]));
                assert(entry_unique(y[i]));
                lemma_same_entry_symmetric(x[i], y[i]);
            }
        },
        _ => {},
    }
}

/// Two tables that hold the same hold the same entry under every key: what is
/// found under a key in the first is found under it in the second.
pub proof fn lemma_same_pairs_get(
    p: Seq<(Seq<u8>, EntryModel)>,
    q: Seq<(Seq<u8>, EntryModel)>,
    key: Seq<u8>,
)
    requires
        same_pairs(p, q),
    ensures
        EntryModel::Table(p).get(key) matches Some(found) ==> (EntryModel::Table(q).get(key) matches Some(
            other,
        ) && same_entry(found, other)),
{
    lemma_key_index(p, key);
    let i = key_index(p, key);
    if i < p.len() {
        assert(p[i].0 == key);
    }
}

} // verus!
