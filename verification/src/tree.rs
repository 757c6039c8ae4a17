//! Decoding an entry that was built before into the shape asked for.

use crate::de::{keeps, value_shape};
use crate::scalar::{infer, inferred, name_of, scalar, scalar_name, scalar_value};
use crate::entry::{is_array_text, string_is_array, Entry, EntryModel};
use crate::error::{
    ErrorModel, ParseStringError, SerdeParseError, UnknownVariantError, VdfError,
};
use crate::shape::{
    find_field, find_variant, list_model, names_of, pairs_model, variant_index, variant_names,
    Decoded, DecodedModel, Shape, Variant,
};
use crate::span::{SourceSpan, Span};
use crate::text;
use vstd::prelude::*;

verus! {

/// The error for a text that is not of the shape asked for, raised where no
/// source text is at hand.
pub open spec fn misfit(ty: Seq<char>, value: Seq<u8>) -> ErrorModel {
    ErrorModel::SerdeParse { ty, value, span: SourceSpan { offset: 0, length: 0 }, src: Seq::empty() }
}

/// Decoding the text of a value. A scalar is read from the text; a number or
/// truth value that the text does not denote gives a `ParseString` error. An
/// empty text is an absent optional value. A text is no sequence, group or enum.
pub open spec fn value_as(text: Seq<u8>, shape: Shape) -> Result<DecodedModel, ErrorModel>
    decreases shape,
{
    match shape {
        Shape::Any => if inferred(text) is Str && is_array_text(text) {
            Err(misfit("seq"@, text))
        } else {
            Ok(inferred(text))
        },
        Shape::Optional(inner) => if text.len() == 0 {
            Ok(DecodedModel::Absent)
        } else {
            match value_as(text, *inner) {
                Ok(v) => Ok(DecodedModel::Present(Box::new(v))),
                Err(e) => Err(e),
            }
        },
        Shape::List(_) => Err(misfit("seq"@, text)),
        Shape::Table(_) => Err(misfit("map"@, text)),
        Shape::Struct(_) => Err(misfit("struct"@, text)),
        Shape::Enum(_) => Err(misfit("map"@, text)),
        Shape::Char | Shape::Unit => match scalar_value(shape, text) {
            Some(v) => Ok(v),
            None => Err(misfit(scalar_name(shape), text)),
        },
        _ => match scalar_value(shape, text) {
            Some(v) => Ok(v),
            None => Err(ErrorModel::ParseString { ty: scalar_name(shape), value: text }),
        },
    }
}

/// What is said of an entry that is no text where a scalar or an optional value
/// was asked for.
pub open spec fn wanted(shape: Shape) -> Seq<char> {
    match shape {
        Shape::Optional(_) => "option"@,
        _ => scalar_name(shape),
    }
}

/// Decoding the first `n` entries of an array, each in the shape `shape`.
pub open spec fn items_as(items: Seq<EntryModel>, shape: Shape, n: nat) -> Result<
    Seq<DecodedModel>,
    ErrorModel,
>
    decreases items, shape, n,
{
    if n == 0 || n > items.len() {
        Ok(Seq::empty())
    } else {
        match items_as(items, shape, (n - 1) as nat) {
            Err(e) => Err(e),
            Ok(list) => match entry_as(items[n - 1], shape) {
                Err(e) => Err(e),
                Ok(v) => Ok(list.push(v)),
            },
        }
    }
}

/// Decoding the first `n` pairs of a table, each value in the shape that `shape`
/// gives to its key. A value whose key the shape does not keep is decoded and
/// dropped.
pub open spec fn pairs_as(pairs: Seq<(Seq<u8>, EntryModel)>, shape: Shape, n: nat) -> Result<
    Seq<(Seq<u8>, DecodedModel)>,
    ErrorModel,
>
    decreases pairs, shape, n,
{
    if n == 0 || n > pairs.len() {
        Ok(Seq::empty())
    } else {
        match pairs_as(pairs, shape, (n - 1) as nat) {
            Err(e) => Err(e),
            Ok(list) => match entry_as(pairs[n - 1].1, value_shape(shape, pairs[n - 1].0)) {
                Err(e) => Err(e),
                Ok(v) => if keeps(shape, pairs[n - 1].0) {
                    Ok(list.push((pairs[n - 1].0, v)))
                } else {
                    Ok(list)
                },
            },
        }
    }
}

/// Decoding an entry in the shape asked for. A value or a statement is decoded by
/// its text. An array gives a sequence and a table a group. An enum is a table
/// of one key, the tag, whose entry is the payload; a variant without a payload
/// is refused.
pub open spec fn entry_as(entry: EntryModel, shape: Shape) -> Result<DecodedModel, ErrorModel>
    decreases entry, shape, 0nat,
{
    match shape {
        Shape::Any => match entry {
            EntryModel::Table(pairs) => match pairs_as(pairs, shape, pairs.len()) {
                Ok(list) => Ok(DecodedModel::Table(list)),
                Err(e) => Err(e),
            },
            EntryModel::Array(items) => match items_as(items, shape, items.len()) {
                Ok(list) => Ok(DecodedModel::List(list)),
                Err(e) => Err(e),
            },
            EntryModel::Value(text) => value_as(text, shape),
            EntryModel::Statement(text) => Ok(DecodedModel::Str(text)),
        },
        Shape::List(elements) => match entry {
            EntryModel::Array(items) => match items_as(items, *elements, items.len()) {
                Ok(list) => Ok(DecodedModel::List(list)),
                Err(e) => Err(e),
            },
            _ => Err(ErrorModel::Other("array2"@)),
        },
        Shape::Table(_) | Shape::Struct(_) => match entry {
            EntryModel::Table(pairs) => match pairs_as(pairs, shape, pairs.len()) {
                Ok(list) => Ok(DecodedModel::Table(list)),
                Err(e) => Err(e),
            },
            _ => Err(ErrorModel::Other("map"@)),
        },
        Shape::Enum(variants) => match entry {
            EntryModel::Table(pairs) => if pairs.len() != 1 {
                Err(ErrorModel::Other("enum"@))
            } else {
                let tag = pairs[0].0;
                let i = variant_index(variants@, tag);
                if i >= variants@.len() {
                    Err(
                        ErrorModel::UnknownVariant {
                            variant: tag,
                            expected: variant_names(variants@),
                            span: SourceSpan { offset: 0, length: 0 },
                            src: Seq::empty(),
                        },
                    )
                } else {
                    match variants@[i].payload {
                        None => Err(ErrorModel::Other("unit"@)),
                        Some(payload) => match entry_as(pairs[0].1, payload) {
                            Ok(v) => Ok(DecodedModel::Variant(tag, Some(Box::new(v)))),
                            Err(e) => Err(e),
                        },
                    }
                }
            },
            _ => Err(ErrorModel::Other("enum"@)),
        },
        _ => match entry.text() {
            Some(text) => value_as(text, shape),
            None => Err(ErrorModel::Other(wanted(shape))),
        },
    }
}

/// The view of a decoded value, or of the error in its place.
pub open spec fn as_result(r: Result<Decoded, VdfError>) -> Result<DecodedModel, ErrorModel> {
    match r {
        Ok(v) => Ok(v@),
        Err(e) => Err(e@),
    }
}

fn misfit_error(ty: &'static str, value: &[u8]) -> (r: VdfError)
    ensures
        r@ == misfit(ty@, value@),
{
    let nowhere: Vec<u8> = Vec::new();
    VdfError::SerdeParse(SerdeParseError::new(ty, value, Span::new(0, 0), nowhere.as_slice()))
}

/// Decodes the text of a value in the shape asked for.
pub fn from_value(text: &[u8], shape: &Shape) -> (r: Result<Decoded, VdfError>)
    ensures
        as_result(r) == value_as(text@, *shape),
    decreases shape,
{
    match shape {
        Shape::Any => {
            let value = infer(text);
            let is_text = match &value {
                Decoded::Str(_) => true,
                _ => false,
            };
            if is_text && string_is_array(text) {
                Err(misfit_error("seq", text))
            } else {
                Ok(value)
            }
        },
        Shape::Optional(inner) => {
            if text.len() == 0 {
                return Ok(Decoded::Absent);
            }
            match from_value(text, &**inner) {
                Ok(v) => Ok(Decoded::Present(Box::new(v))),
                Err(e) => Err(e),
            }
        },
        Shape::List(_) => Err(misfit_error("seq", text)),
        Shape::Table(_) => Err(misfit_error("map", text)),
        Shape::Struct(_) => Err(misfit_error("struct", text)),
        Shape::Enum(_) => Err(misfit_error("map", text)),
        Shape::Char | Shape::Unit => match scalar(shape, text) {
            Some(v) => Ok(v),
            None => Err(misfit_error(name_of(shape), text)),
        },
        _ => match scalar(shape, text) {
            Some(v) => Ok(v),
            None => Err(VdfError::ParseString(ParseStringError::new(name_of(shape), text))),
        },
    }
}

/// An error among the first `n` items is an error among all of them.
pub proof fn lemma_items_as_error(items: Seq<EntryModel>, shape: Shape, n: nat)
    requires
        n <= items.len(),
        items_as(items, shape, n) is Err,
    ensures
        items_as(items, shape, items.len()) == items_as(items, shape, n),
    decreases items.len() - n,
{
    if n < items.len() {
        lemma_items_as_error(items, shape, n + 1);
    }
}

/// An error among the first `n` pairs is an error among all of them.
pub proof fn lemma_pairs_as_error(pairs: Seq<(Seq<u8>, EntryModel)>, shape: Shape, n: nat)
    requires
        n <= pairs.len(),
        pairs_as(pairs, shape, n) is Err,
    ensures
        pairs_as(pairs, shape, pairs.len()) == pairs_as(pairs, shape, n),
    decreases pairs.len() - n,
{
    if n < pairs.len() {
        lemma_pairs_as_error(pairs, shape, n + 1);
    }
}

#[verifier::loop_isolation(false)]
fn items_from(items: &Vec<Entry>, shape: &Shape) -> (r: Result<Decoded, VdfError>)
    ensures
        as_result(r) == (match items_as(crate::entry::array_model(items@), *shape, items@.len()) {
            Ok(list) => Ok(DecodedModel::List(list)),
            Err(e) => Err(e),
        }),
    decreases items, shape, 1nat,
{
    let ghost model = crate::entry::array_model(items@);
    let mut list: Vec<Decoded> = Vec::new();
    let mut i: usize = 0;
    assert(list_model(list@) =~= Seq::<DecodedModel>::empty());
    while i < items.len()
        invariant
            i <= items@.len(),
            items_as(model, *shape, i as nat) == Ok::<Seq<DecodedModel>, ErrorModel>(list_model(list@)),
        decreases items@.len() - i,
    {
        let ghost before = list_model(list@);
        match from_entry(&items[i], shape) {
            Err(e) => {
                proof {
                    lemma_items_as_error(model, *shape, i as nat + 1);
                }
                return Err(e);
            },
            Ok(v) => {
                list.push(v);
                assert(list_model(list@) =~= before.push(v@));
            },
        }
        i = i + 1;
    }
    Ok(Decoded::List(list))
}

#[verifier::loop_isolation(false)]
fn pairs_from(pairs: &Vec<(Vec<u8>, Entry)>, shape: &Shape) -> (r: Result<Decoded, VdfError>)
    ensures
        as_result(r) == (match pairs_as(crate::entry::table_model(pairs@), *shape, pairs@.len()) {
            Ok(list) => Ok(DecodedModel::Table(list)),
            Err(e) => Err(e),
        }),
    decreases pairs, shape, 1nat,
{
    let ghost model = crate::entry::table_model(pairs@);
    let any = Shape::Any;
    let mut list: Vec<(Vec<u8>, Decoded)> = Vec::new();
    let mut i: usize = 0;
    assert(pairs_model(list@) =~= Seq::<(Seq<u8>, DecodedModel)>::empty());
    while i < pairs.len()
        invariant
            i <= pairs@.len(),
            pairs_as(model, *shape, i as nat) == Ok::<Seq<(Seq<u8>, DecodedModel)>, ErrorModel>(
                pairs_model(list@),
            ),
        decreases pairs@.len() - i,
    {
        let ghost before = pairs_model(list@);
        let name = &pairs[i].0;
        let (value_shape, keep) = match shape {
            Shape::Struct(fields) => {
                let at = find_field(fields, name.as_slice());
                if at < fields.len() {
                    (&fields[at].shape, true)
                } else {
                    (&any, false)
                }
            },
            Shape::Table(values) => (&**values, true),
            _ => (&any, true),
        };
        match from_entry(&pairs[i].1, value_shape) {
            Err(e) => {
                proof {
                    lemma_pairs_as_error(model, *shape, i as nat + 1);
                }
                return Err(e);
            },
            Ok(v) => {
                if keep {
                    list.push((name.clone(), v));
                    assert(pairs_model(list@) =~= before.push((name@, v@)));
                }
            },
        }
        i = i + 1;
    }
    Ok(Decoded::Table(list))
}

/// Decodes an entry in the shape asked for.
pub fn from_entry(entry: &Entry, shape: &Shape) -> (r: Result<Decoded, VdfError>)
    ensures
        as_result(r) == entry_as(entry@, *shape),
    decreases entry, shape, 2nat,
{
    match shape {
        Shape::Any => match entry {
            Entry::Table(table) => pairs_from(table.pairs(), shape),
            Entry::Array(array) => items_from(&array.0, shape),
            Entry::Value(value) => from_value(value.0.as_slice(), shape),
            Entry::Statement(statement) => Ok(Decoded::Str(statement.0.clone())),
        },
        Shape::List(elements) => match entry {
            Entry::Array(array) => items_from(&array.0, &**elements),
            _ => Err(VdfError::Other("array2".to_owned())),
        },
        Shape::Table(_) | Shape::Struct(_) => match entry {
            Entry::Table(table) => pairs_from(table.pairs(), shape),
            _ => Err(VdfError::Other("map".to_owned())),
        },
        Shape::Enum(variants) => match entry {
            Entry::Table(table) => {
                let pairs = table.pairs();
                if pairs.len() != 1 {
                    return Err(VdfError::Other("enum".to_owned()));
                }
                let tag = &pairs[0].0;
                let i = find_variant(variants, tag.as_slice());
                if i >= variants.len() {
                    let nowhere: Vec<u8> = Vec::new();
                    return Err(
                        VdfError::UnknownVariant(
                            UnknownVariantError::new(
                                tag.as_slice(),
                                names_of(variants),
                                Span::new(0, 0),
                                nowhere.as_slice(),
                            ),
                        ),
                    );
                }
                match &variants[i].payload {
                    None => Err(VdfError::Other("unit".to_owned())),
                    Some(payload) => match from_entry(&pairs[0].1, payload) {
                        Ok(v) => Ok(Decoded::Variant(tag.clone(), Some(Box::new(v)))),
                        Err(e) => Err(e),
                    },
                }
            },
            _ => Err(VdfError::Other("enum".to_owned())),
        },
        _ => match entry.as_str() {
            Some(text) => from_value(text, shape),
            None => {
                let label = match shape {
                    Shape::Optional(_) => "option",
                    _ => name_of(shape),
                };
                Err(VdfError::Other(label.to_owned()))
            },
        },
    }
}

} // verus!
