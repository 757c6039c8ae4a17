//! Reading the text of one token as a scalar.

use crate::parse::{integer_in, is_float, is_float_text, parse_bool, parse_integer, truth_value};
use crate::shape::{Decoded, DecodedModel, Shape};
use crate::text;
use vstd::prelude::*;

verus! {

/// Whether a byte continues a character of more than one byte.
pub open spec fn is_continuation(b: u8) -> bool {
    0x80 <= b < 0xC0
}

/// The number of characters that start in a text: of bytes that continue none.
pub open spec fn char_count(text: Seq<u8>) -> nat
    decreases text.len(),
{
    if text.len() == 0 {
        0
    } else {
        char_count(text.drop_last()) + (if is_continuation(text.last()) {
            0nat
        } else {
            1nat
        })
    }
}

/// The name of a scalar shape, as errors give it.
pub open spec fn scalar_name(shape: Shape) -> Seq<char> {
    match shape {
        Shape::Bool => "bool"@,
        Shape::I8 => "i8"@,
        Shape::I16 => "i16"@,
        Shape::I32 => "i32"@,
        Shape::I64 => "i64"@,
        Shape::U8 => "u8"@,
        Shape::U16 => "u16"@,
        Shape::U32 => "u32"@,
        Shape::U64 => "u64"@,
        Shape::F32 => "f32"@,
        Shape::F64 => "f64"@,
        Shape::Char => "char"@,
        Shape::Unit => "unit"@,
        _ => "str"@,
    }
}

/// A signed integer read from a text, where the text denotes one in range. The
/// text stays with the integer.
pub open spec fn signed_value(text: Seq<u8>, min: int, max: int) -> Option<DecodedModel> {
    match integer_in(text, min, max) {
        Some(v) => Some(DecodedModel::Int(v, text)),
        None => None,
    }
}

/// An unsigned integer read from a text, where the text denotes one in range. The
/// text stays with the integer.
pub open spec fn unsigned_value(text: Seq<u8>, max: int) -> Option<DecodedModel> {
    match integer_in(text, 0, max) {
        Some(v) => Some(DecodedModel::UInt(v, text)),
        None => None,
    }
}

/// The value that a text is as a scalar of the given shape, where it is one: a
/// truth value, an integer in the range of the shape, a floating-point literal,
/// one character, any text, or for the unit the empty text.
pub open spec fn scalar_value(shape: Shape, text: Seq<u8>) -> Option<DecodedModel> {
    match shape {
        Shape::Bool => match truth_value(text) {
            Some(b) => Some(DecodedModel::Bool(b)),
            None => None,
        },
        Shape::I8 => signed_value(text, i8::MIN as int, i8::MAX as int),
        Shape::I16 => signed_value(text, i16::MIN as int, i16::MAX as int),
        Shape::I32 => signed_value(text, i32::MIN as int, i32::MAX as int),
        Shape::I64 => signed_value(text, i64::MIN as int, i64::MAX as int),
        Shape::U8 => unsigned_value(text, u8::MAX as int),
        Shape::U16 => unsigned_value(text, u16::MAX as int),
        Shape::U32 => unsigned_value(text, u32::MAX as int),
        Shape::U64 => unsigned_value(text, u64::MAX as int),
        Shape::F32 | Shape::F64 => if is_float(text) {
            Some(DecodedModel::Float(text))
        } else {
            None
        },
        Shape::Char => if char_count(text) == 1 {
            Some(DecodedModel::Char(text))
        } else {
            None
        },
        Shape::Unit => if text.len() == 0 {
            Some(DecodedModel::Unit)
        } else {
            None
        },
        _ => Some(DecodedModel::Str(text)),
    }
}

/// The value inferred from a text: an integer of 64 bits where the text denotes
/// one, else a floating-point number where it denotes one, else the text. A number
/// keeps the text that denotes it.
pub open spec fn inferred(text: Seq<u8>) -> DecodedModel {
    match integer_in(text, i64::MIN as int, i64::MAX as int) {
        Some(v) => DecodedModel::Int(v, text),
        None => if is_float(text) {
            DecodedModel::Float(text)
        } else {
            DecodedModel::Str(text)
        },
    }
}

fn count_chars(text: &[u8]) -> (n: usize)
    ensures
        n == char_count(text@),
{
    let mut n: usize = 0;
    let mut i: usize = 0;
    while i < text.len()
        invariant
            i <= text@.len(),
            n <= i,
            n == char_count(text@.take(i as int)),
        decreases text@.len() - i,
    {
        assert(text@.take(i + 1).drop_last() =~= text@.take(i as int));
        if !(0x80 <= text[i] && text[i] < 0xC0) {
            n = n + 1;
        }
        i = i + 1;
    }
    assert(text@.take(i as int) =~= text@);
    n
}

fn signed(text: &[u8], min: i64, max: i64) -> (r: Option<Decoded>)
    requires
        min <= 0 <= max,
    ensures
        match r {
            Some(v) => signed_value(text@, min as int, max as int) == Some(v@),
            None => signed_value(text@, min as int, max as int) is None,
        },
{
    match parse_integer(text, min as i128, max as i128) {
        Some(v) => Some(Decoded::Int(v as i64, text::to_vec(text))),
        None => None,
    }
}

fn unsigned(text: &[u8], max: u64) -> (r: Option<Decoded>)
    ensures
        match r {
            Some(v) => unsigned_value(text@, max as int) == Some(v@),
            None => unsigned_value(text@, max as int) is None,
        },
{
    match parse_integer(text, 0, max as i128) {
        Some(v) => Some(Decoded::UInt(v as u64, text::to_vec(text))),
        None => None,
    }
}

/// The name of a scalar shape, as errors give it.
pub fn name_of(shape: &Shape) -> (r: &'static str)
    ensures
        r@ == scalar_name(*shape),
{
    match shape {
        Shape::Bool => "bool",
        Shape::I8 => "i8",
        Shape::I16 => "i16",
        Shape::I32 => "i32",
        Shape::I64 => "i64",
        Shape::U8 => "u8",
        Shape::U16 => "u16",
        Shape::U32 => "u32",
        Shape::U64 => "u64",
        Shape::F32 => "f32",
        Shape::F64 => "f64",
        Shape::Char => "char",
        Shape::Unit => "unit",
        _ => "str",
    }
}

/// Reads a text as a scalar of the given shape.
pub fn scalar(shape: &Shape, text: &[u8]) -> (r: Option<Decoded>)
    ensures
        match r {
            Some(v) => scalar_value(*shape, text@) == Some(v@),
            None => scalar_value(*shape, text@) is None,
        },
{
    match shape {
        Shape::Bool => match parse_bool(text) {
            Some(b) => Some(Decoded::Bool(b)),
            None => None,
        },
        Shape::I8 => signed(text, i8::MIN as i64, i8::MAX as i64),
        Shape::I16 => signed(text, i16::MIN as i64, i16::MAX as i64),
        Shape::I32 => signed(text, i32::MIN as i64, i32::MAX as i64),
        Shape::I64 => signed(text, i64::MIN, i64::MAX),
        Shape::U8 => unsigned(text, u8::MAX as u64),
        Shape::U16 => unsigned(text, u16::MAX as u64),
        Shape::U32 => unsigned(text, u32::MAX as u64),
        Shape::U64 => unsigned(text, u64::MAX),
        Shape::F32 | Shape::F64 => if is_float_text(text) {
            Some(Decoded::Float(text::to_vec(text)))
        } else {
            None
        },
        Shape::Char => if count_chars(text) == 1 {
            Some(Decoded::Char(text::to_vec(text)))
        } else {
            None
        },
        Shape::Unit => if text.len() == 0 {
            Some(Decoded::Unit)
        } else {
            None
        },
        _ => Some(Decoded::Str(text::to_vec(text))),
    }
}

/// Reads a text as a value of any shape that is no sequence.
pub fn infer(text: &[u8]) -> (r: Decoded)
    ensures
        r@ == inferred(text@),
{
    match parse_integer(text, i64::MIN as i128, i64::MAX as i128) {
        Some(v) => Decoded::Int(v as i64, text::to_vec(text)),
        None => if is_float_text(text) {
            Decoded::Float(text::to_vec(text))
        } else {
            Decoded::Str(text::to_vec(text))
        },
    }
}

} // verus!
