//! Reading the text of an entry or of an item as a number, a truth value or a
//! text.

use super::{Entry, EntryModel};
use crate::error::{ParseEntryError, ParseItemError, ParseStringError};
use crate::event::Item;
use crate::parse::{integer_in, parse_bool, parse_integer, truth_value};
use crate::text;
use vstd::prelude::*;

verus! {

impl EntryModel {
    /// The text of a value or a statement.
    pub open spec fn text(self) -> Option<Seq<u8>> {
        match self {
            EntryModel::Value(text) => Some(text),
            EntryModel::Statement(text) => Some(text),
            _ => None,
        }
    }
}

/// Types that a text can be read as.
pub trait ParseItem: Sized {
    /// The name of the type, as errors give it.
    spec fn type_label() -> Seq<char>;

    /// Whether `text` can be read as a value of the type.
    spec fn readable(text: Seq<u8>) -> bool;

    /// Whether `value` is what `text` reads as.
    spec fn reads_as(text: Seq<u8>, value: Self) -> bool;

    /// The name of the type, as errors give it.
    fn name() -> (r: &'static str)
        ensures
            r@ == Self::type_label(),
    ;

    /// Reads a text as a value of the type. The error names the type and holds
    /// the text.
    fn from_str(item: &[u8]) -> (r: Result<Self, ParseStringError>)
        ensures
            r is Ok == Self::readable(item@),
            r matches Ok(v) ==> Self::reads_as(item@, v),
            r matches Err(e) ==> e.ty@ == Self::type_label() && e.value@ == item@,
    ;

    /// Reads an entry as a value of the type: the text of a value or of a
    /// statement is read, a table or an array is refused. The error names the type
    /// and holds the entry.
    fn from_entry(entry: Entry) -> (r: Result<Self, ParseEntryError>)
        ensures
            r is Ok == (entry@.text() matches Some(t) && Self::readable(t)),
            r matches Ok(v) ==> Self::reads_as(entry@.text().unwrap(), v),
            r matches Err(e) ==> e.ty@ == Self::type_label() && e.value@ == entry@,
    {
        let parsed = match entry.as_str() {
            Some(string) => Some(Self::from_str(string)),
            None => None,
        };
        match parsed {
            Some(Ok(value)) => Ok(value),
            Some(Err(e)) => Err(ParseEntryError::new(e.ty, entry)),
            None => Err(ParseEntryError::new(Self::name(), entry)),
        }
    }

    /// Reads the text of an item as a value of the type. The error names the type
    /// and holds the item.
    fn from_item(item: Item) -> (r: Result<Self, ParseItemError>)
        ensures
            r is Ok == Self::readable(item@.content()),
            r matches Ok(v) ==> Self::reads_as(item@.content(), v),
            r matches Err(e) ==> e.ty@ == Self::type_label() && e.value@ == item@,
    {
        let parsed = Self::from_str(item.as_str());
        match parsed {
            Ok(value) => Ok(value),
            Err(e) => Err(ParseItemError::new(e.ty, item)),
        }
    }
}

impl ParseItem for i8 {
    open spec fn type_label() -> Seq<char> {
        "i8"@
    }

    open spec fn readable(text: Seq<u8>) -> bool {
        integer_in(text, i8::MIN as int, i8::MAX as int) is Some
    }

    open spec fn reads_as(text: Seq<u8>, value: i8) -> bool {
        integer_in(text, i8::MIN as int, i8::MAX as int) == Some(value as int)
    }

    fn name() -> (r: &'static str) {
        "i8"
    }

    fn from_str(item: &[u8]) -> (r: Result<i8, ParseStringError>) {
        match parse_integer(item, i8::MIN as i128, i8::MAX as i128) {
            Some(value) => Ok(value as i8),
            None => Err(ParseStringError::new("i8", item)),
        }
    }
}

impl ParseItem for i16 {
    open spec fn type_label() -> Seq<char> {
        "i16"@
    }

    open spec fn readable(text: Seq<u8>) -> bool {
        integer_in(text, i16::MIN as int, i16::MAX as int) is Some
    }

    open spec fn reads_as(text: Seq<u8>, value: i16) -> bool {
        integer_in(text, i16::MIN as int, i16::MAX as int) == Some(value as int)
    }

    fn name() -> (r: &'static str) {
        "i16"
    }

    fn from_str(item: &[u8]) -> (r: Result<i16, ParseStringError>) {
        match parse_integer(item, i16::MIN as i128, i16::MAX as i128) {
            Some(value) => Ok(value as i16),
            None => Err(ParseStringError::new("i16", item)),
        }
    }
}

impl ParseItem for i32 {
    open spec fn type_label() -> Seq<char> {
        "i32"@
    }

    open spec fn readable(text: Seq<u8>) -> bool {
        integer_in(text, i32::MIN as int, i32::MAX as int) is Some
    }

    open spec fn reads_as(text: Seq<u8>, value: i32) -> bool {
        integer_in(text, i32::MIN as int, i32::MAX as int) == Some(value as int)
    }

    fn name() -> (r: &'static str) {
        "i32"
    }

    fn from_str(item: &[u8]) -> (r: Result<i32, ParseStringError>) {
        match parse_integer(item, i32::MIN as i128, i32::MAX as i128) {
            Some(value) => Ok(value as i32),
            None => Err(ParseStringError::new("i32", item)),
        }
    }
}

impl ParseItem for i64 {
    open spec fn type_label() -> Seq<char> {
        "i64"@
    }

    open spec fn readable(text: Seq<u8>) -> bool {
        integer_in(text, i64::MIN as int, i64::MAX as int) is Some
    }

    open spec fn reads_as(text: Seq<u8>, value: i64) -> bool {
        integer_in(text, i64::MIN as int, i64::MAX as int) == Some(value as int)
    }

    fn name() -> (r: &'static str) {
        "i64"
    }

    fn from_str(item: &[u8]) -> (r: Result<i64, ParseStringError>) {
        match parse_integer(item, i64::MIN as i128, i64::MAX as i128) {
            Some(value) => Ok(value as i64),
            None => Err(ParseStringError::new("i64", item)),
        }
    }
}

impl ParseItem for isize {
    open spec fn type_label() -> Seq<char> {
        "isize"@
    }

    open spec fn readable(text: Seq<u8>) -> bool {
        integer_in(text, isize::MIN as int, isize::MAX as int) is Some
    }

    open spec fn reads_as(text: Seq<u8>, value: isize) -> bool {
        integer_in(text, isize::MIN as int, isize::MAX as int) == Some(value as int)
    }

    fn name() -> (r: &'static str) {
        "isize"
    }

    fn from_str(item: &[u8]) -> (r: Result<isize, ParseStringError>) {
        match parse_integer(item, isize::MIN as i128, isize::MAX as i128) {
            Some(value) => Ok(value as isize),
            None => Err(ParseStringError::new("isize", item)),
        }
    }
}

impl ParseItem for u8 {
    open spec fn type_label() -> Seq<char> {
        "u8"@
    }

    open spec fn readable(text: Seq<u8>) -> bool {
        integer_in(text, 0 as int, u8::MAX as int) is Some
    }

    open spec fn reads_as(text: Seq<u8>, value: u8) -> bool {
        integer_in(text, 0 as int, u8::MAX as int) == Some(value as int)
    }

    fn name() -> (r: &'static str) {
        "u8"
    }

    fn from_str(item: &[u8]) -> (r: Result<u8, ParseStringError>) {
        match parse_integer(item, 0 as i128, u8::MAX as i128) {
            Some(value) => Ok(value as u8),
            None => Err(ParseStringError::new("u8", item)),
        }
    }
}

impl ParseItem for u16 {
    open spec fn type_label() -> Seq<char> {
        "u16"@
    }

    open spec fn readable(text: Seq<u8>) -> bool {
        integer_in(text, 0 as int, u16::MAX as int) is Some
    }

    open spec fn reads_as(text: Seq<u8>, value: u16) -> bool {
        integer_in(text, 0 as int, u16::MAX as int) == Some(value as int)
    }

    fn name() -> (r: &'static str) {
        "u16"
    }

    fn from_str(item: &[u8]) -> (r: Result<u16, ParseStringError>) {
        match parse_integer(item, 0 as i128, u16::MAX as i128) {
            Some(value) => Ok(value as u16),
            None => Err(ParseStringError::new("u16", item)),
        }
    }
}

impl ParseItem for u32 {
    open spec fn type_label() -> Seq<char> {
        "u32"@
    }

    open spec fn readable(text: Seq<u8>) -> bool {
        integer_in(text, 0 as int, u32::MAX as int) is Some
    }

    open spec fn reads_as(text: Seq<u8>, value: u32) -> bool {
        integer_in(text, 0 as int, u32::MAX as int) == Some(value as int)
    }

    fn name() -> (r: &'static str) {
        "u32"
    }

    fn from_str(item: &[u8]) -> (r: Result<u32, ParseStringError>) {
        match parse_integer(item, 0 as i128, u32::MAX as i128) {
            Some(value) => Ok(value as u32),
            None => Err(ParseStringError::new("u32", item)),
        }
    }
}

impl ParseItem for u64 {
    open spec fn type_label() -> Seq<char> {
        "u64"@
    }

    open spec fn readable(text: Seq<u8>) -> bool {
        integer_in(text, 0 as int, u64::MAX as int) is Some
    }

    open spec fn reads_as(text: Seq<u8>, value: u64) -> bool {
        integer_in(text, 0 as int, u64::MAX as int) == Some(value as int)
    }

    fn name() -> (r: &'static str) {
        "u64"
    }

    fn from_str(item: &[u8]) -> (r: Result<u64, ParseStringError>) {
        match parse_integer(item, 0 as i128, u64::MAX as i128) {
            Some(value) => Ok(value as u64),
            None => Err(ParseStringError::new("u64", item)),
        }
    }
}

impl ParseItem for usize {
    open spec fn type_label() -> Seq<char> {
        "usize"@
    }

    open spec fn readable(text: Seq<u8>) -> bool {
        integer_in(text, 0 as int, usize::MAX as int) is Some
    }

    open spec fn reads_as(text: Seq<u8>, value: usize) -> bool {
        integer_in(text, 0 as int, usize::MAX as int) == Some(value as int)
    }

    fn name() -> (r: &'static str) {
        "usize"
    }

    fn from_str(item: &[u8]) -> (r: Result<usize, ParseStringError>) {
        match parse_integer(item, 0 as i128, usize::MAX as i128) {
            Some(value) => Ok(value as usize),
            None => Err(ParseStringError::new("usize", item)),
        }
    }
}

impl ParseItem for bool {
    open spec fn type_label() -> Seq<char> {
        "bool"@
    }

    open spec fn readable(text: Seq<u8>) -> bool {
        truth_value(text) is Some
    }

    open spec fn reads_as(text: Seq<u8>, value: bool) -> bool {
        truth_value(text) == Some(value)
    }

    fn name() -> (r: &'static str) {
        "bool"
    }

    fn from_str(item: &[u8]) -> (r: Result<bool, ParseStringError>) {
        match parse_bool(item) {
            Some(value) => Ok(value),
            None => Err(ParseStringError::new("bool", item)),
        }
    }
}

/// A text reads as itself.
impl ParseItem for Vec<u8> {
    open spec fn type_label() -> Seq<char> {
        "alloc::string::String"@
    }

    open spec fn readable(text: Seq<u8>) -> bool {
        true
    }

    open spec fn reads_as(text: Seq<u8>, value: Vec<u8>) -> bool {
        value@ == text
    }

    fn name() -> (r: &'static str) {
        "alloc::string::String"
    }

    fn from_str(item: &[u8]) -> (r: Result<Vec<u8>, ParseStringError>) {
        Ok(text::to_vec(item))
    }
}

/// A value that may be there reads as the value itself: it is there where the
/// text can be read.
impl<T: ParseItem> ParseItem for Option<T> {
    open spec fn type_label() -> Seq<char> {
        T::type_label()
    }

    open spec fn readable(text: Seq<u8>) -> bool {
        T::readable(text)
    }

    open spec fn reads_as(text: Seq<u8>, value: Option<T>) -> bool {
        value matches Some(inner) && T::reads_as(text, inner)
    }

    fn name() -> (r: &'static str) {
        T::name()
    }

    fn from_str(item: &[u8]) -> (r: Result<Option<T>, ParseStringError>) {
        match T::from_str(item) {
            Ok(value) => Ok(Some(value)),
            Err(e) => Err(e),
        }
    }
}

} // verus!
