//! Values: the scalars of the tree.

use super::{Entry, ParseItem, Statement};
use crate::error::ParseStringError;
use crate::text;
use vstd::prelude::*;
use vstd::std_specs::convert::FromSpecImpl;
use vstd::string::StringSliceAdditionalSpecFns;

verus! {

/// A scalar: the text of an item.
#[derive(Debug, PartialEq, Eq)]
pub struct Value(pub Vec<u8>);

impl View for Value {
    type V = Seq<u8>;

    open spec fn view(&self) -> Seq<u8> {
        self.0@
    }
}

impl Clone for Value {
    fn clone(&self) -> (r: Self)
        ensures
            r@ == self@,
    {
        Value(self.0.clone())
    }
}

impl Value {
    /// The value with the bytes of `text`, in UTF-8.
    pub fn from_str(text: &str) -> (r: Value)
        ensures
            r@ == text.spec_bytes(),
    {
        Value(text::bytes_of(text))
    }

    /// The value with the given bytes.
    pub fn from_bytes(text: &[u8]) -> (r: Value)
        ensures
            r@ == text@,
    {
        Value(text::to_vec(text))
    }

    /// The value with the text of a statement.
    pub fn from_statement(statement: Statement) -> (r: Value)
        ensures
            r@ == statement@,
    {
        Value(statement.0)
    }

    /// The text of the value.
    pub fn as_bytes(&self) -> (r: &[u8])
        ensures
            r@ == self@,
    {
        self.0.as_slice()
    }

    /// The text of the value, taken out of it.
    pub fn into_bytes(self) -> (r: Vec<u8>)
        ensures
            r@ == self@,
    {
        self.0
    }

    /// Reads the value as the given type.
    pub fn to<T: ParseItem>(self) -> (r: Result<T, ParseStringError>)
        ensures
            r is Ok == T::readable(self@),
            r matches Ok(v) ==> T::reads_as(self@, v),
            r matches Err(e) ==> e.ty@ == T::type_label() && e.value@ == self@,
    {
        T::from_str(self.0.as_slice())
    }
}

impl From<Value> for Entry {
    fn from(value: Value) -> (r: Entry)
        ensures
            r == Entry::Value(value),
    {
        Entry::Value(value)
    }
}

impl FromSpecImpl<Value> for Entry {
    open spec fn obeys_from_spec() -> bool {
        true
    }

    open spec fn from_spec(v: Value) -> Entry {
        Entry::Value(v)
    }
}

impl From<Vec<u8>> for Value {
    fn from(value: Vec<u8>) -> (r: Value)
        ensures
            r == Value(value),
    {
        Value(value)
    }
}

impl FromSpecImpl<Vec<u8>> for Value {
    open spec fn obeys_from_spec() -> bool {
        true
    }

    open spec fn from_spec(v: Vec<u8>) -> Value {
        Value(v)
    }
}

impl From<Statement> for Value {
    fn from(value: Statement) -> (r: Value)
        ensures
            r == Value(value.0),
    {
        Value(value.0)
    }
}

impl FromSpecImpl<Statement> for Value {
    open spec fn obeys_from_spec() -> bool {
        true
    }

    open spec fn from_spec(v: Statement) -> Value {
        Value(v.0)
    }
}

impl<'a> From<&'a str> for Value {
    /// The value with the bytes of the text, in UTF-8.
    fn from(value: &'a str) -> (r: Value)
        ensures
            r@ == value.spec_bytes(),
    {
        Value(text::bytes_of(value))
    }
}

impl<'a> FromSpecImpl<&'a str> for Value {
    open spec fn obeys_from_spec() -> bool {
        false
    }

    open spec fn from_spec(v: &'a str) -> Value {
        arbitrary()
    }
}

impl Default for Value {
    fn default() -> (r: Value)
        ensures
            r@ == Seq::<u8>::empty(),
    {
        Value(Vec::new())
    }
}

} // verus!
