//! Statements: the directives of the tree.

use super::Entry;
use crate::text;
use vstd::prelude::*;
use vstd::std_specs::convert::FromSpecImpl;
use vstd::string::StringSliceAdditionalSpecFns;

verus! {

/// A directive: the text of a statement.
#[derive(Debug, PartialEq, Eq)]
pub struct Statement(pub Vec<u8>);

impl View for Statement {
    type V = Seq<u8>;

    open spec fn view(&self) -> Seq<u8> {
        self.0@
    }
}

impl Clone for Statement {
    fn clone(&self) -> (r: Self)
        ensures
            r@ == self@,
    {
        Statement(self.0.clone())
    }
}

impl Statement {
    /// The statement with the bytes of `text`, in UTF-8.
    pub fn from_str(text: &str) -> (r: Statement)
        ensures
            r@ == text.spec_bytes(),
    {
        Statement(text::bytes_of(text))
    }

    /// The statement with the given bytes.
    pub fn from_bytes(text: &[u8]) -> (r: Statement)
        ensures
            r@ == text@,
    {
        Statement(text::to_vec(text))
    }

    /// The text of the statement.
    pub fn as_bytes(&self) -> (r: &[u8])
        ensures
            r@ == self@,
    {
        self.0.as_slice()
    }

    /// The text of the statement, taken out of it.
    pub fn into_bytes(self) -> (r: Vec<u8>)
        ensures
            r@ == self@,
    {
        self.0
    }
}

impl From<Statement> for Entry {
    fn from(statement: Statement) -> (r: Entry)
        ensures
            r == Entry::Statement(statement),
    {
        Entry::Statement(statement)
    }
}

impl FromSpecImpl<Statement> for Entry {
    open spec fn obeys_from_spec() -> bool {
        true
    }

    open spec fn from_spec(v: Statement) -> Entry {
        Entry::Statement(v)
    }
}

impl From<Vec<u8>> for Statement {
    fn from(value: Vec<u8>) -> (r: Statement)
        ensures
            r == Statement(value),
    {
        Statement(value)
    }
}

impl FromSpecImpl<Vec<u8>> for Statement {
    open spec fn obeys_from_spec() -> bool {
        true
    }

    open spec fn from_spec(v: Vec<u8>) -> Statement {
        Statement(v)
    }
}

impl<'a> From<&'a str> for Statement {
    /// The statement with the bytes of the text, in UTF-8.
    fn from(value: &'a str) -> (r: Statement)
        ensures
            r@ == value.spec_bytes(),
    {
        Statement(text::bytes_of(value))
    }
}

impl<'a> FromSpecImpl<&'a str> for Statement {
    open spec fn obeys_from_spec() -> bool {
        false
    }

    open spec fn from_spec(v: &'a str) -> Statement {
        arbitrary()
    }
}

impl Default for Statement {
    fn default() -> (r: Statement)
        ensures
            r@ == Seq::<u8>::empty(),
    {
        Statement(Vec::new())
    }
}

} // verus!
