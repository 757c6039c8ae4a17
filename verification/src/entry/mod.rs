//! The entries of the tree: tables, arrays, values and statements, and the ways
//! to find an entry by name or by path.

pub mod array;
pub mod convert;
mod parse_item;
mod statement;
pub mod table;
mod value;

pub use array::Array;
pub use parse_item::ParseItem;
pub use statement::Statement;
pub use table::{
    insert, inserted, key_index, keys_unique, lemma_inserted_unique, lemma_key_index,
    lemma_key_index_is, Table,
};
pub use value::Value;

use crate::error::ParseEntryError;
use crate::event::{Item, ItemModel};
use crate::parse::{integer_in, parse_integer};
use crate::text;
use crate::text::{trim_segment, trimmed};
use vstd::prelude::*;
use vstd::std_specs::convert::FromSpecImpl;
use vstd::string::StringSliceAdditionalSpecFns;

verus! {

/// The kinds of entry.
#[derive(Debug, PartialEq, Eq)]
pub enum Entry {
    /// A table.
    Table(Table),
    /// An array: entries that share a key.
    Array(Array),
    /// A value.
    Value(Value),
    /// A statement: a value that starts with `#`.
    Statement(Statement),
}

/// What an entry holds, as a mathematical value.
pub enum EntryModel {
    /// The keys with their entries, in the order in which the keys were first seen.
    Table(Seq<(Seq<u8>, EntryModel)>),
    Array(Seq<EntryModel>),
    Value(Seq<u8>),
    Statement(Seq<u8>),
}

/// The model of the entries of an array.
pub open spec fn array_model(entries: Seq<Entry>) -> Seq<EntryModel>
    decreases entries, 0int,
{
    Seq::new(
        entries.len(),
        |i: int|
            if 0 <= i < entries.len() {
                entry_model(entries[i])
            } else {
                EntryModel::Value(Seq::empty())
            },
    )
}

/// The model of the pairs of a table.
pub open spec fn table_model(pairs: Seq<(Vec<u8>, Entry)>) -> Seq<(Seq<u8>, EntryModel)>
    decreases pairs, 0int,
{
    Seq::new(
        pairs.len(),
        |i: int|
            if 0 <= i < pairs.len() {
                (pairs[i].0@, entry_model(pairs[i].1))
            } else {
                (Seq::empty(), EntryModel::Value(Seq::empty()))
            },
    )
}

/// The model of an entry.
pub open spec fn entry_model(entry: Entry) -> EntryModel
    decreases entry, 1int,
{
    match entry {
        Entry::Table(table) => EntryModel::Table(table.model()),
        Entry::Array(array) => EntryModel::Array(array_model(array.0@)),
        Entry::Value(value) => EntryModel::Value(value.0@),
        Entry::Statement(statement) => EntryModel::Statement(statement.0@),
    }
}

impl View for Entry {
    type V = EntryModel;

    open spec fn view(&self) -> EntryModel {
        entry_model(*self)
    }
}

/// A copy of a list of entries.
pub fn clone_entries(entries: &Vec<Entry>) -> (r: Vec<Entry>)
    ensures
        array_model(r@) == array_model(entries@),
    decreases entries, 0int,
{
    let mut out: Vec<Entry> = Vec::new();
    let mut i: usize = 0;
    while i < entries.len()
        invariant
            i <= entries@.len(),
            out@.len() == i,
            forall|j: int| 0 <= j < i ==> entry_model(out@[j]) == entry_model(entries@[j]),
        decreases entries@.len() - i,
    {
        let copy = clone_entry(&entries[i]);
        out.push(copy);
        i = i + 1;
    }
    out
}

/// A copy of a list of keys with their entries.
pub fn clone_pairs(pairs: &Vec<(Vec<u8>, Entry)>) -> (r: Vec<(Vec<u8>, Entry)>)
    ensures
        table_model(r@) == table_model(pairs@),
    decreases pairs, 0int,
{
    let mut out: Vec<(Vec<u8>, Entry)> = Vec::new();
    let mut i: usize = 0;
    while i < pairs.len()
        invariant
            i <= pairs@.len(),
            out@.len() == i,
            forall|j: int|
                0 <= j < i ==> out@[j].0@ == pairs@[j].0@ && entry_model(out@[j].1) == entry_model(
                    pairs@[j].1,
                ),
        decreases pairs@.len() - i,
    {
        let key = pairs[i].0.clone();
        let copy = clone_entry(&pairs[i].1);
        out.push((key, copy));
        i = i + 1;
    }
    out
}

/// A copy of an entry.
pub fn clone_entry(entry: &Entry) -> (r: Entry)
    ensures
        r@ == entry@,
    decreases entry, 1int,
{
    match entry {
        Entry::Table(table) => Entry::Table(Table::from_distinct(clone_pairs(table.pairs()))),
        Entry::Array(array) => Entry::Array(Array(clone_entries(&array.0))),
        Entry::Value(value) => Entry::Value(Value(value.0.clone())),
        Entry::Statement(statement) => Entry::Statement(Statement(statement.0.clone())),
    }
}

impl Clone for Entry {
    fn clone(&self) -> (r: Self)
        ensures
            r@ == self@,
    {
        clone_entry(self)
    }
}

impl Entry {
    /// The entry as a table, where it is one.
    pub fn as_table(&self) -> (r: Option<&Table>)
        ensures
            r == (match *self {
                Entry::Table(table) => Some(&table),
                _ => None,
            }),
    {
        if let Entry::Table(value) = self {
            Some(value)
        } else {
            None
        }
    }

    /// The entry as a statement, where it is one.
    pub fn as_statement(&self) -> (r: Option<&Statement>)
        ensures
            r == (match *self {
                Entry::Statement(statement) => Some(&statement),
                _ => None,
            }),
    {
        if let Entry::Statement(value) = self {
            Some(value)
        } else {
            None
        }
    }

    /// The entry as a value, where it is one.
    pub fn as_value(&self) -> (r: Option<&Value>)
        ensures
            r == (match *self {
                Entry::Value(value) => Some(&value),
                _ => None,
            }),
    {
        if let Entry::Value(value) = self {
            Some(value)
        } else {
            None
        }
    }

    /// The text of the entry, where it is a value or a statement.
    pub fn as_str(&self) -> (r: Option<&[u8]>)
        ensures
            match r {
                Some(text) => self@.text() == Some(text@),
                None => self@.text() is None,
            },
    {
        match self {
            Entry::Value(value) => Some(value.0.as_slice()),
            Entry::Statement(value) => Some(value.0.as_slice()),
            _ => None,
        }
    }
}

/// `[`
pub const BRACKET_OPEN: u8 = 0x5B;

/// `]`
pub const BRACKET_CLOSE: u8 = 0x5D;

/// `.`, which separates the names of a path.
pub const PATH_SEPARATOR: u8 = 0x2E;

/// Whether a text has the shape of an array written in one token: it starts with
/// `[` and ends with `]`, or starts with `{` and ends with `}`.
pub open spec fn is_array_text(text: Seq<u8>) -> bool {
    text.len() > 0 && ((text[0] == BRACKET_OPEN && text.last() == BRACKET_CLOSE) || (text[0]
        == crate::lexer::BRACE_OPEN && text.last() == crate::lexer::BRACE_CLOSE))
}

/// Whether a text has the shape of an array written in one token.
pub fn string_is_array(string: &[u8]) -> (r: bool)
    ensures
        r == is_array_text(string@),
{
    if string.len() == 0 {
        return false;
    }
    let first = string[0];
    let last = string[string.len() - 1];
    (first == BRACKET_OPEN && last == BRACKET_CLOSE) || (first == crate::lexer::BRACE_OPEN && last
        == crate::lexer::BRACE_CLOSE)
}

/// The first position at or after `pos` that holds a `.`, or the end.
pub open spec fn segment_end(path: Seq<u8>, pos: int) -> int
    decreases path.len() - pos,
{
    if pos < 0 || pos >= path.len() || path[pos] == PATH_SEPARATOR {
        pos
    } else {
        segment_end(path, pos + 1)
    }
}

impl EntryModel {
    /// The entry with the given name: in a table the entry under that key, in an
    /// array the entry at that index, written in decimal; in anything else, none.
    pub open spec fn get(self, name: Seq<u8>) -> Option<EntryModel> {
        match self {
            EntryModel::Table(pairs) => {
                let i = key_index(pairs, name);
                if i < pairs.len() {
                    Some(pairs[i].1)
                } else {
                    None
                }
            },
            EntryModel::Array(entries) => match integer_in(name, 0, usize::MAX as int) {
                Some(i) => if i < entries.len() {
                    Some(entries[i])
                } else {
                    None
                },
                None => None,
            },
            _ => None,
        }
    }

    /// The entry that the path leads to from `pos` on: the segment up to the next
    /// `.` is trimmed and looked up, and what follows the `.` is looked up in what
    /// was found.
    pub open spec fn lookup_from(self, path: Seq<u8>, pos: int) -> Option<EntryModel>
        decreases path.len() - pos,
    {
        if pos < 0 || pos > path.len() {
            None
        } else {
            let end = segment_end(path, pos);
            match self.get(trimmed(path, pos, end)) {
                None => None,
                Some(next) => if pos <= end < path.len() {
                    next.lookup_from(path, end + 1)
                } else {
                    Some(next)
                },
            }
        }
    }
}

/// The view of an entry that may be there.
pub open spec fn found_model(r: Option<&Entry>) -> Option<EntryModel> {
    match r {
        Some(entry) => Some(entry@),
        None => None,
    }
}

impl Entry {
    /// The entry with the given name: in a table the entry under that key, in an
    /// array the entry at that index; in anything else, none.
    pub fn get(&self, name: &[u8]) -> (r: Option<&Entry>)
        ensures
            found_model(r) == self@.get(name@),
    {
        match self {
            Entry::Table(table) => {
                proof {
                    lemma_key_index(table@, name@);
                }
                table.get(name)
            },
            Entry::Array(array) => match parse_integer(name, 0, usize::MAX as i128) {
                Some(index) => array.get(index as usize),
                None => None,
            },
            _ => None,
        }
    }

    /// Looks an entry up by a path: names separated by `.`, each followed from the
    /// entry found for the one before it. Blanks around a name do not count.
    pub fn lookup(&self, path: &str) -> (r: Option<&Entry>)
        ensures
            found_model(r) == self@.lookup_from(path.spec_bytes(), 0),
    {
        self.lookup_bytes(path.as_bytes())
    }

    /// Looks an entry up by a path given as bytes.
    pub fn lookup_bytes(&self, path: &[u8]) -> (r: Option<&Entry>)
        ensures
            found_model(r) == self@.lookup_from(path@, 0),
    {
        let mut current: &Entry = self;
        let mut pos: usize = 0;
        loop
            invariant
                pos <= path@.len(),
                self@.lookup_from(path@, 0) == current@.lookup_from(path@, pos as int),
            decreases path@.len() - pos,
        {
            let mut end: usize = pos;
            while end < path.len() && path[end] != PATH_SEPARATOR
                invariant
                    pos <= end <= path@.len(),
                    segment_end(path@, pos as int) == segment_end(path@, end as int),
                decreases path@.len() - end,
            {
                end = end + 1;
            }
            let name = trim_segment(path, pos, end);
            match current.get(name) {
                None => {
                    return None;
                },
                Some(entry) => {
                    if end >= path.len() {
                        return Some(entry);
                    }
                    current = entry;
                    pos = end + 1;
                },
            }
        }
    }

    /// Reads the entry as the given type.
    pub fn to<T: ParseItem>(self) -> (r: Result<T, ParseEntryError>)
        ensures
            r is Ok == (self@.text() matches Some(t) && T::readable(t)),
            r matches Ok(v) ==> T::reads_as(self@.text().unwrap(), v),
            r matches Err(e) ==> e.ty@ == T::type_label() && e.value@ == self@,
    {
        T::from_entry(self)
    }

    /// The entries of an array; any other entry as the one entry of a slice.
    pub fn as_slice(&self) -> (r: Option<&[Entry]>)
        ensures
            r matches Some(entries) && array_model(entries@) == (match self@ {
                EntryModel::Array(list) => list,
                other => seq![other],
            }),
    {
        if let Entry::Array(value) = self {
            Some(value.as_slice())
        } else {
            let one = slice_of_one(self);
            Some(one)
        }
    }
}

/// `core::slice::from_ref`: the slice of length one that holds the entry referred to.
#[verifier::external_body]
fn slice_of_one(entry: &Entry) -> (r: &[Entry])
    ensures
        r@ == seq![*entry],
{
    core::slice::from_ref(entry)
}

impl From<Item> for Entry {
    /// The entry that an item stands for: a statement or a value with the text
    /// of the item.
    fn from(item: Item) -> (r: Entry)
        ensures
            r@ == (match item@ {
                ItemModel::Item { content, .. } => EntryModel::Value(content),
                ItemModel::Statement { content, .. } => EntryModel::Statement(content),
            }),
    {
        match item {
            Item::Item { content, .. } => Entry::Value(Value(content)),
            Item::Statement { content, .. } => Entry::Statement(Statement(content)),
        }
    }
}

impl FromSpecImpl<Item> for Entry {
    open spec fn obeys_from_spec() -> bool {
        true
    }

    open spec fn from_spec(item: Item) -> Entry {
        match item {
            Item::Item { content, .. } => Entry::Value(Value(content)),
            Item::Statement { content, .. } => Entry::Statement(Statement(content)),
        }
    }
}

} // verus!
