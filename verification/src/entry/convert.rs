//! Entries built from decoded values.

use super::table::{entry_unique, lemma_inserted_entry_unique};
use super::{
    array_model, insert, inserted, table_model, Array, Entry, EntryModel, Statement, Table, Value,
};
use crate::cursor::{Cursor, Deserializer};
use crate::de::decode;
use crate::error::{ErrorModel, VdfError};
use crate::lexer::HASH;
use crate::parse::{ONE, ZERO};
use crate::shape::{Decoded, DecodedModel, Shape};
use crate::text;
use vstd::prelude::*;
use vstd::string::StringSliceAdditionalSpecFns;

verus! {

/// The entry that a text makes: a statement where it starts with `#`, else a
/// value.
pub open spec fn text_entry(text: Seq<u8>) -> EntryModel {
    if text.len() > 0 && text[0] == HASH {
        EntryModel::Statement(text)
    } else {
        EntryModel::Value(text)
    }
}

/// What is said of a decoded value that no entry can hold.
pub open spec fn refusal(value: DecodedModel) -> Seq<char> {
    match value {
        DecodedModel::Unit => "invalid type: unit value, expected any string like value or group"@,
        DecodedModel::Variant(_, _) => "invalid type: enum, expected any string like value or group"@,
        _ => "invalid type: Option value, expected any string like value or group"@,
    }
}

/// The entries built from the first `n` of a list of decoded values, or what is
/// said of the first of them that no entry can hold.
pub open spec fn built_items(items: Seq<DecodedModel>, n: nat) -> Result<Seq<EntryModel>, Seq<char>>
    decreases items, n,
{
    if n == 0 || n > items.len() {
        Ok(Seq::empty())
    } else {
        match built_items(items, (n - 1) as nat) {
            Err(e) => Err(e),
            Ok(entries) => match built(items[n - 1]) {
                Err(e) => Err(e),
                Ok(entry) => Ok(entries.push(entry)),
            },
        }
    }
}

/// The table built from the first `n` of a list of keys with decoded values: each
/// value is inserted under its key, so that the values under one key make an
/// array.
pub open spec fn built_pairs(pairs: Seq<(Seq<u8>, DecodedModel)>, n: nat) -> Result<
    Seq<(Seq<u8>, EntryModel)>,
    Seq<char>,
>
    decreases pairs, n,
{
    if n == 0 || n > pairs.len() {
        Ok(Seq::empty())
    } else {
        match built_pairs(pairs, (n - 1) as nat) {
            Err(e) => Err(e),
            Ok(table) => match built(pairs[n - 1].1) {
                Err(e) => Err(e),
                Ok(entry) => Ok(inserted(table, pairs[n - 1].0, entry)),
            },
        }
    }
}

/// The entry built from a decoded value: a truth value becomes `1` or `0`, a
/// number the text that denotes it, a text a value or a statement, a list an
/// array and a group a table. A unit, an optional value and a variant are
/// refused.
pub open spec fn built(value: DecodedModel) -> Result<EntryModel, Seq<char>>
    decreases value, 0nat,
{
    match value {
        DecodedModel::Bool(b) => Ok(
            EntryModel::Value(
                if b {
                    seq![ONE]
                } else {
                    seq![ZERO]
                },
            ),
        ),
        DecodedModel::Int(_, text) => Ok(EntryModel::Value(text)),
        DecodedModel::UInt(_, text) => Ok(EntryModel::Value(text)),
        DecodedModel::Float(text) => Ok(EntryModel::Value(text)),
        DecodedModel::Char(text) => Ok(text_entry(text)),
        DecodedModel::Str(text) => Ok(text_entry(text)),
        DecodedModel::List(items) => match built_items(items, items.len()) {
            Ok(entries) => Ok(EntryModel::Array(entries)),
            Err(e) => Err(e),
        },
        DecodedModel::Table(pairs) => match built_pairs(pairs, pairs.len()) {
            Ok(table) => Ok(EntryModel::Table(table)),
            Err(e) => Err(e),
        },
        other => Err(refusal(other)),
    }
}

/// What building an entry gives: the entry, or an error that holds what is said
/// of the value that no entry can hold.
pub open spec fn built_entry(value: DecodedModel) -> Result<EntryModel, ErrorModel> {
    match built(value) {
        Ok(entry) => Ok(entry),
        Err(message) => Err(ErrorModel::Other(message)),
    }
}

/// The view of an entry, or of the error in its place.
pub open spec fn entry_result(r: Result<Entry, VdfError>) -> Result<EntryModel, ErrorModel> {
    match r {
        Ok(entry) => Ok(entry@),
        Err(e) => Err(e@),
    }
}

fn text_to_entry(text: &[u8]) -> (r: Entry)
    ensures
        r@ == text_entry(text@),
{
    if text.len() > 0 && text[0] == HASH {
        Entry::Statement(Statement(text::to_vec(text)))
    } else {
        Entry::Value(Value(text::to_vec(text)))
    }
}

impl Entry {
    /// Builds the entry that a decoded value stands for.
    #[verifier::loop_isolation(false)]
    pub fn from_decoded(value: &Decoded) -> (r: Result<Entry, VdfError>)
        ensures
            entry_result(r) == built_entry(value@),
            r matches Ok(entry) ==> entry_unique(entry@),
        decreases value,
    {
        proof {
            lemma_built_unique(value@);
        }
        Entry::build(value)
    }

    #[verifier::loop_isolation(false)]
    fn build(value: &Decoded) -> (r: Result<Entry, VdfError>)
        ensures
            entry_result(r) == built_entry(value@),
        decreases value,
    {
        match value {
            Decoded::Bool(b) => {
                let text = if *b {
                    vec![ONE]
                } else {
                    vec![ZERO]
                };
                assert(text@ =~= if *b {
                    seq![ONE]
                } else {
                    seq![ZERO]
                });
                Ok(Entry::Value(Value(text)))
            },
            Decoded::Int(_, text) => Ok(Entry::Value(Value(text.clone()))),
            Decoded::UInt(_, text) => Ok(Entry::Value(Value(text.clone()))),
            Decoded::Float(text) => Ok(Entry::Value(Value(text.clone()))),
            Decoded::Char(text) => Ok(text_to_entry(text.as_slice())),
            Decoded::Str(text) => Ok(text_to_entry(text.as_slice())),
            Decoded::List(items) => {
                let mut entries: Vec<Entry> = Vec::new();
                let mut i: usize = 0;
                assert(array_model(entries@) =~= Seq::<EntryModel>::empty());
                while i < items.len()
                    invariant
                        i <= items@.len(),
                        value@ matches DecodedModel::List(list) && list == crate::shape::list_model(items@),
                        built_items(crate::shape::list_model(items@), i as nat) == Ok::<
                            Seq<EntryModel>,
                            Seq<char>,
                        >(array_model(entries@)),
                    decreases items@.len() - i,
                {
                    let ghost before = array_model(entries@);
                    match Entry::build(&items[i]) {
                        Err(e) => {
                            proof {
                                lemma_built_items_error(crate::shape::list_model(items@), i as nat + 1);
                            }
                            return Err(e);
                        },
                        Ok(entry) => {
                            entries.push(entry);
                            assert(array_model(entries@) =~= before.push(entry@));
                        },
                    }
                    i = i + 1;
                }
                Ok(Entry::Array(Array(entries)))
            },
            Decoded::Table(pairs) => {
                let mut table: Vec<(Vec<u8>, Entry)> = Vec::new();
                let mut i: usize = 0;
                assert(table_model(table@) =~= Seq::<(Seq<u8>, EntryModel)>::empty());
                while i < pairs.len()
                    invariant
                        i <= pairs@.len(),
                        value@ matches DecodedModel::Table(list) && list == crate::shape::pairs_model(
                            pairs@,
                        ),
                        built_pairs(crate::shape::pairs_model(pairs@), i as nat) == Ok::<
                            Seq<(Seq<u8>, EntryModel)>,
                            Seq<char>,
                        >(table_model(table@)),
                    decreases pairs@.len() - i,
                {
                    match Entry::build(&pairs[i].1) {
                        Err(e) => {
                            proof {
                                lemma_built_pairs_error(crate::shape::pairs_model(pairs@), i as nat + 1);
                            }
                            return Err(e);
                        },
                        Ok(entry) => {
                            insert(&mut table, pairs[i].0.clone(), entry);
                        },
                    }
                    i = i + 1;
                }
                proof {
                    lemma_built_pairs_unique(crate::shape::pairs_model(pairs@), pairs@.len() as nat);
                }
                Ok(Entry::Table(Table::from_distinct(table)))
            },
            Decoded::Unit => Err(
                VdfError::Other(
                    "invalid type: unit value, expected any string like value or group".to_owned(),
                ),
            ),
            Decoded::Variant(_, _) => Err(
                VdfError::Other("invalid type: enum, expected any string like value or group".to_owned()),
            ),
            _ => Err(
                VdfError::Other(
                    "invalid type: Option value, expected any string like value or group".to_owned(),
                ),
            ),
        }
    }
}

/// In the entries built from the first `n` of a list of decoded values, no table
/// has a key twice.
pub proof fn lemma_built_items_unique(items: Seq<DecodedModel>, n: nat)
    ensures
        built_items(items, n) matches Ok(entries) ==> forall|i: int|
            0 <= i < entries.len() ==> entry_unique(#[trigger] entries[i]),
    decreases items, n,
{
    if !(n == 0 || n > items.len()) {
        lemma_built_items_unique(items, (n - 1) as nat);
        lemma_built_unique(items[n - 1]);
    }
}

/// In the table built from the first `n` of a list of keys with decoded values,
/// no table has a key twice.
pub proof fn lemma_built_pairs_unique(pairs: Seq<(Seq<u8>, DecodedModel)>, n: nat)
    ensures
        built_pairs(pairs, n) matches Ok(table) ==> entry_unique(EntryModel::Table(table)),
    decreases pairs, n,
{
    if !(n == 0 || n > pairs.len()) {
        lemma_built_pairs_unique(pairs, (n - 1) as nat);
        lemma_built_unique(pairs[n - 1].1);
        match (built_pairs(pairs, (n - 1) as nat), built(pairs[n - 1].1)) {
            (Ok(table), Ok(entry)) => {
                lemma_inserted_entry_unique(table, pairs[n - 1].0, entry);
            },
            _ => {},
        }
    }
}

/// In an entry that was built, no table has a key twice.
pub proof fn lemma_built_unique(value: DecodedModel)
    ensures
        built(value) matches Ok(entry) ==> entry_unique(entry),
    decreases value, 0nat,
{
    match value {
        DecodedModel::List(items) => {
            lemma_built_items_unique(items, items.len());
        },
        DecodedModel::Table(pairs) => {
            lemma_built_pairs_unique(pairs, pairs.len());
        },
        _ => {},
    }
}

/// An error among the first `n` items is an error among all of them.
pub proof fn lemma_built_items_error(items: Seq<DecodedModel>, n: nat)
    requires
        n <= items.len(),
        built_items(items, n) is Err,
    ensures
        built_items(items, items.len()) == built_items(items, n),
    decreases items.len() - n,
{
    if n < items.len() {
        lemma_built_items_error(items, n + 1);
    }
}

/// An error among the first `n` pairs is an error among all of them.
pub proof fn lemma_built_pairs_error(pairs: Seq<(Seq<u8>, DecodedModel)>, n: nat)
    requires
        n <= pairs.len(),
        built_pairs(pairs, n) is Err,
    ensures
        built_pairs(pairs, pairs.len()) == built_pairs(pairs, n),
    decreases pairs.len() - n,
{
    if n < pairs.len() {
        lemma_built_pairs_error(pairs, n + 1);
    }
}

/// What decoding a text as an entry gives: the text is decoded as a value of any
/// shape, and the entry is built from the value.
pub open spec fn entry_from_text(src: Seq<u8>) -> Result<EntryModel, ErrorModel> {
    match decode(src, Cursor::start(), Shape::Any).result {
        Err(e) => Err(e),
        Ok(value) => built_entry(value),
    }
}

/// What decoding a text as a table gives: the text is decoded as a group of values
/// of any shape, and the table is built from the group.
pub open spec fn table_from_text(src: Seq<u8>) -> Result<Seq<(Seq<u8>, EntryModel)>, ErrorModel> {
    match decode(src, Cursor::start(), Shape::Table(Box::new(Shape::Any))).result {
        Err(e) => Err(e),
        Ok(value) => match built(value) {
            Ok(EntryModel::Table(pairs)) => Ok(pairs),
            Ok(_) => Err(ErrorModel::Other("map"@)),
            Err(message) => Err(ErrorModel::Other(message)),
        },
    }
}

/// What decoding a text as a value gives: the text of its first token.
pub open spec fn value_from_text(src: Seq<u8>) -> Result<Seq<u8>, ErrorModel> {
    match Cursor::start().next_text(src) {
        Ok((text, _)) => Ok(text),
        Err(e) => Err(e),
    }
}

impl Entry {
    /// Decodes a text as an entry.
    pub fn decode_str(s: &str) -> (r: Result<Entry, VdfError>)
        ensures
            entry_result(r) == entry_from_text(s.spec_bytes()),
            r matches Ok(entry) ==> entry_unique(entry@),
    {
        let any = Shape::Any;
        match crate::de::from_str(s, &any) {
            Err(e) => Err(e),
            Ok(value) => Entry::from_decoded(&value),
        }
    }
}

impl Table {
    /// Decodes a text as a table.
    pub fn decode_str(s: &str) -> (r: Result<Table, VdfError>)
        ensures
            crate::entry::table::table_result(r) == table_from_text(s.spec_bytes()),
            r matches Ok(table) ==> entry_unique(EntryModel::Table(table@)),
    {
        let shape = Shape::Table(Box::new(Shape::Any));
        match crate::de::from_str(s, &shape) {
            Err(e) => Err(e),
            Ok(value) => match Entry::from_decoded(&value) {
                Ok(Entry::Table(table)) => Ok(table),
                Ok(_) => Err(VdfError::Other("map".to_owned())),
                Err(e) => Err(e),
            },
        }
    }
}

impl Value {
    /// Decodes a text as a value: its first token must hold a text.
    pub fn decode_str(s: &str) -> (r: Result<Value, VdfError>)
        ensures
            match r {
                Ok(value) => value_from_text(s.spec_bytes()) == Ok::<Seq<u8>, ErrorModel>(value@),
                Err(e) => value_from_text(s.spec_bytes()) == Err::<Seq<u8>, ErrorModel>(e@),
            },
    {
        let mut deserializer = Deserializer::from_str(s);
        match deserializer.read_str() {
            Ok((text, _)) => Ok(Value(text)),
            Err(e) => Err(e),
        }
    }
}

} // verus!
