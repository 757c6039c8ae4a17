//! Tables of entries, and loading a table from a reader.

use super::array::words_from;
use super::{
    array_model, clone_pairs, is_array_text, string_is_array, table_model, Array, Entry,
    EntryModel, Statement, Value,
};
use crate::error::{ErrorModel, VdfError};
use crate::event::{Event, EventModel, Item};
use crate::reader::{next_event, state_after_event, Reader, ReaderState};
use crate::text;
use vstd::prelude::*;
use vstd::std_specs::cmp::PartialEqSpecImpl;
use vstd::std_specs::convert::FromSpecImpl;
use vstd::string::StringSliceAdditionalSpecFns;

verus! {

/// A table of entries: a mapping from keys to entries. No key occurs twice. The
/// pairs are held in the order in which the keys were first inserted, and the
/// order does not count where two tables are compared.
#[derive(Debug)]
pub struct Table(Vec<(Vec<u8>, Entry)>);

impl Table {
    #[verifier::type_invariant]
    spec fn distinct_keys(self) -> bool {
        forall|i: int, j: int| 0 <= i < j < self.0@.len() ==> self.0@[i].0@ != self.0@[j].0@
    }

    /// The keys with their entries, as a mathematical value.
    pub closed spec fn model(self) -> Seq<(Seq<u8>, EntryModel)>
        decreases self, 2int,
    {
        table_model(self.0@)
    }
}

impl View for Table {
    type V = Seq<(Seq<u8>, EntryModel)>;

    open spec fn view(&self) -> Seq<(Seq<u8>, EntryModel)> {
        self.model()
    }
}

impl Clone for Table {
    fn clone(&self) -> (r: Self)
        ensures
            r@ == self@,
    {
        Table::from_distinct(clone_pairs(self.pairs()))
    }
}

/// Whether no key occurs twice among the pairs.
pub open spec fn keys_unique(pairs: Seq<(Seq<u8>, EntryModel)>) -> bool {
    forall|i: int, j: int| 0 <= i < j < pairs.len() ==> pairs[i].0 != pairs[j].0
}

/// The position of the first pair with the given key; the number of pairs where
/// there is none.
pub open spec fn key_index(pairs: Seq<(Seq<u8>, EntryModel)>, key: Seq<u8>) -> int
    decreases pairs.len(),
{
    if pairs.len() == 0 {
        0
    } else if pairs[0].0 == key {
        0
    } else {
        1 + key_index(pairs.skip(1), key)
    }
}

/// `key_index` gives the first position that holds the key.
pub proof fn lemma_key_index(pairs: Seq<(Seq<u8>, EntryModel)>, key: Seq<u8>)
    ensures
        0 <= key_index(pairs, key) <= pairs.len(),
        key_index(pairs, key) < pairs.len() ==> pairs[key_index(pairs, key)].0 == key,
        forall|j: int| 0 <= j < key_index(pairs, key) ==> pairs[j].0 != key,
    decreases pairs.len(),
{
    if pairs.len() > 0 && pairs[0].0 != key {
        lemma_key_index(pairs.skip(1), key);
        assert forall|j: int| 0 <= j < key_index(pairs, key) implies pairs[j].0 != key by {
            if j > 0 {
                assert(pairs.skip(1)[j - 1] == pairs[j]);
            }
        }
    }
}

/// A position that holds the key, with no earlier one that does, is what
/// `key_index` gives; so is the number of pairs where no position holds it.
pub proof fn lemma_key_index_is(pairs: Seq<(Seq<u8>, EntryModel)>, key: Seq<u8>, i: int)
    requires
        0 <= i <= pairs.len(),
        forall|j: int| 0 <= j < i ==> pairs[j].0 != key,
        i < pairs.len() ==> pairs[i].0 == key,
    ensures
        key_index(pairs, key) == i,
{
    lemma_key_index(pairs, key);
}

/// The pairs after `value` was inserted under `key`. A new key goes to the end.
/// Under a key that is there, an array takes the value as one more entry; any
/// other entry becomes an array of itself and the value.
pub open spec fn inserted(pairs: Seq<(Seq<u8>, EntryModel)>, key: Seq<u8>, value: EntryModel) -> Seq<
    (Seq<u8>, EntryModel),
> {
    let i = key_index(pairs, key);
    if i >= pairs.len() {
        pairs.push((key, value))
    } else {
        match pairs[i].1 {
            EntryModel::Array(entries) => pairs.update(i, (key, EntryModel::Array(entries.push(value)))),
            other => pairs.update(i, (key, EntryModel::Array(seq![other, value]))),
        }
    }
}

/// Inserting keeps the keys distinct, and never leaves an empty array behind.
pub proof fn lemma_inserted_unique(pairs: Seq<(Seq<u8>, EntryModel)>, key: Seq<u8>, value: EntryModel)
    requires
        keys_unique(pairs),
    ensures
        keys_unique(inserted(pairs, key, value)),
        inserted(pairs, key, value).len() >= pairs.len(),
        key_index(inserted(pairs, key, value), key) < inserted(pairs, key, value).len(),
        key_index(pairs, key) < pairs.len() ==> (inserted(pairs, key, value)[key_index(pairs, key)].1
            matches EntryModel::Array(entries) && entries.len() >= 1),
{
    lemma_key_index(pairs, key);
    let after = inserted(pairs, key, value);
    let i = key_index(pairs, key);
    lemma_key_index_is(after, key, i);
}

fn find_key(map: &Vec<(Vec<u8>, Entry)>, key: &[u8]) -> (i: usize)
    ensures
        i == key_index(table_model(map@), key@),
        i <= map@.len(),
{
    let mut i: usize = 0;
    while i < map.len()
        invariant
            i <= map@.len(),
            forall|j: int| 0 <= j < i ==> table_model(map@)[j].0 != key@,
        decreases map@.len() - i,
    {
        if text::same(map[i].0.as_slice(), key) {
            proof {
                lemma_key_index_is(table_model(map@), key@, i as int);
            }
            return i;
        }
        i = i + 1;
    }
    proof {
        lemma_key_index_is(table_model(map@), key@, i as int);
    }
    i
}

/// Inserts `value` under `key`. Where the key is there already, its entry becomes
/// an array, or grows by one where it is one.
pub fn insert(map: &mut Vec<(Vec<u8>, Entry)>, key: Vec<u8>, value: Entry)
    ensures
        table_model(final(map)@) == inserted(table_model(old(map)@), key@, value@),
{
    let i = find_key(map, key.as_slice());
    if i >= map.len() {
        map.push((key, value));
    } else {
        let (_, old_value) = map.remove(i);
        match old_value {
            Entry::Array(mut array) => {
                array.push(value);
                map.insert(i, (key, Entry::Array(array)));
            },
            other => {
                let ghost other_model = other@;
                let mut entries: Vec<Entry> = Vec::new();
                entries.push(other);
                entries.push(value);
                assert(array_model(entries@) =~= seq![other_model, value@]);
                map.insert(i, (key, Entry::Array(Array(entries))));
            },
        }
    }
}

/// The pairs after the first `n` of `pairs` were inserted, each under its key, into
/// an empty table.
pub open spec fn inserted_all(pairs: Seq<(Seq<u8>, EntryModel)>, n: nat) -> Seq<(Seq<u8>, EntryModel)>
    decreases n,
{
    if n == 0 || n > pairs.len() {
        Seq::empty()
    } else {
        inserted(inserted_all(pairs, (n - 1) as nat), pairs[n - 1].0, pairs[n - 1].1)
    }
}

/// Pairs with distinct keys have models with distinct keys.
proof fn lemma_unique(pairs: Seq<(Vec<u8>, Entry)>)
    requires
        forall|i: int, j: int| 0 <= i < j < pairs.len() ==> pairs[i].0@ != pairs[j].0@,
    ensures
        keys_unique(table_model(pairs)),
{
    assert forall|i: int, j: int| 0 <= i < j < pairs.len() implies table_model(pairs)[i].0
        != table_model(pairs)[j].0 by {
    }
}

/// Pairs whose models have distinct keys have distinct keys.
proof fn lemma_distinct(pairs: Seq<(Vec<u8>, Entry)>)
    requires
        keys_unique(table_model(pairs)),
    ensures
        forall|i: int, j: int| 0 <= i < j < pairs.len() ==> pairs[i].0@ != pairs[j].0@,
{
    assert forall|i: int, j: int| 0 <= i < j < pairs.len() implies pairs[i].0@ != pairs[j].0@ by {
        assert(table_model(pairs)[i].0 == pairs[i].0@);
        assert(table_model(pairs)[j].0 == pairs[j].0@);
    }
}

impl Table {
    /// The table without entries.
    pub fn new() -> (r: Table)
        ensures
            r@ == Seq::<(Seq<u8>, EntryModel)>::empty(),
    {
        let table = Table(Vec::new());
        table
    }

    /// The table of pairs that have distinct keys.
    pub(crate) fn from_distinct(pairs: Vec<(Vec<u8>, Entry)>) -> (r: Table)
        requires
            keys_unique(table_model(pairs@)),
        ensures
            r@ == table_model(pairs@),
    {
        proof {
            lemma_distinct(pairs@);
        }
        Table(pairs)
    }

    /// The table of the given pairs, each inserted under its key in turn: the
    /// entries under one key make an array.
    pub fn from_pairs(pairs: Vec<(Vec<u8>, Entry)>) -> (r: Table)
        ensures
            r@ == inserted_all(table_model(pairs@), pairs@.len() as nat),
            keys_unique(r@),
    {
        let ghost all = table_model(pairs@);
        let mut rest = pairs;
        let mut map: Vec<(Vec<u8>, Entry)> = Vec::new();
        assert(table_model(rest@) =~= all.skip(0));
        assert(table_model(map@) =~= Seq::<(Seq<u8>, EntryModel)>::empty());
        while rest.len() > 0
            invariant
                rest@.len() <= all.len(),
                table_model(rest@) == all.skip(all.len() - rest@.len()),
                table_model(map@) == inserted_all(all, (all.len() - rest@.len()) as nat),
                keys_unique(table_model(map@)),
            decreases rest@.len(),
        {
            let ghost before = table_model(rest@);
            let ghost held = rest@;
            let ghost so_far = table_model(map@);
            let (key, entry) = rest.remove(0);
            proof {
                assert(before[0] == (key@, entry@));
                lemma_inserted_unique(so_far, key@, entry@);
                assert forall|k: int| 0 <= k < rest@.len() implies table_model(rest@)[k] == before[k
                    + 1] by {
                    assert(rest@[k] == held[k + 1]);
                }
                assert(table_model(rest@) =~= all.skip(all.len() - rest@.len()));
            }
            insert(&mut map, key, entry);
        }
        Table::from_distinct(map)
    }

    /// The pairs of the table, in the order in which they are held.
    pub fn pairs(&self) -> (r: &Vec<(Vec<u8>, Entry)>)
        ensures
            table_model(r@) == self@,
            keys_unique(self@),
            decreases_to!(*self => *r),
    {
        proof {
            use_type_invariant(self);
            lemma_unique(self.0@);
        }
        &self.0
    }

    /// The pairs of the table, taken out of it.
    pub fn into_pairs(self) -> (r: Vec<(Vec<u8>, Entry)>)
        ensures
            table_model(r@) == self@,
            keys_unique(self@),
    {
        proof {
            use_type_invariant(&self);
            lemma_unique(self.0@);
        }
        self.0
    }

    /// The number of keys.
    pub fn len(&self) -> (r: usize)
        ensures
            r == self@.len(),
    {
        self.0.len()
    }

    /// The entry under `key`, where there is one.
    pub fn get(&self, key: &[u8]) -> (r: Option<&Entry>)
        ensures
            match r {
                Some(entry) => key_index(self@, key@) < self@.len() && entry@ == self@[key_index(
                    self@,
                    key@,
                )].1,
                None => key_index(self@, key@) >= self@.len(),
            },
    {
        let i = find_key(&self.0, key);
        if i < self.0.len() {
            Some(&self.0[i].1)
        } else {
            None
        }
    }

    /// Inserts `value` under `key`; see [`insert`].
    pub fn insert(&mut self, key: Vec<u8>, value: Entry)
        ensures
            final(self)@ == inserted(old(self)@, key@, value@),
            keys_unique(final(self)@),
    {
        proof {
            use_type_invariant(&*self);
            lemma_unique(self.0@);
            lemma_inserted_unique(self@, key@, value@);
        }
        let mut pairs: Vec<(Vec<u8>, Entry)> = Vec::new();
        core::mem::swap(&mut pairs, &mut self.0);
        insert(&mut pairs, key, value);
        proof {
            lemma_distinct(pairs@);
        }
        self.0 = pairs;
    }
}

/// The entry that a value makes under a key. Under a statement, a statement.
/// Under an item, the array of the words between the brackets where the text has
/// the shape of an array, else a value.
pub open spec fn entry_for(key_is_statement: bool, value: Seq<u8>) -> EntryModel {
    if key_is_statement {
        EntryModel::Statement(value)
    } else if is_array_text(value) {
        EntryModel::Array(words_from(value.subrange(1, value.len() - 1), 0))
    } else {
        EntryModel::Value(value)
    }
}

/// What loading a table gives: the pairs of the table or the error, and where the
/// reader stands after it.
pub struct Loaded {
    pub result: Result<Seq<(Seq<u8>, EntryModel)>, ErrorModel>,
    pub state: ReaderState,
}

/// The table that a reader in state `s` loads, given the pairs `pairs` loaded so
/// far and the key of the entry read last, with whether it is a statement. Events
/// are taken until the text or the group ends. An entry is inserted under its
/// key, and one more value under the key before it. A group is loaded as a table
/// of its own and inserted under its name. The first error ends the loading.
///
/// The reader moves forward with every event, and a group ends after it starts; the
/// tests on positions only show that this definition is well-founded.
pub open spec fn load_from(
    src: Seq<u8>,
    s: ReaderState,
    pairs: Seq<(Seq<u8>, EntryModel)>,
    last_key: Option<(Seq<u8>, bool)>,
) -> Loaded
    decreases src.len() - s.lex.pos,
{
    let after = state_after_event(src, s);
    match next_event(src, s) {
        None => Loaded { result: Ok(pairs), state: after },
        Some(Err(e)) => Loaded { result: Err(e), state: after },
        Some(Ok(event)) => if !(s.lex.pos < after.lex.pos <= src.len()) {
            Loaded { result: Ok(pairs), state: after }
        } else {
            match event {
                EventModel::GroupEnd { .. } => Loaded { result: Ok(pairs), state: after },
                EventModel::Entry { key, value, .. } => load_from(
                    src,
                    after,
                    inserted(pairs, key.content(), entry_for(key is Statement, value.content())),
                    Some((key.content(), key is Statement)),
                ),
                EventModel::ValueContinuation { value, .. } => match last_key {
                    Some((key, is_statement)) => load_from(
                        src,
                        after,
                        inserted(pairs, key, entry_for(is_statement, value.content())),
                        last_key,
                    ),
                    None => load_from(src, after, pairs, last_key),
                },
                EventModel::GroupStart { name, .. } => {
                    let group = load_from(src, after, Seq::empty(), None);
                    match group.result {
                        Err(e) => group,
                        Ok(inner) => if !(after.lex.pos <= group.state.lex.pos <= src.len()) {
                            Loaded { result: Ok(pairs), state: group.state }
                        } else {
                            load_from(
                                src,
                                group.state,
                                inserted(pairs, name, EntryModel::Table(inner)),
                                None,
                            )
                        },
                    }
                },
            }
        },
    }
}

/// Whether, in an entry and in all that it holds, no table has a key twice.
pub open spec fn entry_unique(entry: EntryModel) -> bool
    decreases entry,
{
    match entry {
        EntryModel::Table(pairs) => keys_unique(pairs) && forall|i: int|
            0 <= i < pairs.len() ==> entry_unique(#[trigger] pairs[i].1),
        EntryModel::Array(entries) => forall|i: int|
            0 <= i < entries.len() ==> entry_unique(#[trigger] entries[i]),
        _ => true,
    }
}

/// Inserting an entry in whose tables no key occurs twice keeps the table such.
pub proof fn lemma_inserted_entry_unique(pairs: Seq<(Seq<u8>, EntryModel)>, key: Seq<u8>, value: EntryModel)
    requires
        entry_unique(EntryModel::Table(pairs)),
        entry_unique(value),
    ensures
        entry_unique(EntryModel::Table(inserted(pairs, key, value))),
{
    lemma_inserted_unique(pairs, key, value);
    lemma_key_index(pairs, key);
    let after = inserted(pairs, key, value);
    let i = key_index(pairs, key);
    assert forall|j: int| 0 <= j < after.len() implies entry_unique(#[trigger] after[j].1) by {
        if j == i {
            if i < pairs.len() {
                assert(entry_unique(pairs[i].1));
                match pairs[i].1 {
                    EntryModel::Array(entries) => {
                        assert forall|k: int| 0 <= k < entries.push(value).len() implies entry_unique(
                            #[trigger] entries.push(value)[k],
                        ) by {
                            if k < entries.len() {
                            }
                        }
                    },
                    other => {
                        let both = seq![other, value];
                        assert forall|k: int| 0 <= k < both.len() implies entry_unique(
                            #[trigger] both[k],
                        ) by {}
                    },
                }
            }
        } else {
        }
    }
}

/// In what `words_from` gives, every entry is a value.
pub proof fn lemma_words_are_values(s: Seq<u8>, pos: int)
    ensures
        forall|i: int|
            0 <= i < words_from(s, pos).len() ==> (#[trigger] words_from(s, pos)[i]) is Value,
    decreases s.len() - pos,
{
    if 0 <= pos < s.len() {
        if s[pos] == crate::lexer::SPACE {
            lemma_words_are_values(s, pos + 1);
        } else {
            super::array::lemma_word_end_bounds(s, pos);
            lemma_words_are_values(s, super::array::word_end(s, pos));
        }
    }
}

/// A table that was loaded has no key twice, nor has any table in it.
pub proof fn lemma_load_unique(
    src: Seq<u8>,
    s: ReaderState,
    pairs: Seq<(Seq<u8>, EntryModel)>,
    last_key: Option<(Seq<u8>, bool)>,
)
    requires
        entry_unique(EntryModel::Table(pairs)),
    ensures
        load_from(src, s, pairs, last_key).result matches Ok(table) ==> entry_unique(
            EntryModel::Table(table),
        ),
    decreases src.len() - s.lex.pos,
{
    let after = state_after_event(src, s);
    match next_event(src, s) {
        Some(Ok(event)) => if s.lex.pos < after.lex.pos <= src.len() {
            match event {
                EventModel::GroupEnd { .. } => {},
                EventModel::Entry { key, value, .. } => {
                    let entry = entry_for(key is Statement, value.content());
                    lemma_entry_for_unique(key is Statement, value.content());
                    lemma_inserted_entry_unique(pairs, key.content(), entry);
                    lemma_load_unique(
                        src,
                        after,
                        inserted(pairs, key.content(), entry),
                        Some((key.content(), key is Statement)),
                    );
                },
                EventModel::ValueContinuation { value, .. } => match last_key {
                    Some((key, is_statement)) => {
                        let entry = entry_for(is_statement, value.content());
                        lemma_entry_for_unique(is_statement, value.content());
                        lemma_inserted_entry_unique(pairs, key, entry);
                        lemma_load_unique(src, after, inserted(pairs, key, entry), last_key);
                    },
                    None => {
                        lemma_load_unique(src, after, pairs, last_key);
                    },
                },
                EventModel::GroupStart { name, .. } => {
                    lemma_load_unique(src, after, Seq::empty(), None);
                    let group = load_from(src, after, Seq::empty(), None);
                    match group.result {
                        Err(e) => {},
                        Ok(inner) => if after.lex.pos <= group.state.lex.pos <= src.len() {
                            lemma_inserted_entry_unique(pairs, name, EntryModel::Table(inner));
                            lemma_load_unique(
                                src,
                                group.state,
                                inserted(pairs, name, EntryModel::Table(inner)),
                                None,
                            );
                        },
                    }
                },
            }
        },
        _ => {},
    }
}

/// The entry that a value makes holds no table.
pub proof fn lemma_entry_for_unique(key_is_statement: bool, value: Seq<u8>)
    ensures
        entry_unique(entry_for(key_is_statement, value)),
{
    if !key_is_statement && is_array_text(value) {
        let words = words_from(value.subrange(1, value.len() - 1), 0);
        lemma_words_are_values(value.subrange(1, value.len() - 1), 0);
        assert forall|i: int| 0 <= i < words.len() implies entry_unique(#[trigger] words[i]) by {
        }
    }
}

/// The view of what loading gives.
pub open spec fn table_result(r: Result<Table, VdfError>) -> Result<Seq<(Seq<u8>, EntryModel)>, ErrorModel> {
    match r {
        Ok(table) => Ok(table@),
        Err(e) => Err(e@),
    }
}

fn entry_for_value(key_is_statement: bool, value: Vec<u8>) -> (r: Entry)
    ensures
        r@ == entry_for(key_is_statement, value@),
{
    if key_is_statement {
        Entry::Statement(Statement(value))
    } else if string_is_array(value.as_slice()) {
        let inner = vstd::slice::slice_subrange(value.as_slice(), 1, value.len() - 1);
        Entry::Array(Array::from_space_separated(inner))
    } else {
        Entry::Value(Value(value))
    }
}

impl Table {
    /// Loads a table from a text.
    pub fn load_from_str(input: &str) -> (r: Result<Table, VdfError>)
        ensures
            table_result(r) == load_from(
                input.spec_bytes(),
                Reader::start(),
                Seq::empty(),
                None,
            ).result,
            r matches Ok(table) ==> entry_unique(EntryModel::Table(table@)),
    {
        let mut reader = Reader::from_str(input);
        Table::load(&mut reader)
    }

    /// Loads a table from a reader: up to the end of the text, or to the `}` that
    /// ends the group the reader stands in.
    pub fn load(reader: &mut Reader) -> (r: Result<Table, VdfError>)
        ensures
            table_result(r) == load_from(old(reader).text(), old(reader).state(), Seq::empty(), None).result,
            final(reader).state() == load_from(
                old(reader).text(),
                old(reader).state(),
                Seq::empty(),
                None,
            ).state,
            final(reader).text() == old(reader).text(),
            old(reader).state().lex.pos <= final(reader).state().lex.pos <= old(reader).text().len(),
            r matches Ok(table) ==> entry_unique(EntryModel::Table(table@)),
        decreases old(reader).text().len() - old(reader).state().lex.pos,
    {
        proof {
            lemma_load_unique(old(reader).text(), old(reader).state(), Seq::empty(), None);
        }
        let mut map: Vec<(Vec<u8>, Entry)> = Vec::new();
        let mut last_key: Option<(Vec<u8>, bool)> = None;
        let ghost src = reader.text();
        let ghost start = reader.state();
        let _ = reader.offset();
        assert(table_model(map@) =~= Seq::<(Seq<u8>, EntryModel)>::empty());
        loop
            invariant
                reader.text() == src,
                start.lex.pos <= reader.state().lex.pos <= src.len(),
                old(reader).text() == src,
                old(reader).state() == start,
                load_from(src, start, Seq::empty(), None).result matches Ok(table) ==> entry_unique(
                    EntryModel::Table(table),
                ),
                load_from(src, start, Seq::empty(), None) == load_from(
                    src,
                    reader.state(),
                    table_model(map@),
                    key_model(last_key),
                ),
            decreases src.len() - reader.state().lex.pos,
        {
            let event = match reader.event() {
                None => {
                    return Ok(Table::from_distinct(map));
                },
                Some(Err(e)) => {
                    return Err(e);
                },
                Some(Ok(event)) => event,
            };
            match event {
                Event::GroupEnd(_) => {
                    return Ok(Table::from_distinct(map));
                },
                Event::Entry(entry) => {
                    let is_statement = match &entry.key {
                        Item::Statement { .. } => true,
                        Item::Item { .. } => false,
                    };
                    let key = entry.key.into_content();
                    let value = entry_for_value(is_statement, entry.value.into_content());
                    last_key = Some((key.clone(), is_statement));
                    insert(&mut map, key, value);
                },
                Event::ValueContinuation(more) => {
                    match &last_key {
                        Some((key, is_statement)) => {
                            let value = entry_for_value(*is_statement, more.value.into_content());
                            insert(&mut map, key.clone(), value);
                        },
                        None => {},
                    }
                },
                Event::GroupStart(group) => {
                    let inner = match Table::load(reader) {
                        Ok(inner) => inner,
                        Err(e) => {
                            return Err(e);
                        },
                    };
                    insert(&mut map, group.name, Entry::Table(inner));
                    last_key = None;
                },
            }
        }
    }
}

/// The view of the key of the entry read last.
pub open spec fn key_model(key: Option<(Vec<u8>, bool)>) -> Option<(Seq<u8>, bool)> {
    match key {
        Some((key, is_statement)) => Some((key@, is_statement)),
        None => None,
    }
}

impl From<Table> for Entry {
    fn from(table: Table) -> (r: Entry)
        ensures
            r == Entry::Table(table),
    {
        Entry::Table(table)
    }
}

impl FromSpecImpl<Table> for Entry {
    open spec fn obeys_from_spec() -> bool {
        true
    }

    open spec fn from_spec(v: Table) -> Entry {
        Entry::Table(v)
    }
}

impl Default for Table {
    fn default() -> (r: Table)
        ensures
            r@ == Seq::<(Seq<u8>, EntryModel)>::empty(),
    {
        Table::new()
    }
}

/// Whether two entries hold the same: values and statements the same text, arrays
/// the same entries in the same order, tables the same entries under the same
/// keys, in whatever order.
pub open spec fn same_entry(a: EntryModel, b: EntryModel) -> bool
    decreases a, 0int,
{
    match a {
        EntryModel::Table(p) => b matches EntryModel::Table(q) && same_pairs(p, q),
        EntryModel::Array(x) => b matches EntryModel::Array(y) && x.len() == y.len() && forall|i: int|
            0 <= i < x.len() ==> same_entry(#[trigger] x[i], y[i]),
        EntryModel::Value(s) => b matches EntryModel::Value(t) && s == t,
        EntryModel::Statement(s) => b matches EntryModel::Statement(t) && s == t,
    }
}

/// Whether two lists of pairs hold the same as mappings: they are of one length,
/// and under every key of the first the second holds the same entry.
pub open spec fn same_pairs(p: Seq<(Seq<u8>, EntryModel)>, q: Seq<(Seq<u8>, EntryModel)>) -> bool
    decreases p, 1int,
{
    p.len() == q.len() && forall|i: int|
        0 <= i < p.len() ==> key_index(q, (#[trigger] p[i]).0) < q.len() && same_entry(
            p[i].1,
            q[key_index(q, p[i].0)].1,
        )
}

#[verifier::loop_isolation(false)]
fn same_lists(x: &Vec<Entry>, y: &Vec<Entry>) -> (r: bool)
    ensures
        r == (x@.len() == y@.len() && forall|i: int|
            0 <= i < x@.len() ==> same_entry(#[trigger] array_model(x@)[i], array_model(y@)[i])),
    decreases x, 1int,
{
    if x.len() != y.len() {
        return false;
    }
    let mut i: usize = 0;
    while i < x.len()
        invariant
            i <= x@.len(),
            forall|k: int|
                0 <= k < i ==> same_entry(#[trigger] array_model(x@)[k], array_model(y@)[k]),
        decreases x@.len() - i,
    {
        if !same_entries(&x[i], &y[i]) {
            assert(!same_entry(array_model(x@)[i as int], array_model(y@)[i as int]));
            return false;
        }
        i = i + 1;
    }
    true
}

#[verifier::loop_isolation(false)]
fn same_tables(p: &Vec<(Vec<u8>, Entry)>, q: &Vec<(Vec<u8>, Entry)>) -> (r: bool)
    ensures
        r == same_pairs(table_model(p@), table_model(q@)),
    decreases p, 1int,
{
    if p.len() != q.len() {
        return false;
    }
    let mut i: usize = 0;
    while i < p.len()
        invariant
            i <= p@.len(),
            forall|k: int|
                0 <= k < i ==> key_index(table_model(q@), (#[trigger] table_model(p@)[k]).0) < q@.len()
                    && same_entry(
                    table_model(p@)[k].1,
                    table_model(q@)[key_index(table_model(q@), table_model(p@)[k].0)].1,
                ),
        decreases p@.len() - i,
    {
        let j = find_key(q, p[i].0.as_slice());
        if j >= q.len() {
            assert(table_model(p@)[i as int].0 == p@[i as int].0@);
            return false;
        }
        if !same_entries(&p[i].1, &q[j].1) {
            return false;
        }
        i = i + 1;
    }
    true
}

/// Whether two entries hold the same: see `same_entry`.
pub fn same_entries(a: &Entry, b: &Entry) -> (r: bool)
    ensures
        r == same_entry(a@, b@),
    decreases a, 2int,
{
    match (a, b) {
        (Entry::Table(x), Entry::Table(y)) => same_tables(x.pairs(), y.pairs()),
        (Entry::Array(x), Entry::Array(y)) => {
            assert(array_model(x.0@).len() == x.0@.len());
            same_lists(&x.0, &y.0)
        },
        (Entry::Value(x), Entry::Value(y)) => text::same(x.0.as_slice(), y.0.as_slice()),
        (Entry::Statement(x), Entry::Statement(y)) => text::same(x.0.as_slice(), y.0.as_slice()),
        _ => false,
    }
}

impl Table {
    /// Whether two tables hold the same entries under the same keys, in whatever
    /// order.
    pub fn same_entries(&self, other: &Table) -> (r: bool)
        ensures
            r == same_pairs(self@, other@),
    {
        same_tables(self.pairs(), other.pairs())
    }
}

impl PartialEq for Table {
    /// Two tables are equal where they hold the same entries under the same keys.
    fn eq(&self, other: &Table) -> (r: bool) {
        self.same_entries(other)
    }
}

impl PartialEqSpecImpl for Table {
    open spec fn obeys_eq_spec() -> bool {
        true
    }

    open spec fn eq_spec(&self, other: &Table) -> bool {
        same_pairs(self@, other@)
    }
}

impl Eq for Table {

}

} // verus!
