//! Arrays of entries.

use super::{array_model, clone_entries, Entry, EntryModel, Value};
use crate::lexer::SPACE;
use crate::text;
use vstd::prelude::*;
use vstd::std_specs::convert::FromSpecImpl;

verus! {

/// An array of entries: the entries that share a key.
#[derive(Debug, PartialEq, Eq)]
pub struct Array(pub Vec<Entry>);

impl View for Array {
    type V = Seq<EntryModel>;

    open spec fn view(&self) -> Seq<EntryModel> {
        array_model(self.0@)
    }
}

impl Clone for Array {
    fn clone(&self) -> (r: Self)
        ensures
            r@ == self@,
    {
        Array(clone_entries(&self.0))
    }
}

/// The first position at or after `pos` that holds a space, or the end.
pub open spec fn word_end(s: Seq<u8>, pos: int) -> int
    decreases s.len() - pos,
{
    if pos < 0 || pos >= s.len() || s[pos] == SPACE {
        pos
    } else {
        word_end(s, pos + 1)
    }
}

/// A word ends at or after where it starts and within the text, and holds at least
/// the byte it starts with where that is no space.
pub proof fn lemma_word_end_bounds(s: Seq<u8>, pos: int)
    requires
        0 <= pos <= s.len(),
    ensures
        pos <= word_end(s, pos) <= s.len(),
        pos < s.len() && s[pos] != SPACE ==> pos < word_end(s, pos),
    decreases s.len() - pos,
{
    if pos < s.len() && s[pos] != SPACE {
        lemma_word_end_bounds(s, pos + 1);
    }
}

/// The words of `s` from `pos` on: the longest runs of bytes other than a space,
/// each as a value.
pub open spec fn words_from(s: Seq<u8>, pos: int) -> Seq<EntryModel>
    decreases s.len() - pos,
{
    if pos < 0 || pos >= s.len() {
        Seq::empty()
    } else if s[pos] == SPACE {
        words_from(s, pos + 1)
    } else {
        proof {
            lemma_word_end_bounds(s, pos);
        }
        seq![EntryModel::Value(s.subrange(pos, word_end(s, pos)))] + words_from(s, word_end(s, pos))
    }
}

impl Array {
    /// The array of the words of a text, separated by spaces.
    pub fn from_space_separated(text: &[u8]) -> (r: Array)
        ensures
            r@ == words_from(text@, 0),
    {
        let mut items: Vec<Entry> = Vec::new();
        let mut i: usize = 0;
        while i < text.len()
            invariant
                i <= text@.len(),
                words_from(text@, 0) == array_model(items@) + words_from(text@, i as int),
            decreases text@.len() - i,
        {
            if text[i] == SPACE {
                i = i + 1;
            } else {
                let mut end: usize = i + 1;
                while end < text.len() && text[end] != SPACE
                    invariant
                        i < end <= text@.len(),
                        text@[i as int] != SPACE,
                        word_end(text@, i + 1) == word_end(text@, end as int),
                    decreases text@.len() - end,
                {
                    end = end + 1;
                }
                let word = text::to_vec(vstd::slice::slice_subrange(text, i, end));
                items.push(Entry::Value(Value(word)));
                i = end;
            }
        }
        Array(items)
    }

    /// The array of the given entries.
    pub fn from_entries(entries: Vec<Entry>) -> (r: Array)
        ensures
            r@ == array_model(entries@),
    {
        Array(entries)
    }

    /// The array that holds one entry.
    pub fn from_entry(entry: Entry) -> (r: Array)
        ensures
            r@ == seq![entry@],
    {
        let array = Array(vec![entry]);
        array
    }

    /// The number of entries.
    pub fn len(&self) -> (r: usize)
        ensures
            r == self@.len(),
    {
        self.0.len()
    }

    /// The entry at `index`, where there is one.
    pub fn get(&self, index: usize) -> (r: Option<&Entry>)
        ensures
            match r {
                Some(entry) => index < self@.len() && entry@ == self@[index as int],
                None => index >= self@.len(),
            },
    {
        if index < self.0.len() {
            Some(&self.0[index])
        } else {
            None
        }
    }

    /// Adds an entry at the end.
    pub fn push(&mut self, entry: Entry)
        ensures
            final(self)@ == old(self)@.push(entry@),
    {
        self.0.push(entry);
    }

    /// The entries.
    pub fn as_slice(&self) -> (r: &[Entry])
        ensures
            array_model(r@) == self@,
    {
        self.0.as_slice()
    }
}

impl From<Array> for Entry {
    fn from(array: Array) -> (r: Entry)
        ensures
            r == Entry::Array(array),
    {
        Entry::Array(array)
    }
}

impl FromSpecImpl<Array> for Entry {
    open spec fn obeys_from_spec() -> bool {
        true
    }

    open spec fn from_spec(v: Array) -> Entry {
        Entry::Array(v)
    }
}

impl From<Vec<Entry>> for Array {
    fn from(value: Vec<Entry>) -> (r: Array)
        ensures
            r == Array(value),
    {
        Array(value)
    }
}

impl FromSpecImpl<Vec<Entry>> for Array {
    open spec fn obeys_from_spec() -> bool {
        true
    }

    open spec fn from_spec(v: Vec<Entry>) -> Array {
        Array(v)
    }
}

impl From<Entry> for Array {
    /// The array that holds the one entry.
    fn from(value: Entry) -> (r: Array)
        ensures
            r@ == seq![value@],
    {
        Array::from_entry(value)
    }
}

impl FromSpecImpl<Entry> for Array {
    open spec fn obeys_from_spec() -> bool {
        false
    }

    open spec fn from_spec(v: Entry) -> Array {
        arbitrary()
    }
}

impl Default for Array {
    fn default() -> (r: Array)
        ensures
            r@ == Seq::<EntryModel>::empty(),
    {
        let array = Array(Vec::new());
        array
    }
}

} // verus!
