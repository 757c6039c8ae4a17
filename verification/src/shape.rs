//! The shapes that a text can be decoded into, and the values that come out.

use vstd::prelude::*;

verus! {

/// The shape of a value that is asked for.
#[derive(Debug, PartialEq, Eq)]
pub enum Shape {
    /// Whatever the text holds: the shape is inferred from it.
    Any,
    Bool,
    I8,
    I16,
    I32,
    I64,
    U8,
    U16,
    U32,
    U64,
    F32,
    F64,
    /// A text of one character.
    Char,
    /// A text.
    Str,
    /// The empty text.
    Unit,
    /// A value that may be absent.
    Optional(Box<Shape>),
    /// A sequence of values of one shape.
    List(Box<Shape>),
    /// A group of keys with values of one shape.
    Table(Box<Shape>),
    /// A group with named fields, each of a shape of its own. Other keys are read
    /// and dropped.
    Struct(Vec<Field>),
    /// One of several named variants.
    Enum(Vec<Variant>),
}

/// A field of a struct shape.
#[derive(Debug, PartialEq, Eq)]
pub struct Field {
    pub name: Vec<u8>,
    pub shape: Shape,
}

/// A variant of an enum shape: its tag, and the shape of what follows the tag,
/// where something does.
#[derive(Debug, PartialEq, Eq)]
pub struct Variant {
    pub name: Vec<u8>,
    pub payload: Option<Shape>,
}

/// A decoded value.
#[derive(Debug, PartialEq, Eq)]
pub enum Decoded {
    Bool(bool),
    /// An integer of a signed shape, or one that was inferred, with the text that
    /// denotes it.
    Int(i64, Vec<u8>),
    /// An integer of an unsigned shape, with the text that denotes it.
    UInt(u64, Vec<u8>),
    /// A floating-point number, as the text that denotes it.
    Float(Vec<u8>),
    /// A text of one character.
    Char(Vec<u8>),
    Str(Vec<u8>),
    Unit,
    /// An optional value that is not there.
    Absent,
    /// An optional value that is there.
    Present(Box<Decoded>),
    List(Vec<Decoded>),
    /// Keys with their values, in the order in which they were read.
    Table(Vec<(Vec<u8>, Decoded)>),
    /// A variant of an enum: its tag, and what followed it.
    Variant(Vec<u8>, Option<Box<Decoded>>),
}

/// A decoded value as a mathematical value.
pub enum DecodedModel {
    Bool(bool),
    Int(int, Seq<u8>),
    UInt(int, Seq<u8>),
    Float(Seq<u8>),
    Char(Seq<u8>),
    Str(Seq<u8>),
    Unit,
    Absent,
    Present(Box<DecodedModel>),
    List(Seq<DecodedModel>),
    Table(Seq<(Seq<u8>, DecodedModel)>),
    Variant(Seq<u8>, Option<Box<DecodedModel>>),
}

/// The model of a list of decoded values.
pub open spec fn list_model(items: Seq<Decoded>) -> Seq<DecodedModel>
    decreases items, 0int,
{
    Seq::new(
        items.len(),
        |i: int|
            if 0 <= i < items.len() {
                decoded_model(items[i])
            } else {
                DecodedModel::Unit
            },
    )
}

/// The model of a list of keys with decoded values.
pub open spec fn pairs_model(pairs: Seq<(Vec<u8>, Decoded)>) -> Seq<(Seq<u8>, DecodedModel)>
    decreases pairs, 0int,
{
    Seq::new(
        pairs.len(),
        |i: int|
            if 0 <= i < pairs.len() {
                (pairs[i].0@, decoded_model(pairs[i].1))
            } else {
                (Seq::empty(), DecodedModel::Unit)
            },
    )
}

/// The model of a decoded value.
pub open spec fn decoded_model(value: Decoded) -> DecodedModel
    decreases value, 1int,
{
    match value {
        Decoded::Bool(b) => DecodedModel::Bool(b),
        Decoded::Int(v, text) => DecodedModel::Int(v as int, text@),
        Decoded::UInt(v, text) => DecodedModel::UInt(v as int, text@),
        Decoded::Float(text) => DecodedModel::Float(text@),
        Decoded::Char(text) => DecodedModel::Char(text@),
        Decoded::Str(text) => DecodedModel::Str(text@),
        Decoded::Unit => DecodedModel::Unit,
        Decoded::Absent => DecodedModel::Absent,
        Decoded::Present(inner) => DecodedModel::Present(Box::new(decoded_model(*inner))),
        Decoded::List(items) => DecodedModel::List(list_model(items@)),
        Decoded::Table(pairs) => DecodedModel::Table(pairs_model(pairs@)),
        Decoded::Variant(name, payload) => DecodedModel::Variant(
            name@,
            match payload {
                Some(inner) => Some(Box::new(decoded_model(*inner))),
                None => None,
            },
        ),
    }
}

impl View for Decoded {
    type V = DecodedModel;

    open spec fn view(&self) -> DecodedModel {
        decoded_model(*self)
    }
}

/// The names of the variants of an enum shape.
pub open spec fn variant_names(variants: Seq<Variant>) -> Seq<Seq<u8>> {
    Seq::new(variants.len(), |i: int| variants[i].name@)
}

/// The position of the first variant with the given name; the number of variants
/// where there is none.
pub open spec fn variant_index(variants: Seq<Variant>, name: Seq<u8>) -> int
    decreases variants.len(),
{
    if variants.len() == 0 {
        0
    } else if variants[0].name@ == name {
        0
    } else {
        1 + variant_index(variants.skip(1), name)
    }
}

/// The position of the first field with the given name; the number of fields
/// where there is none.
pub open spec fn field_index(fields: Seq<Field>, name: Seq<u8>) -> int
    decreases fields.len(),
{
    if fields.len() == 0 {
        0
    } else if fields[0].name@ == name {
        0
    } else {
        1 + field_index(fields.skip(1), name)
    }
}

/// A position that holds the name, with no earlier one that does, is what
/// `variant_index` gives; so is the number of variants where none holds it.
pub proof fn lemma_variant_index(variants: Seq<Variant>, name: Seq<u8>, i: int)
    requires
        0 <= i <= variants.len(),
        forall|j: int| 0 <= j < i ==> variants[j].name@ != name,
        i < variants.len() ==> variants[i].name@ == name,
    ensures
        variant_index(variants, name) == i,
    decreases variants.len(),
{
    if variants.len() > 0 && variants[0].name@ != name {
        assert forall|j: int| 0 <= j < i - 1 implies variants.skip(1)[j].name@ != name by {
        }
        lemma_variant_index(variants.skip(1), name, i - 1);
    }
}

/// A position that holds the name, with no earlier one that does, is what
/// `field_index` gives; so is the number of fields where none holds it.
pub proof fn lemma_field_index(fields: Seq<Field>, name: Seq<u8>, i: int)
    requires
        0 <= i <= fields.len(),
        forall|j: int| 0 <= j < i ==> fields[j].name@ != name,
        i < fields.len() ==> fields[i].name@ == name,
    ensures
        field_index(fields, name) == i,
    decreases fields.len(),
{
    if fields.len() > 0 && fields[0].name@ != name {
        assert forall|j: int| 0 <= j < i - 1 implies fields.skip(1)[j].name@ != name by {
        }
        lemma_field_index(fields.skip(1), name, i - 1);
    }
}

/// The position of the first variant with the given name.
pub fn find_variant(variants: &Vec<Variant>, name: &[u8]) -> (i: usize)
    ensures
        i == variant_index(variants@, name@),
        i <= variants@.len(),
{
    let mut i: usize = 0;
    while i < variants.len()
        invariant
            i <= variants@.len(),
            forall|j: int| 0 <= j < i ==> variants@[j].name@ != name@,
        decreases variants@.len() - i,
    {
        if crate::text::same(variants[i].name.as_slice(), name) {
            proof {
                lemma_variant_index(variants@, name@, i as int);
            }
            return i;
        }
        i = i + 1;
    }
    proof {
        lemma_variant_index(variants@, name@, i as int);
    }
    i
}

/// The position of the first field with the given name.
pub fn find_field(fields: &Vec<Field>, name: &[u8]) -> (i: usize)
    ensures
        i == field_index(fields@, name@),
        i <= fields@.len(),
{
    let mut i: usize = 0;
    while i < fields.len()
        invariant
            i <= fields@.len(),
            forall|j: int| 0 <= j < i ==> fields@[j].name@ != name@,
        decreases fields@.len() - i,
    {
        if crate::text::same(fields[i].name.as_slice(), name) {
            proof {
                lemma_field_index(fields@, name@, i as int);
            }
            return i;
        }
        i = i + 1;
    }
    proof {
        lemma_field_index(fields@, name@, i as int);
    }
    i
}

/// The names of the variants, each copied.
pub fn names_of(variants: &Vec<Variant>) -> (r: Vec<Vec<u8>>)
    ensures
        crate::error::names_model(r@) == variant_names(variants@),
{
    let mut names: Vec<Vec<u8>> = Vec::new();
    let mut i: usize = 0;
    while i < variants.len()
        invariant
            i <= variants@.len(),
            names@.len() == i,
            forall|j: int| 0 <= j < i ==> names@[j]@ == variants@[j].name@,
        decreases variants@.len() - i,
    {
        names.push(variants[i].name.clone());
        i = i + 1;
    }
    names
}

} // verus!
