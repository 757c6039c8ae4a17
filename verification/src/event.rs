//! The events that a reader gives, and the items they are made of.

use crate::error::{ErrorModel, VdfError, WrongEventTypeError};
use crate::span::{SourceSpan, Span};
use vstd::prelude::*;
use vstd::std_specs::convert::TryFromSpecImpl;

verus! {

/// Kinds of item.
#[derive(Debug, PartialEq, Eq)]
pub enum Item {
    /// A statement: a token that starts with `#`.
    Statement { content: Vec<u8>, span: Span },
    /// A value.
    Item { content: Vec<u8>, span: Span },
}

/// An item as a mathematical value.
pub enum ItemModel {
    Statement { content: Seq<u8>, span: Span },
    Item { content: Seq<u8>, span: Span },
}

impl ItemModel {
    /// The range of the token that the item was read from.
    pub open spec fn span(self) -> Span {
        match self {
            ItemModel::Statement { span, .. } => span,
            ItemModel::Item { span, .. } => span,
        }
    }

    /// The text of the item.
    pub open spec fn content(self) -> Seq<u8> {
        match self {
            ItemModel::Statement { content, .. } => content,
            ItemModel::Item { content, .. } => content,
        }
    }
}

impl View for Item {
    type V = ItemModel;

    open spec fn view(&self) -> ItemModel {
        match self {
            Item::Statement { content, span } => ItemModel::Statement { content: content@, span: *span },
            Item::Item { content, span } => ItemModel::Item { content: content@, span: *span },
        }
    }
}

impl Clone for Item {
    fn clone(&self) -> (r: Self)
        ensures
            r@ == self@,
    {
        match self {
            Item::Statement { content, span } => Item::Statement { content: content.clone(), span: *span },
            Item::Item { content, span } => Item::Item { content: content.clone(), span: *span },
        }
    }
}

impl Item {
    /// The range of the token that the item was read from.
    pub fn span(&self) -> (r: Span)
        ensures
            r == self@.span(),
    {
        match self {
            Item::Statement { span, .. } => *span,
            Item::Item { span, .. } => *span,
        }
    }

    /// The text of the item, taken out of it.
    pub fn into_content(self) -> (r: Vec<u8>)
        ensures
            r@ == self@.content(),
    {
        match self {
            Item::Statement { content, .. } => content,
            Item::Item { content, .. } => content,
        }
    }

    /// The item itself: its text is its own.
    pub fn into_owned(self) -> (r: Item)
        ensures
            r == self,
    {
        self
    }

    /// The text of the item.
    pub fn as_str(&self) -> (r: &[u8])
        ensures
            r@ == self@.content(),
    {
        match self {
            Item::Statement { content, .. } => content.as_slice(),
            Item::Item { content, .. } => content.as_slice(),
        }
    }
}

/// The kinds of reader event.
#[derive(Clone, Copy, Debug, PartialEq, Eq, Structural)]
pub enum EventType {
    GroupStart,
    GroupEnd,
    Entry,
    ValueContinuation,
}

/// A group with the given name is starting.
#[derive(Debug, PartialEq, Eq)]
pub struct GroupStartEvent {
    pub name: Vec<u8>,
    pub span: Span,
}

/// A group has ended.
#[derive(Clone, Copy, Debug, PartialEq, Eq, Structural)]
pub struct GroupEndEvent {
    pub span: Span,
}

/// A key with its value.
#[derive(Debug, PartialEq, Eq)]
pub struct EntryEvent {
    pub key: Item,
    pub value: Item,
    pub span: Span,
}

/// One more value for the entry before it.
#[derive(Debug, PartialEq, Eq)]
pub struct ValueContinuationEvent {
    pub value: Item,
    pub span: Span,
}

/// Reader event.
#[derive(Debug, PartialEq, Eq)]
pub enum Event {
    /// A group with the given name is starting.
    GroupStart(GroupStartEvent),
    /// A group has ended.
    GroupEnd(GroupEndEvent),
    /// An entry.
    Entry(EntryEvent),
    /// An additional value for the previous entry.
    ValueContinuation(ValueContinuationEvent),
}

/// A reader event as a mathematical value.
pub enum EventModel {
    GroupStart { name: Seq<u8>, span: Span },
    GroupEnd { span: Span },
    Entry { key: ItemModel, value: ItemModel, span: Span },
    ValueContinuation { value: ItemModel, span: Span },
}

impl EventModel {
    /// The range of source text that the event was read from.
    pub open spec fn span(self) -> Span {
        match self {
            EventModel::GroupStart { span, .. } => span,
            EventModel::GroupEnd { span } => span,
            EventModel::Entry { span, .. } => span,
            EventModel::ValueContinuation { span, .. } => span,
        }
    }

    /// The kind of the event.
    pub open spec fn ty(self) -> EventType {
        match self {
            EventModel::GroupStart { .. } => EventType::GroupStart,
            EventModel::GroupEnd { .. } => EventType::GroupEnd,
            EventModel::Entry { .. } => EventType::Entry,
            EventModel::ValueContinuation { .. } => EventType::ValueContinuation,
        }
    }
}

impl View for Event {
    type V = EventModel;

    open spec fn view(&self) -> EventModel {
        match self {
            Event::GroupStart(e) => EventModel::GroupStart { name: e.name@, span: e.span },
            Event::GroupEnd(e) => EventModel::GroupEnd { span: e.span },
            Event::Entry(e) => EventModel::Entry { key: e.key@, value: e.value@, span: e.span },
            Event::ValueContinuation(e) => EventModel::ValueContinuation { value: e.value@, span: e.span },
        }
    }
}

impl Clone for Event {
    fn clone(&self) -> (r: Self)
        ensures
            r@ == self@,
    {
        match self {
            Event::GroupStart(e) => Event::GroupStart(GroupStartEvent { name: e.name.clone(), span: e.span }),
            Event::GroupEnd(e) => Event::GroupEnd(GroupEndEvent { span: e.span }),
            Event::Entry(e) => Event::Entry(
                EntryEvent { key: e.key.clone(), value: e.value.clone(), span: e.span },
            ),
            Event::ValueContinuation(e) => Event::ValueContinuation(
                ValueContinuationEvent { value: e.value.clone(), span: e.span },
            ),
        }
    }
}

impl Event {
    /// The range of source text that the event was read from.
    pub fn span(&self) -> (r: Span)
        ensures
            r == self@.span(),
    {
        match self {
            Event::GroupStart(e) => e.span,
            Event::GroupEnd(e) => e.span,
            Event::Entry(e) => e.span,
            Event::ValueContinuation(e) => e.span,
        }
    }

    /// The event itself: its texts are its own.
    pub fn into_owned(self) -> (r: Event)
        ensures
            r == self,
    {
        self
    }

    /// The kind of the event.
    pub fn ty(&self) -> (r: EventType)
        ensures
            r == self@.ty(),
    {
        match self {
            Event::GroupStart(_) => EventType::GroupStart,
            Event::GroupEnd(_) => EventType::GroupEnd,
            Event::Entry(_) => EventType::Entry,
            Event::ValueContinuation(_) => EventType::ValueContinuation,
        }
    }
}

impl GroupStartEvent {
    /// The event itself: its name is its own.
    pub fn into_owned(self) -> (r: GroupStartEvent)
        ensures
            r == self,
    {
        self
    }
}

impl EntryEvent {
    /// The event itself: its texts are its own.
    pub fn into_owned(self) -> (r: EntryEvent)
        ensures
            r == self,
    {
        self
    }
}

impl ValueContinuationEvent {
    /// The event itself: its text is its own.
    pub fn into_owned(self) -> (r: ValueContinuationEvent)
        ensures
            r == self,
    {
        self
    }
}

/// The name of a kind of event, as errors give it.
pub open spec fn kind_name(ty: EventType) -> Seq<char> {
    match ty {
        EventType::GroupStart => "group start"@,
        EventType::GroupEnd => "group end"@,
        EventType::Entry => "entry"@,
        EventType::ValueContinuation => "value continuation"@,
    }
}

/// The error for an event that is not of the kind asked for: it names both kinds,
/// holds the event and points at it, without a source text.
pub open spec fn wrong_kind(event: EventModel, expected: EventType) -> ErrorModel {
    ErrorModel::WrongEntryType {
        expected: kind_name(expected),
        got: kind_name(event.ty()),
        event,
        span: SourceSpan::of(event.span()),
        src: Seq::empty(),
    }
}

fn name_of_kind(ty: EventType) -> (r: &'static str)
    ensures
        r@ == kind_name(ty),
{
    match ty {
        EventType::GroupStart => "group start",
        EventType::GroupEnd => "group end",
        EventType::Entry => "entry",
        EventType::ValueContinuation => "value continuation",
    }
}

fn wrong_kind_error(event: Event, expected: EventType) -> (r: VdfError)
    ensures
        r@ == wrong_kind(event@, expected),
{
    let got = name_of_kind(event.ty());
    VdfError::WrongEntryType(Box::new(WrongEventTypeError::new(event, name_of_kind(expected), got)))
}

impl TryFrom<Event> for GroupStartEvent {
    type Error = VdfError;

    /// The start of a group that the event is, or the error that says what it is
    /// instead.
    fn try_from(event: Event) -> (r: Result<Self, VdfError>)
        ensures
            match r {
                Ok(e) => event@ == (EventModel::GroupStart { name: e.name@, span: e.span }),
                Err(e) => !(event@ is GroupStart) && e@ == wrong_kind(event@, EventType::GroupStart),
            },
    {
        match event {
            Event::GroupStart(event) => Ok(event),
            other => Err(wrong_kind_error(other, EventType::GroupStart)),
        }
    }
}

impl TryFromSpecImpl<Event> for GroupStartEvent {
    open spec fn obeys_try_from_spec() -> bool {
        false
    }

    open spec fn try_from_spec(v: Event) -> Result<Self, VdfError> {
        arbitrary()
    }
}

impl TryFrom<Event> for GroupEndEvent {
    type Error = VdfError;

    /// The end of a group that the event is, or the error that says what it is
    /// instead.
    fn try_from(event: Event) -> (r: Result<Self, VdfError>)
        ensures
            match r {
                Ok(e) => event@ == (EventModel::GroupEnd { span: e.span }),
                Err(e) => !(event@ is GroupEnd) && e@ == wrong_kind(event@, EventType::GroupEnd),
            },
    {
        match event {
            Event::GroupEnd(event) => Ok(event),
            other => Err(wrong_kind_error(other, EventType::GroupEnd)),
        }
    }
}

impl TryFromSpecImpl<Event> for GroupEndEvent {
    open spec fn obeys_try_from_spec() -> bool {
        false
    }

    open spec fn try_from_spec(v: Event) -> Result<Self, VdfError> {
        arbitrary()
    }
}

impl TryFrom<Event> for EntryEvent {
    type Error = VdfError;

    /// The entry that the event is, or the error that says what it is instead.
    fn try_from(event: Event) -> (r: Result<Self, VdfError>)
        ensures
            match r {
                Ok(e) => event@ == (EventModel::Entry { key: e.key@, value: e.value@, span: e.span }),
                Err(e) => !(event@ is Entry) && e@ == wrong_kind(event@, EventType::Entry),
            },
    {
        match event {
            Event::Entry(event) => Ok(event),
            other => Err(wrong_kind_error(other, EventType::Entry)),
        }
    }
}

impl TryFromSpecImpl<Event> for EntryEvent {
    open spec fn obeys_try_from_spec() -> bool {
        false
    }

    open spec fn try_from_spec(v: Event) -> Result<Self, VdfError> {
        arbitrary()
    }
}

} // verus!
