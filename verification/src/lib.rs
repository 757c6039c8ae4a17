//! A reader for the KeyValues text format: nested `key value` pairs with
//! brace-delimited groups, `#` directives and bare or quoted tokens.
//!
//! Text is held as bytes, exactly as it stands in the source; every position
//! is a byte offset.

use vstd::prelude::*;

pub mod cursor;
pub mod de;
pub mod entry;
pub mod error;
pub mod event;
pub mod forms;
pub mod laws;
pub mod lexer;
pub mod parse;
pub mod parser;
pub mod reader;
pub mod scalar;
pub mod shape;
pub mod span;
pub mod steps;
pub mod text;
pub mod tokenizer;
pub mod tree;

pub use cursor::Deserializer;
pub use de::from_str;
pub use error::VdfError;
pub use event::{EntryEvent, Event, GroupEndEvent, GroupStartEvent, Item};
pub use lexer::SpannedToken;
pub use parser::Token;
pub use reader::Reader;
pub use shape::{Decoded, Field, Shape, Variant};
pub use span::{SourceSpan, Span};
pub use tokenizer::Tokenizer;
pub use tree::from_entry;

verus! {

/// What the functions of the library give: a value, or an error of the library.
pub type Result<T, E = VdfError> = std::result::Result<T, E>;

} // verus!
