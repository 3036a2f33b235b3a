//! A DOM and SAX style JSON parser library built around a single shared
//! lexical core.
//!
//! The pipeline turns bytes into Unicode scalars, scalars into spanned
//! tokens, and tokens into either an in-memory value tree (the DOM parser in
//! [`dom`]) or a stream of structural events carrying RFC 6901 pointers (the
//! SAX parser in [`sax`]).  Every stage reports precise input coordinates on
//! failure.
use vstd::prelude::*;

pub mod coords;
pub mod decoders;
pub mod dom;
pub mod errors;
pub mod events;
pub mod lexer;
pub mod parser;
pub mod paths;
pub mod pointer;
pub mod sax;
pub mod text;

verus! {

/// Basic enumeration of different JSON values produced by the DOM parser.
///
/// Numeric values keep the split the lexer makes: integers arrive as `i64`
/// values, while floating point numbers are carried as their validated
/// textual form so that a caller can convert them with whatever precision it
/// needs.
#[derive(Debug, PartialEq)]
pub enum JsonValue {
    /// Map of values; insertion order preserved, duplicate keys permitted
    Object(Vec<(String, JsonValue)>),
    /// Array of values
    Array(Vec<JsonValue>),
    /// Canonical string value
    String(String),
    /// Floating point numeric value, as validated text
    Float(String),
    /// Integer numeric value
    Integer(i64),
    /// Canonical boolean value
    Boolean(bool),
    /// Canonical null value
    Null,
}

} // verus!
