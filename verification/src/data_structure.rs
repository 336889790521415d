//! JSON objects and arrays, gathered under one roof.

pub use crate::array::{ArrayType, ArrayTypeRef, JsonArray};
pub use crate::object::JsonObject;
pub use crate::value::{FloatBits, Null};
