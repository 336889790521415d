//! The plain values a JSON container can hold, and the mathematical model
//! of JSON values that the containers' contracts speak of.

use vstd::prelude::*;

verus! {

/// The JSON value `null`. Storing it under a key or at an index says that
/// the value there is `null`, which is not the same as nothing being there.
#[derive(Debug, Clone, Copy, PartialEq, Eq, Structural)]
pub struct Null;

/// A single precision floating point number, held by its bit pattern. The
/// containers store and hand back numbers without ever computing with them.
#[derive(Debug, Clone, Copy, PartialEq, Eq, Structural)]
pub struct FloatBits {
    pub bits: u32,
}

impl FloatBits {
    /// The number with the bit pattern `bits`.
    pub fn from_bits(bits: u32) -> (float: FloatBits)
        ensures
            float.bits == bits,
    {
        FloatBits { bits }
    }

    /// The bit pattern of the number.
    pub fn to_bits(self) -> (bits: u32)
        ensures
            bits == self.bits,
    {
        self.bits
    }
}

/// A JSON value as a mathematical object.
pub enum JsonValue {
    Int(i64),
    Float(FloatBits),
    Bool(bool),
    String(Seq<char>),
    Array(Seq<JsonValue>),
    Object(ObjectView),
    Null,
}

/// A JSON object as a mathematical object: one mapping from keys to values
/// for each kind of value.
pub struct ObjectView {
    pub ints: Map<Seq<char>, i64>,
    pub floats: Map<Seq<char>, FloatBits>,
    pub bools: Map<Seq<char>, bool>,
    pub strings: Map<Seq<char>, Seq<char>>,
    pub arrays: Map<Seq<char>, Seq<JsonValue>>,
    pub objects: Map<Seq<char>, ObjectView>,
    pub nulls: Map<Seq<char>, Null>,
}

impl ObjectView {
    /// The object that holds nothing.
    pub open spec fn empty() -> ObjectView {
        ObjectView {
            ints: Map::empty(),
            floats: Map::empty(),
            bools: Map::empty(),
            strings: Map::empty(),
            arrays: Map::empty(),
            objects: Map::empty(),
            nulls: Map::empty(),
        }
    }
}

} // verus!
