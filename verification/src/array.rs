//! JSON arrays.
//!
//! An array keeps its values in seven partitions, one for each kind of
//! value. Each stored item remembers its logical index: the position it has
//! in the array as a whole. The logical indices of an array with `n` items
//! are exactly `0, 1, .., n - 1`, and appending, removing and replacing keep
//! it so.

use vstd::prelude::*;
use crate::object::JsonObject;
use crate::partition::{
    below, clone_strings, copies, copy_items, distinct, find_slot, holds, item_at,
    lemma_close_gap, lemma_copies, lemma_push, lemma_same_indices, lemma_slot_unique,
    lemma_take_out, lower_above, lowered, source, stores, ArrayItem,
};
use crate::value::{FloatBits, JsonValue, Null};

verus! {

/// A JSON array: values in a fixed order, partitioned by their kind.
#[derive(Debug)]
pub struct JsonArray<'a> {
    ints: Vec<ArrayItem<i64>>,
    floats: Vec<ArrayItem<FloatBits>>,
    bools: Vec<ArrayItem<bool>>,
    strings: Vec<ArrayItem<String>>,
    arrays: Vec<ArrayItem<JsonArray<'a>>>,
    objects: Vec<ArrayItem<JsonObject<'a>>>,
    nulls: Vec<ArrayItem<Null>>,
    item_count: usize,
}

/// The kinds of value, each of which has a partition of its own.
#[derive(Clone, Copy, PartialEq, Eq, Structural)]
enum ArrayItemType {
    Int,
    Float,
    Bool,
    String,
    Array,
    Object,
    Null,
}

/// A value taken out of an array, tagged with its kind.
#[derive(Debug)]
pub enum ArrayType<'a> {
    Int(i64),
    Float(FloatBits),
    Bool(bool),
    String(String),
    Array(JsonArray<'a>),
    Object(JsonObject<'a>),
    Null(Null),
}

/// A value inside an array, tagged with its kind.
#[derive(Debug)]
pub enum ArrayTypeRef<'a, 'b> {
    Int(i64),
    Float(FloatBits),
    Bool(bool),
    String(&'a String),
    Array(&'a JsonArray<'b>),
    Object(&'a JsonObject<'b>),
    Null(Null),
}

impl<'a> ArrayType<'a> {
    /// The JSON value this stands for.
    pub open spec fn view(&self) -> JsonValue {
        match self {
            ArrayType::Int(value) => JsonValue::Int(*value),
            ArrayType::Float(value) => JsonValue::Float(*value),
            ArrayType::Bool(value) => JsonValue::Bool(*value),
            ArrayType::String(value) => JsonValue::String(value@),
            ArrayType::Array(value) => JsonValue::Array(value@),
            ArrayType::Object(value) => JsonValue::Object(value@),
            ArrayType::Null(_) => JsonValue::Null,
        }
    }

    /// An array or object in it is well formed.
    pub open spec fn wf(&self) -> bool {
        match self {
            ArrayType::Array(value) => value.wf(),
            ArrayType::Object(value) => value.wf(),
            _ => true,
        }
    }
}

impl<'a, 'b> ArrayTypeRef<'a, 'b> {
    /// The JSON value this stands for.
    pub open spec fn view(&self) -> JsonValue {
        match self {
            ArrayTypeRef::Int(value) => JsonValue::Int(*value),
            ArrayTypeRef::Float(value) => JsonValue::Float(*value),
            ArrayTypeRef::Bool(value) => JsonValue::Bool(*value),
            ArrayTypeRef::String(value) => JsonValue::String(value@),
            ArrayTypeRef::Array(value) => JsonValue::Array(value@),
            ArrayTypeRef::Object(value) => JsonValue::Object(value@),
            ArrayTypeRef::Null(_) => JsonValue::Null,
        }
    }

    /// An array or object in it is well formed.
    pub open spec fn wf(&self) -> bool {
        match self {
            ArrayTypeRef::Array(value) => value.wf(),
            ArrayTypeRef::Object(value) => value.wf(),
            _ => true,
        }
    }
}

/// One if `present` holds, else zero.
spec fn one_if(present: bool) -> int {
    if present {
        1
    } else {
        0
    }
}

impl<'a> JsonArray<'a> {
    /// The value at the logical index `index`, for an index that some
    /// partition holds.
    pub closed spec fn value_at(&self, index: int) -> JsonValue
        decreases *self, 0int,
    {
        if holds(self.ints@, index) {
            JsonValue::Int(item_at(self.ints@, index))
        } else if holds(self.floats@, index) {
            JsonValue::Float(item_at(self.floats@, index))
        } else if holds(self.bools@, index) {
            JsonValue::Bool(item_at(self.bools@, index))
        } else if holds(self.strings@, index) {
            JsonValue::String(item_at(self.strings@, index)@)
        } else if holds(self.arrays@, index) {
            JsonValue::Array(item_at(self.arrays@, index).view())
        } else if holds(self.objects@, index) {
            JsonValue::Object(item_at(self.objects@, index).view())
        } else if holds(self.nulls@, index) {
            JsonValue::Null
        } else {
            arbitrary()
        }
    }

    /// The values of the array in the order of their logical indices.
    pub closed spec fn view(&self) -> Seq<JsonValue>
        decreases *self, 1int,
    {
        Seq::new(self.item_count as nat, |index: int| self.value_at(index))
    }

    /// The number of items, over all partitions, that have the logical
    /// index `index`.
    pub closed spec fn occurrences(&self, index: int) -> nat {
        copies(self.ints@, index) + copies(self.floats@, index) + copies(self.bools@, index)
            + copies(self.strings@, index) + copies(self.arrays@, index) + copies(
            self.objects@,
            index,
        ) + copies(self.nulls@, index)
    }

    /// The number of partitions that hold an item with the logical index
    /// `index`.
    spec fn occupancy(&self, index: int) -> int {
        one_if(holds(self.ints@, index)) + one_if(holds(self.floats@, index)) + one_if(
            holds(self.bools@, index),
        ) + one_if(holds(self.strings@, index)) + one_if(holds(self.arrays@, index)) + one_if(
            holds(self.objects@, index),
        ) + one_if(holds(self.nulls@, index))
    }

    /// The number of items in all partitions together.
    spec fn stored(&self) -> int {
        (self.ints@.len() + self.floats@.len() + self.bools@.len() + self.strings@.len()
            + self.arrays@.len() + self.objects@.len() + self.nulls@.len()) as int
    }

    /// The partitions hold an array of `count` positions, of which the one
    /// at `gap` (if any) is vacant: the logical indices are below `count`,
    /// each position but the vacant one is taken by exactly one item, and
    /// the arrays and objects stored inside are well formed themselves.
    spec fn sound(&self, count: int, gap: Option<int>) -> bool
        decreases *self, 0int,
    {
        &&& distinct(self.ints@) && below(self.ints@, count)
        &&& distinct(self.floats@) && below(self.floats@, count)
        &&& distinct(self.bools@) && below(self.bools@, count)
        &&& distinct(self.strings@) && below(self.strings@, count)
        &&& distinct(self.arrays@) && below(self.arrays@, count)
        &&& distinct(self.objects@) && below(self.objects@, count)
        &&& distinct(self.nulls@) && below(self.nulls@, count)
        &&& forall|index: int|
            0 <= index < count ==> #[trigger] self.occupancy(index) == one_if(gap != Some(index))
        &&& self.stored() == if gap is Some {
            count - 1
        } else {
            count
        }
        &&& forall|k: int| 0 <= k < self.arrays@.len() ==> (#[trigger] self.arrays@[k]).item.wf()
        &&& forall|k: int| 0 <= k < self.objects@.len() ==> (#[trigger] self.objects@[k]).item.wf()
    }

    /// The array is well formed: its logical indices are exactly
    /// `0, 1, .., n - 1` for its `n` items, none of them twice, and the
    /// arrays and objects stored in it are well formed.
    pub closed spec fn wf(&self) -> bool
        decreases *self, 1int,
    {
        self.sound(self.item_count as int, None)
    }

    /// Dense indexing: in a well formed array every position from 0 up to
    /// the length is the logical index of exactly one item, and nothing
    /// else is the logical index of any item.
    pub proof fn law_dense_indices(&self, index: int)
        requires
            self.wf(),
        ensures
            self.occurrences(index) == if 0 <= index < self@.len() {
                1nat
            } else {
                0nat
            },
    {
        lemma_copies(self.ints@, index);
        lemma_copies(self.floats@, index);
        lemma_copies(self.bools@, index);
        lemma_copies(self.strings@, index);
        lemma_copies(self.arrays@, index);
        lemma_copies(self.objects@, index);
        lemma_copies(self.nulls@, index);
        assert(self.occurrences(index) == self.occupancy(index));
        if 0 <= index < self.item_count {
            assert(self.occupancy(index) == 1);
        } else if index >= self.item_count {
            self.lemma_beyond(self.item_count as int, None, index);
        }
    }

    /// What a removal leaves behind. Where `after` is what `remove` makes
    /// of `before` at the index `index`, it is one value shorter; the
    /// values in front of `index` are where they were and the values
    /// behind it have moved up by one, in their order; the logical indices
    /// are dense again; and the last index of `before` is no index of
    /// `after`, so that removing there a second time finds nothing.
    pub proof fn law_remove_closes_the_gap(before: &Self, after: &Self, index: int)
        requires
            before.wf(),
            after.wf(),
            0 <= index < before@.len(),
            after@ == before@.remove(index),
        ensures
            after@.len() == before@.len() - 1,
            forall|j: int| 0 <= j < index ==> after@[j] == before@[j],
            forall|j: int| index <= j < after@.len() ==> after@[j] == before@[j + 1],
            forall|j: int| 0 <= j < after@.len() ==> #[trigger] after.occurrences(j) == 1,
            after.occurrences(before@.len() - 1) == 0,
    {
        assert forall|j: int| 0 <= j < after@.len() implies #[trigger] after.occurrences(j)
            == 1 by {
            after.law_dense_indices(j);
        }
        after.law_dense_indices(before@.len() - 1);
    }

    /// No partition holds a logical index at or beyond the number of
    /// positions.
    proof fn lemma_beyond(&self, count: int, gap: Option<int>, index: int)
        requires
            self.sound(count, gap),
            index >= count,
        ensures
            self.occupancy(index) == 0,
    {
    }

    /// The empty array.
    pub fn new() -> (array: Self)
        ensures
            array.wf(),
            array@ == Seq::<JsonValue>::empty(),
    {
        let array = Self {
            ints: Vec::new(),
            floats: Vec::new(),
            bools: Vec::new(),
            strings: Vec::new(),
            arrays: Vec::new(),
            objects: Vec::new(),
            nulls: Vec::new(),
            item_count: 0,
        };
        assert(array@ =~= Seq::<JsonValue>::empty());
        array
    }

    /// Appends an integer: it gets the next logical index.
    pub fn add_int(&mut self, value: i64)
        requires
            old(self).wf(),
            old(self)@.len() < usize::MAX,
        ensures
            final(self).wf(),
            final(self)@ == old(self)@.push(JsonValue::Int(value)),
    {
        let item = ArrayItem { item: value, index: self.item_count };
        proof {
            lemma_push(self.ints@, item);
        }
        self.ints.push(item);
        self.item_count += 1;
        proof {
            assert forall|index: int|
                0 <= index < self.item_count implies #[trigger] self.occupancy(index) == 1 by {
                if index < old(self).item_count {
                    assert(old(self).occupancy(index) == 1);
                } else {
                    old(self).lemma_beyond(index, None, index);
                }
            }
            assert(self@ =~= old(self)@.push(JsonValue::Int(value)));
        }
    }

    /// Appends a floating point number: it gets the next logical index.
    pub fn add_float(&mut self, value: FloatBits)
        requires
            old(self).wf(),
            old(self)@.len() < usize::MAX,
        ensures
            final(self).wf(),
            final(self)@ == old(self)@.push(JsonValue::Float(value)),
    {
        let item = ArrayItem { item: value, index: self.item_count };
        proof {
            lemma_push(self.floats@, item);
        }
        self.floats.push(item);
        self.item_count += 1;
        proof {
            assert forall|index: int|
                0 <= index < self.item_count implies #[trigger] self.occupancy(index) == 1 by {
                if index < old(self).item_count {
                    assert(old(self).occupancy(index) == 1);
                } else {
                    old(self).lemma_beyond(index, None, index);
                }
            }
            assert(self@ =~= old(self)@.push(JsonValue::Float(value)));
        }
    }

    /// Appends a boolean: it gets the next logical index.
    pub fn add_bool(&mut self, value: bool)
        requires
            old(self).wf(),
            old(self)@.len() < usize::MAX,
        ensures
            final(self).wf(),
            final(self)@ == old(self)@.push(JsonValue::Bool(value)),
    {
        let item = ArrayItem { item: value, index: self.item_count };
        proof {
            lemma_push(self.bools@, item);
        }
        self.bools.push(item);
        self.item_count += 1;
        proof {
            assert forall|index: int|
                0 <= index < self.item_count implies #[trigger] self.occupancy(index) == 1 by {
                if index < old(self).item_count {
                    assert(old(self).occupancy(index) == 1);
                } else {
                    old(self).lemma_beyond(index, None, index);
                }
            }
            assert(self@ =~= old(self)@.push(JsonValue::Bool(value)));
        }
    }

    /// Appends a string: it gets the next logical index.
    pub fn add_string(&mut self, value: String)
        requires
            old(self).wf(),
            old(self)@.len() < usize::MAX,
        ensures
            final(self).wf(),
            final(self)@ == old(self)@.push(JsonValue::String(value@)),
    {
        let item = ArrayItem { item: value, index: self.item_count };
        proof {
            lemma_push(self.strings@, item);
        }
        self.strings.push(item);
        self.item_count += 1;
        proof {
            assert forall|index: int|
                0 <= index < self.item_count implies #[trigger] self.occupancy(index) == 1 by {
                if index < old(self).item_count {
                    assert(old(self).occupancy(index) == 1);
                } else {
                    old(self).lemma_beyond(index, None, index);
                }
            }
            assert(self@ =~= old(self)@.push(JsonValue::String(value@)));
        }
    }

    /// Appends an array: it gets the next logical index.
    pub fn add_array(&mut self, value: JsonArray<'a>)
        requires
            old(self).wf(),
            old(self)@.len() < usize::MAX,
            value.wf(),
        ensures
            final(self).wf(),
            final(self)@ == old(self)@.push(JsonValue::Array(value@)),
    {
        let item = ArrayItem { item: value, index: self.item_count };
        proof {
            lemma_push(self.arrays@, item);
        }
        self.arrays.push(item);
        self.item_count += 1;
        proof {
            assert forall|index: int|
                0 <= index < self.item_count implies #[trigger] self.occupancy(index) == 1 by {
                if index < old(self).item_count {
                    assert(old(self).occupancy(index) == 1);
                } else {
                    old(self).lemma_beyond(index, None, index);
                }
            }
            assert(self@ =~= old(self)@.push(JsonValue::Array(value@)));
        }
    }

    /// Appends an object: it gets the next logical index.
    pub fn add_object(&mut self, value: JsonObject<'a>)
        requires
            old(self).wf(),
            old(self)@.len() < usize::MAX,
            value.wf(),
        ensures
            final(self).wf(),
            final(self)@ == old(self)@.push(JsonValue::Object(value@)),
    {
        let item = ArrayItem { item: value, index: self.item_count };
        proof {
            lemma_push(self.objects@, item);
        }
        self.objects.push(item);
        self.item_count += 1;
        proof {
            assert forall|index: int|
                0 <= index < self.item_count implies #[trigger] self.occupancy(index) == 1 by {
                if index < old(self).item_count {
                    assert(old(self).occupancy(index) == 1);
                } else {
                    old(self).lemma_beyond(index, None, index);
                }
            }
            assert(self@ =~= old(self)@.push(JsonValue::Object(value@)));
        }
    }

    /// Appends a `null`: it gets the next logical index.
    pub fn add_null(&mut self, value: Null)
        requires
            old(self).wf(),
            old(self)@.len() < usize::MAX,
        ensures
            final(self).wf(),
            final(self)@ == old(self)@.push(JsonValue::Null),
    {
        let item = ArrayItem { item: value, index: self.item_count };
        proof {
            lemma_push(self.nulls@, item);
        }
        self.nulls.push(item);
        self.item_count += 1;
        proof {
            assert forall|index: int|
                0 <= index < self.item_count implies #[trigger] self.occupancy(index) == 1 by {
                if index < old(self).item_count {
                    assert(old(self).occupancy(index) == 1);
                } else {
                    old(self).lemma_beyond(index, None, index);
                }
            }
            assert(self@ =~= old(self)@.push(JsonValue::Null));
        }
    }

    /// The partition of kind `kind` has, in slot `slot`, the item with the
    /// logical index `index`.
    spec fn has_at(&self, kind: ArrayItemType, slot: int, index: int) -> bool {
        match kind {
            ArrayItemType::Int => 0 <= slot < self.ints@.len() && self.ints@[slot].index == index,
            ArrayItemType::Float => 0 <= slot < self.floats@.len() && self.floats@[slot].index
                == index,
            ArrayItemType::Bool => 0 <= slot < self.bools@.len() && self.bools@[slot].index
                == index,
            ArrayItemType::String => 0 <= slot < self.strings@.len() && self.strings@[slot].index
                == index,
            ArrayItemType::Array => 0 <= slot < self.arrays@.len() && self.arrays@[slot].index
                == index,
            ArrayItemType::Object => 0 <= slot < self.objects@.len() && self.objects@[slot].index
                == index,
            ArrayItemType::Null => 0 <= slot < self.nulls@.len() && self.nulls@[slot].index
                == index,
        }
    }

    /// Finds the partition and the slot that store the logical index
    /// `index`.
    fn locate(&self, index: usize) -> (place: Option<(ArrayItemType, usize)>)
        ensures
            match place {
                Some((kind, slot)) => self.has_at(kind, slot as int, index as int),
                None => self.occupancy(index as int) == 0,
            },
    {
        if let Some(slot) = find_slot(&self.ints, index) {
            return Some((ArrayItemType::Int, slot));
        }
        if let Some(slot) = find_slot(&self.floats, index) {
            return Some((ArrayItemType::Float, slot));
        }
        if let Some(slot) = find_slot(&self.bools, index) {
            return Some((ArrayItemType::Bool, slot));
        }
        if let Some(slot) = find_slot(&self.strings, index) {
            return Some((ArrayItemType::String, slot));
        }
        if let Some(slot) = find_slot(&self.arrays, index) {
            return Some((ArrayItemType::Array, slot));
        }
        if let Some(slot) = find_slot(&self.objects, index) {
            return Some((ArrayItemType::Object, slot));
        }
        if let Some(slot) = find_slot(&self.nulls, index) {
            return Some((ArrayItemType::Null, slot));
        }
        None
    }

    /// In a well formed array the item found under a logical index is the
    /// value at that index, and the index is in range.
    proof fn lemma_located(&self, kind: ArrayItemType, slot: int, index: int)
        requires
            self.wf(),
            0 <= index,
            self.has_at(kind, slot, index),
        ensures
            index < self.item_count,
            self.occupancy(index) == 1,
            self.value_at(index) == match kind {
                ArrayItemType::Int => JsonValue::Int(self.ints@[slot].item),
                ArrayItemType::Float => JsonValue::Float(self.floats@[slot].item),
                ArrayItemType::Bool => JsonValue::Bool(self.bools@[slot].item),
                ArrayItemType::String => JsonValue::String(self.strings@[slot].item@),
                ArrayItemType::Array => JsonValue::Array(self.arrays@[slot].item@),
                ArrayItemType::Object => JsonValue::Object(self.objects@[slot].item@),
                ArrayItemType::Null => JsonValue::Null,
            },
    {
        match kind {
            ArrayItemType::Int => lemma_slot_unique(self.ints@, slot),
            ArrayItemType::Float => lemma_slot_unique(self.floats@, slot),
            ArrayItemType::Bool => lemma_slot_unique(self.bools@, slot),
            ArrayItemType::String => lemma_slot_unique(self.strings@, slot),
            ArrayItemType::Array => lemma_slot_unique(self.arrays@, slot),
            ArrayItemType::Object => lemma_slot_unique(self.objects@, slot),
            ArrayItemType::Null => lemma_slot_unique(self.nulls@, slot),
        }
        assert(self.occupancy(index) >= 1);
        if index >= self.item_count {
            self.lemma_beyond(self.item_count as int, None, index);
        }
        assert(self.occupancy(index) == 1);
    }

    /// The value at the logical index `index`, or an error if the array
    /// has no such index.
    pub fn get(&self, index: usize) -> (result: Result<ArrayTypeRef<'_, 'a>, &'static str>)
        requires
            self.wf(),
        ensures
            match result {
                Ok(value) => index < self@.len() && value@ == self@[index as int] && value.wf(),
                Err(message) => index >= self@.len() && message@ == "Index doesn't exist"@,
            },
    {
        match self.locate(index) {
            Some((kind, slot)) => {
                proof {
                    self.lemma_located(kind, slot as int, index as int);
                }
                Ok(
                    match kind {
                        ArrayItemType::Int => ArrayTypeRef::Int(self.ints[slot].item),
                        ArrayItemType::Float => ArrayTypeRef::Float(self.floats[slot].item),
                        ArrayItemType::Bool => ArrayTypeRef::Bool(self.bools[slot].item),
                        ArrayItemType::String => ArrayTypeRef::String(&self.strings[slot].item),
                        ArrayItemType::Array => ArrayTypeRef::Array(&self.arrays[slot].item),
                        ArrayItemType::Object => ArrayTypeRef::Object(&self.objects[slot].item),
                        ArrayItemType::Null => ArrayTypeRef::Null(self.nulls[slot].item),
                    },
                )
            },
            None => {
                proof {
                    if index < self.item_count {
                        assert(self.occupancy(index as int) == 1);
                    }
                }
                Err("Index doesn't exist")
            },
        }
    }

    /// `after` is `before` with the item in slot `slot` of the partition
    /// of kind `kind` taken out.
    spec fn taken_from(before: &Self, after: &Self, kind: ArrayItemType, slot: int) -> bool {
        &&& after.item_count == before.item_count
        &&& after.ints@ == if kind == ArrayItemType::Int {
            before.ints@.remove(slot)
        } else {
            before.ints@
        }
        &&& after.floats@ == if kind == ArrayItemType::Float {
            before.floats@.remove(slot)
        } else {
            before.floats@
        }
        &&& after.bools@ == if kind == ArrayItemType::Bool {
            before.bools@.remove(slot)
        } else {
            before.bools@
        }
        &&& after.strings@ == if kind == ArrayItemType::String {
            before.strings@.remove(slot)
        } else {
            before.strings@
        }
        &&& after.arrays@ == if kind == ArrayItemType::Array {
            before.arrays@.remove(slot)
        } else {
            before.arrays@
        }
        &&& after.objects@ == if kind == ArrayItemType::Object {
            before.objects@.remove(slot)
        } else {
            before.objects@
        }
        &&& after.nulls@ == if kind == ArrayItemType::Null {
            before.nulls@.remove(slot)
        } else {
            before.nulls@
        }
    }

    /// Taking an item out of its partition leaves its position vacant and
    /// every other position as it was.
    proof fn lemma_taken(before: &Self, after: &Self, kind: ArrayItemType, slot: int, index: int)
        requires
            before.wf(),
            0 <= index,
            before.has_at(kind, slot, index),
            Self::taken_from(before, after, kind, slot),
        ensures
            after.sound(before.item_count as int, Some(index)),
            forall|j: int| j != index ==> #[trigger] after.value_at(j) == before.value_at(j),
    {
        let count = before.item_count as int;
        before.lemma_located(kind, slot, index);
        match kind {
            ArrayItemType::Int => lemma_take_out(before.ints@, slot, count),
            ArrayItemType::Float => lemma_take_out(before.floats@, slot, count),
            ArrayItemType::Bool => lemma_take_out(before.bools@, slot, count),
            ArrayItemType::String => lemma_take_out(before.strings@, slot, count),
            ArrayItemType::Array => lemma_take_out(before.arrays@, slot, count),
            ArrayItemType::Object => lemma_take_out(before.objects@, slot, count),
            ArrayItemType::Null => lemma_take_out(before.nulls@, slot, count),
        }
        assert forall|j: int| 0 <= j < count implies #[trigger] after.occupancy(j) == one_if(
            Some(index) != Some(j),
        ) by {
            assert(before.occupancy(j) == 1);
        }
        assert forall|k: int| 0 <= k < after.arrays@.len() implies (
        #[trigger] after.arrays@[k]).item.wf() by {
            assert(stores(before.arrays@, after.arrays@[k].item));
        }
        assert forall|k: int| 0 <= k < after.objects@.len() implies (
        #[trigger] after.objects@[k]).item.wf() by {
            assert(stores(before.objects@, after.objects@[k].item));
        }
    }

    /// Takes the value with the logical index `index` out of its partition
    /// and leaves its position vacant.
    fn take(&mut self, index: usize) -> (taken: Option<ArrayType<'a>>)
        requires
            old(self).wf(),
        ensures
            final(self).item_count == old(self).item_count,
            match taken {
                Some(value) => {
                    &&& index < old(self).item_count
                    &&& value@ == old(self).value_at(index as int)
                    &&& value.wf()
                    &&& final(self).sound(old(self).item_count as int, Some(index as int))
                    &&& forall|j: int|
                        j != index ==> #[trigger] final(self).value_at(j) == old(self).value_at(j)
                },
                None => index >= old(self).item_count && *final(self) == *old(self),
            },
    {
        match self.locate(index) {
            Some((kind, slot)) => {
                proof {
                    self.lemma_located(kind, slot as int, index as int);
                }
                let value = match kind {
                    ArrayItemType::Int => ArrayType::Int(self.ints.remove(slot).item),
                    ArrayItemType::Float => ArrayType::Float(self.floats.remove(slot).item),
                    ArrayItemType::Bool => ArrayType::Bool(self.bools.remove(slot).item),
                    ArrayItemType::String => ArrayType::String(self.strings.remove(slot).item),
                    ArrayItemType::Array => ArrayType::Array(self.arrays.remove(slot).item),
                    ArrayItemType::Object => ArrayType::Object(self.objects.remove(slot).item),
                    ArrayItemType::Null => ArrayType::Null(self.nulls.remove(slot).item),
                };
                proof {
                    Self::lemma_taken(old(self), self, kind, slot as int, index as int);
                }
                Some(value)
            },
            None => {
                proof {
                    if index < self.item_count {
                        assert(self.occupancy(index as int) == 1);
                    }
                }
                None
            },
        }
    }

    /// Closes the gap that the value at the logical index `index` left
    /// behind: lowers by one every logical index that is greater.
    fn fix_index_on_array_item_deletion(&mut self, index: usize)
        requires
            index < old(self).item_count,
            old(self).sound(old(self).item_count as int, Some(index as int)),
        ensures
            final(self).item_count == old(self).item_count,
            final(self).sound(old(self).item_count - 1, None),
            forall|j: int|
                #[trigger] final(self).value_at(j) == old(self).value_at(source(index as int, j)),
    {
        let ghost count = self.item_count as int;
        proof {
            assert(self.occupancy(index as int) == 0);
        }
        if index == self.item_count - 1 {
            // Nothing lies behind the last position.
            proof {
            assert(lowered(self.ints@, self.ints@, index as int));
            assert(lowered(self.floats@, self.floats@, index as int));
            assert(lowered(self.bools@, self.bools@, index as int));
            assert(lowered(self.strings@, self.strings@, index as int));
            assert(lowered(self.arrays@, self.arrays@, index as int));
            assert(lowered(self.objects@, self.objects@, index as int));
            assert(lowered(self.nulls@, self.nulls@, index as int));
            }
        } else {
        lower_above(&mut self.ints, index);
        lower_above(&mut self.floats, index);
        lower_above(&mut self.bools, index);
        lower_above(&mut self.strings, index);
        lower_above(&mut self.arrays, index);
        lower_above(&mut self.objects, index);
        lower_above(&mut self.nulls, index);
        }
        proof {
            lemma_close_gap(old(self).ints@, self.ints@, index as int, count);
            lemma_close_gap(old(self).floats@, self.floats@, index as int, count);
            lemma_close_gap(old(self).bools@, self.bools@, index as int, count);
            lemma_close_gap(old(self).strings@, self.strings@, index as int, count);
            lemma_close_gap(old(self).arrays@, self.arrays@, index as int, count);
            lemma_close_gap(old(self).objects@, self.objects@, index as int, count);
            lemma_close_gap(old(self).nulls@, self.nulls@, index as int, count);
            assert forall|j: int| 0 <= j < count - 1 implies #[trigger] self.occupancy(j) == 1 by {
                assert(old(self).occupancy(source(index as int, j)) == 1);
            }
            assert forall|k: int| 0 <= k < self.arrays@.len() implies (
            #[trigger] self.arrays@[k]).item.wf() by {
                assert(stores(old(self).arrays@, self.arrays@[k].item));
            }
            assert forall|k: int| 0 <= k < self.objects@.len() implies (
            #[trigger] self.objects@[k]).item.wf() by {
                assert(stores(old(self).objects@, self.objects@[k].item));
            }
        }
    }

    /// What an array holds rests on its partitions alone.
    proof fn lemma_same_partitions(a: &Self, b: &Self, count: int, gap: Option<int>)
        requires
            a.ints == b.ints,
            a.floats == b.floats,
            a.bools == b.bools,
            a.strings == b.strings,
            a.arrays == b.arrays,
            a.objects == b.objects,
            a.nulls == b.nulls,
        ensures
            a.sound(count, gap) == b.sound(count, gap),
            forall|j: int| #[trigger] a.value_at(j) == b.value_at(j),
    {
        assert forall|index: int|
            #![trigger a.occupancy(index)]
            #![trigger b.occupancy(index)]
            a.occupancy(index) == b.occupancy(index) by {}
    }

    /// Removes the value at the logical index `index` and hands it back.
    /// The values behind it move up by one position, so that the logical
    /// indices stay `0, 1, .., n - 1` and the order of the values that
    /// remain is kept. Where the array has no such index nothing changes.
    pub fn remove(&mut self, index: usize) -> (result: Result<ArrayType<'a>, &'static str>)
        requires
            old(self).wf(),
        ensures
            final(self).wf(),
            match result {
                Ok(value) => {
                    &&& index < old(self)@.len()
                    &&& value@ == old(self)@[index as int]
                    &&& value.wf()
                    &&& final(self)@ == old(self)@.remove(index as int)
                },
                Err(message) => {
                    &&& index >= old(self)@.len()
                    &&& message@ == "Index doesn't exist"@
                    &&& *final(self) == *old(self)
                },
            },
    {
        match self.take(index) {
            Some(value) => {
                let ghost taken = *self;
                self.fix_index_on_array_item_deletion(index);
                let ghost closed = *self;
                self.item_count -= 1;
                proof {
                    Self::lemma_same_partitions(&closed, self, self.item_count as int, None);
                    let shorter = old(self)@.remove(index as int);
                    assert forall|j: int| 0 <= j < self.item_count implies self@[j]
                        == shorter[j] by {
                        let origin = source(index as int, j);
                        assert(self@[j] == self.value_at(j));
                        assert(self.value_at(j) == closed.value_at(j));
                        assert(closed.value_at(j) == taken.value_at(origin));
                        assert(taken.value_at(origin) == old(self).value_at(origin));
                        assert(old(self)@[origin] == old(self).value_at(origin));
                        assert(shorter[j] == old(self)@[origin]);
                    }
                    assert(self@ =~= shorter);
                }
                Ok(value)
            },
            None => Err("Index doesn't exist"),
        }
    }

    /// Puts an integer in the place of the value at the logical index
    /// `index`, whatever kind that value has. The other values keep their
    /// positions and the length stays as it is. Where the array has no such
    /// index nothing changes.
    pub fn set_int(&mut self, value: i64, index: usize) -> (result: Result<(), &'static str>)
        requires
            old(self).wf(),
        ensures
            final(self).wf(),
            match result {
                Ok(_) => index < old(self)@.len() && final(self)@ == old(self)@.update(
                    index as int,
                    JsonValue::Int(value),
                ),
                Err(message) => {
                    &&& index >= old(self)@.len()
                    &&& message@ == "Index doesn't exist"@
                    &&& *final(self) == *old(self)
                },
            },
    {
        match self.take(index) {
            Some(_) => {
                let ghost taken = *self;
                let item = ArrayItem { item: value, index };
                proof {
                    assert(taken.occupancy(index as int) == 0);
                    lemma_push(self.ints@, item);
                }
                self.ints.push(item);
                proof {
                    assert forall|j: int|
                        0 <= j < self.item_count implies #[trigger] self.occupancy(j) == 1 by {
                        assert(taken.occupancy(j) == one_if(Some(index as int) != Some(j)));
                    }
                    let replaced = old(self)@.update(index as int, JsonValue::Int(value));
                    assert forall|j: int| 0 <= j < self.item_count implies self@[j]
                        == replaced[j] by {
                        assert(self@[j] == self.value_at(j));
                        if j != index {
                            assert(self.value_at(j) == taken.value_at(j));
                            assert(taken.value_at(j) == old(self).value_at(j));
                        }
                    }
                    assert(self@ =~= replaced);
                }
                Ok(())
            },
            None => Err("Index doesn't exist"),
        }
    }

    /// Puts a floating point number in the place of the value at the logical
    /// index `index`, whatever kind that value has. The other values keep their
    /// positions and the length stays as it is. Where the array has no such
    /// index nothing changes.
    pub fn set_float(&mut self, value: FloatBits, index: usize) -> (result: Result<
        (),
        &'static str,
    >)
        requires
            old(self).wf(),
        ensures
            final(self).wf(),
            match result {
                Ok(_) => index < old(self)@.len() && final(self)@ == old(self)@.update(
                    index as int,
                    JsonValue::Float(value),
                ),
                Err(message) => {
                    &&& index >= old(self)@.len()
                    &&& message@ == "Index doesn't exist"@
                    &&& *final(self) == *old(self)
                },
            },
    {
        match self.take(index) {
            Some(_) => {
                let ghost taken = *self;
                let item = ArrayItem { item: value, index };
                proof {
                    assert(taken.occupancy(index as int) == 0);
                    lemma_push(self.floats@, item);
                }
                self.floats.push(item);
                proof {
                    assert forall|j: int|
                        0 <= j < self.item_count implies #[trigger] self.occupancy(j) == 1 by {
                        assert(taken.occupancy(j) == one_if(Some(index as int) != Some(j)));
                    }
                    let replaced = old(self)@.update(index as int, JsonValue::Float(value));
                    assert forall|j: int| 0 <= j < self.item_count implies self@[j]
                        == replaced[j] by {
                        assert(self@[j] == self.value_at(j));
                        if j != index {
                            assert(self.value_at(j) == taken.value_at(j));
                            assert(taken.value_at(j) == old(self).value_at(j));
                        }
                    }
                    assert(self@ =~= replaced);
                }
                Ok(())
            },
            None => Err("Index doesn't exist"),
        }
    }

    /// Puts a boolean in the place of the value at the logical index
    /// `index`, whatever kind that value has. The other values keep their
    /// positions and the length stays as it is. Where the array has no such
    /// index nothing changes.
    pub fn set_bool(&mut self, value: bool, index: usize) -> (result: Result<(), &'static str>)
        requires
            old(self).wf(),
        ensures
            final(self).wf(),
            match result {
                Ok(_) => index < old(self)@.len() && final(self)@ == old(self)@.update(
                    index as int,
                    JsonValue::Bool(value),
                ),
                Err(message) => {
                    &&& index >= old(self)@.len()
                    &&& message@ == "Index doesn't exist"@
                    &&& *final(self) == *old(self)
                },
            },
    {
        match self.take(index) {
            Some(_) => {
                let ghost taken = *self;
                let item = ArrayItem { item: value, index };
                proof {
                    assert(taken.occupancy(index as int) == 0);
                    lemma_push(self.bools@, item);
                }
                self.bools.push(item);
                proof {
                    assert forall|j: int|
                        0 <= j < self.item_count implies #[trigger] self.occupancy(j) == 1 by {
                        assert(taken.occupancy(j) == one_if(Some(index as int) != Some(j)));
                    }
                    let replaced = old(self)@.update(index as int, JsonValue::Bool(value));
                    assert forall|j: int| 0 <= j < self.item_count implies self@[j]
                        == replaced[j] by {
                        assert(self@[j] == self.value_at(j));
                        if j != index {
                            assert(self.value_at(j) == taken.value_at(j));
                            assert(taken.value_at(j) == old(self).value_at(j));
                        }
                    }
                    assert(self@ =~= replaced);
                }
                Ok(())
            },
            None => Err("Index doesn't exist"),
        }
    }

    /// Puts a string in the place of the value at the logical index
    /// `index`, whatever kind that value has. The other values keep their
    /// positions and the length stays as it is. Where the array has no such
    /// index nothing changes.
    pub fn set_string(&mut self, value: String, index: usize) -> (result: Result<(), &'static str>)
        requires
            old(self).wf(),
        ensures
            final(self).wf(),
            match result {
                Ok(_) => index < old(self)@.len() && final(self)@ == old(self)@.update(
                    index as int,
                    JsonValue::String(value@),
                ),
                Err(message) => {
                    &&& index >= old(self)@.len()
                    &&& message@ == "Index doesn't exist"@
                    &&& *final(self) == *old(self)
                },
            },
    {
        match self.take(index) {
            Some(_) => {
                let ghost taken = *self;
                let item = ArrayItem { item: value, index };
                proof {
                    assert(taken.occupancy(index as int) == 0);
                    lemma_push(self.strings@, item);
                }
                self.strings.push(item);
                proof {
                    assert forall|j: int|
                        0 <= j < self.item_count implies #[trigger] self.occupancy(j) == 1 by {
                        assert(taken.occupancy(j) == one_if(Some(index as int) != Some(j)));
                    }
                    let replaced = old(self)@.update(index as int, JsonValue::String(value@));
                    assert forall|j: int| 0 <= j < self.item_count implies self@[j]
                        == replaced[j] by {
                        assert(self@[j] == self.value_at(j));
                        if j != index {
                            assert(self.value_at(j) == taken.value_at(j));
                            assert(taken.value_at(j) == old(self).value_at(j));
                        }
                    }
                    assert(self@ =~= replaced);
                }
                Ok(())
            },
            None => Err("Index doesn't exist"),
        }
    }

    /// Puts an array in the place of the value at the logical index
    /// `index`, whatever kind that value has. The other values keep their
    /// positions and the length stays as it is. Where the array has no such
    /// index nothing changes.
    pub fn set_array(&mut self, value: JsonArray<'a>, index: usize) -> (result: Result<
        (),
        &'static str,
    >)
        requires
            old(self).wf(),
            value.wf(),
        ensures
            final(self).wf(),
            match result {
                Ok(_) => index < old(self)@.len() && final(self)@ == old(self)@.update(
                    index as int,
                    JsonValue::Array(value@),
                ),
                Err(message) => {
                    &&& index >= old(self)@.len()
                    &&& message@ == "Index doesn't exist"@
                    &&& *final(self) == *old(self)
                },
            },
    {
        match self.take(index) {
            Some(_) => {
                let ghost taken = *self;
                let item = ArrayItem { item: value, index };
                proof {
                    assert(taken.occupancy(index as int) == 0);
                    lemma_push(self.arrays@, item);
                }
                self.arrays.push(item);
                proof {
                    assert forall|j: int|
                        0 <= j < self.item_count implies #[trigger] self.occupancy(j) == 1 by {
                        assert(taken.occupancy(j) == one_if(Some(index as int) != Some(j)));
                    }
                    let replaced = old(self)@.update(index as int, JsonValue::Array(value@));
                    assert forall|j: int| 0 <= j < self.item_count implies self@[j]
                        == replaced[j] by {
                        assert(self@[j] == self.value_at(j));
                        if j != index {
                            assert(self.value_at(j) == taken.value_at(j));
                            assert(taken.value_at(j) == old(self).value_at(j));
                        }
                    }
                    assert(self@ =~= replaced);
                }
                Ok(())
            },
            None => Err("Index doesn't exist"),
        }
    }

    /// Puts an object in the place of the value at the logical index
    /// `index`, whatever kind that value has. The other values keep their
    /// positions and the length stays as it is. Where the array has no such
    /// index nothing changes.
    pub fn set_object(&mut self, value: JsonObject<'a>, index: usize) -> (result: Result<
        (),
        &'static str,
    >)
        requires
            old(self).wf(),
            value.wf(),
        ensures
            final(self).wf(),
            match result {
                Ok(_) => index < old(self)@.len() && final(self)@ == old(self)@.update(
                    index as int,
                    JsonValue::Object(value@),
                ),
                Err(message) => {
                    &&& index >= old(self)@.len()
                    &&& message@ == "Index doesn't exist"@
                    &&& *final(self) == *old(self)
                },
            },
    {
        match self.take(index) {
            Some(_) => {
                let ghost taken = *self;
                let item = ArrayItem { item: value, index };
                proof {
                    assert(taken.occupancy(index as int) == 0);
                    lemma_push(self.objects@, item);
                }
                self.objects.push(item);
                proof {
                    assert forall|j: int|
                        0 <= j < self.item_count implies #[trigger] self.occupancy(j) == 1 by {
                        assert(taken.occupancy(j) == one_if(Some(index as int) != Some(j)));
                    }
                    let replaced = old(self)@.update(index as int, JsonValue::Object(value@));
                    assert forall|j: int| 0 <= j < self.item_count implies self@[j]
                        == replaced[j] by {
                        assert(self@[j] == self.value_at(j));
                        if j != index {
                            assert(self.value_at(j) == taken.value_at(j));
                            assert(taken.value_at(j) == old(self).value_at(j));
                        }
                    }
                    assert(self@ =~= replaced);
                }
                Ok(())
            },
            None => Err("Index doesn't exist"),
        }
    }

    /// Puts a `null` in the place of the value at the logical index
    /// `index`, whatever kind that value has. The other values keep their
    /// positions and the length stays as it is. Where the array has no such
    /// index nothing changes.
    pub fn set_null(&mut self, value: Null, index: usize) -> (result: Result<(), &'static str>)
        requires
            old(self).wf(),
        ensures
            final(self).wf(),
            match result {
                Ok(_) => index < old(self)@.len() && final(self)@ == old(self)@.update(
                    index as int,
                    JsonValue::Null,
                ),
                Err(message) => {
                    &&& index >= old(self)@.len()
                    &&& message@ == "Index doesn't exist"@
                    &&& *final(self) == *old(self)
                },
            },
    {
        match self.take(index) {
            Some(_) => {
                let ghost taken = *self;
                let item = ArrayItem { item: value, index };
                proof {
                    assert(taken.occupancy(index as int) == 0);
                    lemma_push(self.nulls@, item);
                }
                self.nulls.push(item);
                proof {
                    assert forall|j: int|
                        0 <= j < self.item_count implies #[trigger] self.occupancy(j) == 1 by {
                        assert(taken.occupancy(j) == one_if(Some(index as int) != Some(j)));
                    }
                    let replaced = old(self)@.update(index as int, JsonValue::Null);
                    assert forall|j: int| 0 <= j < self.item_count implies self@[j]
                        == replaced[j] by {
                        assert(self@[j] == self.value_at(j));
                        if j != index {
                            assert(self.value_at(j) == taken.value_at(j));
                            assert(taken.value_at(j) == old(self).value_at(j));
                        }
                    }
                    assert(self@ =~= replaced);
                }
                Ok(())
            },
            None => Err("Index doesn't exist"),
        }
    }

    /// The number of values in the array.
    pub fn len(&self) -> (count: usize)
        ensures
            count == self@.len(),
    {
        self.item_count
    }
}

impl<'a> Clone for JsonArray<'a> {
    /// A copy of the array with copies of everything stored in it.
    fn clone(&self) -> (copy: Self)
        ensures
            self.wf() ==> copy.wf() && copy@ == self@,
        decreases *self,
    {
        let mut arrays: Vec<ArrayItem<JsonArray<'a>>> = Vec::new();
        let mut i: usize = 0;
        while i < self.arrays.len()
            invariant
                i <= self.arrays@.len(),
                arrays@.len() == i,
                forall|k: int|
                    0 <= k < i ==> (#[trigger] arrays@[k]).index == self.arrays@[k].index && (
                    self.arrays@[k].item.wf() ==> arrays@[k].item.wf() && arrays@[k].item@
                        == self.arrays@[k].item@),
            decreases self.arrays@.len() - i,
        {
            let item = self.arrays[i].item.clone();
            arrays.push(ArrayItem { item, index: self.arrays[i].index });
            i += 1;
        }

        let mut objects: Vec<ArrayItem<JsonObject<'a>>> = Vec::new();
        let mut i: usize = 0;
        while i < self.objects.len()
            invariant
                i <= self.objects@.len(),
                objects@.len() == i,
                forall|k: int|
                    0 <= k < i ==> (#[trigger] objects@[k]).index == self.objects@[k].index && (
                    self.objects@[k].item.wf() ==> objects@[k].item.wf() && objects@[k].item@
                        == self.objects@[k].item@),
            decreases self.objects@.len() - i,
        {
            let item = self.objects[i].item.clone();
            objects.push(ArrayItem { item, index: self.objects[i].index });
            i += 1;
        }

        let copy = Self {
            ints: copy_items(&self.ints),
            floats: copy_items(&self.floats),
            bools: copy_items(&self.bools),
            strings: clone_strings(&self.strings),
            arrays,
            objects,
            nulls: copy_items(&self.nulls),
            item_count: self.item_count,
        };
        proof {
            if self.wf() {
                let count = self.item_count as int;
                lemma_same_indices(self.arrays@, copy.arrays@, count);
                lemma_same_indices(self.objects@, copy.objects@, count);
                assert forall|index: int|
                    #![trigger copy.occupancy(index)]
                    copy.occupancy(index) == self.occupancy(index) by {}
                assert forall|index: int| 0 <= index < count implies copy.occupancy(index)
                    == 1 by {
                    assert(self.occupancy(index) == 1);
                }
                assert forall|index: int| 0 <= index < count implies copy@[index]
                    == self@[index] by {
                    assert(copy@[index] == copy.value_at(index));
                    assert(self@[index] == self.value_at(index));
                    assert(self.occupancy(index) == 1);
                }
                assert(copy@ =~= self@);
            }
        }
        copy
    }
}

} // verus!
