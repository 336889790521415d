//! JSON objects.
//!
//! An object keeps its values in seven partitions, one for each kind of
//! value. A partition is a set of key and value pairs in which no key occurs
//! twice. The partitions are independent of each other: every operation
//! works on the one partition that its name selects.

use vstd::prelude::*;
use crate::array::JsonArray;
use crate::pairs::{
    as_map, clone_string_entries, copy_entries, find_key, has_key, lemma_key_slot_unique,
    lemma_put_new, lemma_put_over, lemma_same_keys, lemma_take, unique_keys, value_of, Entry,
};
use crate::value::{FloatBits, JsonValue, Null, ObjectView};

verus! {

/// A JSON object: keys with the values stored under them, partitioned by
/// the kind of the value.
#[derive(Debug)]
pub struct JsonObject<'a> {
    int_pairs: Vec<Entry<'a, i64>>,
    float_pairs: Vec<Entry<'a, FloatBits>>,
    bool_pairs: Vec<Entry<'a, bool>>,
    string_pairs: Vec<Entry<'a, String>>,
    array_pairs: Vec<Entry<'a, JsonArray<'a>>>,
    object_pairs: Vec<Entry<'a, JsonObject<'a>>>,
    null_pairs: Vec<Entry<'a, Null>>,
}

impl<'a> JsonObject<'a> {
    /// The array stored under `key`.
    spec fn array_under(&self, key: Seq<char>) -> Seq<JsonValue>
        decreases *self, 0int,
    {
        if has_key(self.array_pairs@, key) {
            value_of(self.array_pairs@, key).view()
        } else {
            Seq::empty()
        }
    }

    /// The object stored under `key`.
    spec fn object_under(&self, key: Seq<char>) -> ObjectView
        decreases *self, 0int,
    {
        if has_key(self.object_pairs@, key) {
            value_of(self.object_pairs@, key).view()
        } else {
            ObjectView::empty()
        }
    }

    /// The mappings the object stands for, one for each kind of value.
    pub closed spec fn view(&self) -> ObjectView
        decreases *self, 1int,
    {
        ObjectView {
            ints: as_map(self.int_pairs@),
            floats: as_map(self.float_pairs@),
            bools: as_map(self.bool_pairs@),
            strings: Map::new(
                |key: Seq<char>| has_key(self.string_pairs@, key),
                |key: Seq<char>| value_of(self.string_pairs@, key)@,
            ),
            arrays: Map::new(
                |key: Seq<char>| has_key(self.array_pairs@, key),
                |key: Seq<char>| self.array_under(key),
            ),
            objects: Map::new(
                |key: Seq<char>| has_key(self.object_pairs@, key),
                |key: Seq<char>| self.object_under(key),
            ),
            nulls: as_map(self.null_pairs@),
        }
    }

    /// The object is well formed: within one partition no key occurs
    /// twice, and the arrays and objects stored in it are well formed.
    pub closed spec fn wf(&self) -> bool
        decreases *self, 1int,
    {
        &&& unique_keys(self.int_pairs@)
        &&& unique_keys(self.float_pairs@)
        &&& unique_keys(self.bool_pairs@)
        &&& unique_keys(self.string_pairs@)
        &&& unique_keys(self.array_pairs@)
        &&& unique_keys(self.object_pairs@)
        &&& unique_keys(self.null_pairs@)
        &&& forall|k: int|
            0 <= k < self.array_pairs@.len() ==> (#[trigger] self.array_pairs@[k]).value.wf()
        &&& forall|k: int|
            0 <= k < self.object_pairs@.len() ==> (#[trigger] self.object_pairs@[k]).value.wf()
    }

    /// The empty object.
    pub fn new() -> (object: Self)
        ensures
            object.wf(),
            object@ == ObjectView::empty(),
    {
        let object = Self {
            int_pairs: Vec::new(),
            float_pairs: Vec::new(),
            bool_pairs: Vec::new(),
            string_pairs: Vec::new(),
            array_pairs: Vec::new(),
            object_pairs: Vec::new(),
            null_pairs: Vec::new(),
        };
        assert(object@.ints =~= Map::empty());
        assert(object@.floats =~= Map::empty());
        assert(object@.bools =~= Map::empty());
        assert(object@.strings =~= Map::empty());
        assert(object@.arrays =~= Map::empty());
        assert(object@.objects =~= Map::empty());
        assert(object@.nulls =~= Map::empty());
        object
    }

    /// A partition that stays as it is stands for the same mapping.
    proof fn lemma_unchanged(before: &Self, after: &Self)
        ensures
            after.int_pairs == before.int_pairs ==> after@.ints == before@.ints,
            after.float_pairs == before.float_pairs ==> after@.floats == before@.floats,
            after.bool_pairs == before.bool_pairs ==> after@.bools == before@.bools,
            after.string_pairs == before.string_pairs ==> after@.strings == before@.strings,
            after.array_pairs == before.array_pairs ==> after@.arrays == before@.arrays,
            after.object_pairs == before.object_pairs ==> after@.objects == before@.objects,
            after.null_pairs == before.null_pairs ==> after@.nulls == before@.nulls,
    {
        if after.int_pairs == before.int_pairs {
            assert(after@.ints =~= before@.ints);
        }
        if after.float_pairs == before.float_pairs {
            assert(after@.floats =~= before@.floats);
        }
        if after.bool_pairs == before.bool_pairs {
            assert(after@.bools =~= before@.bools);
        }
        if after.string_pairs == before.string_pairs {
            assert(after@.strings =~= before@.strings);
        }
        if after.array_pairs == before.array_pairs {
            assert(after@.arrays =~= before@.arrays);
        }
        if after.object_pairs == before.object_pairs {
            assert(after@.objects =~= before@.objects);
        }
        if after.null_pairs == before.null_pairs {
            assert(after@.nulls =~= before@.nulls);
        }
    }

    /// Stores an integer under `key` in the partition of its kind. A value
    /// that this partition held under `key` is replaced; the other
    /// partitions are not looked at.
    pub fn insert_int(&mut self, key: &'a str, value: i64)
        requires
            old(self).wf(),
        ensures
            final(self).wf(),
            final(self)@ == (ObjectView {
                ints: old(self)@.ints.insert(key@, value),
                ..old(self)@
            }),
    {
        match find_key(&self.int_pairs, key) {
            Some(slot) => {
                self.int_pairs[slot].value = value;
                proof {
                    lemma_put_over(old(self).int_pairs@, self.int_pairs@, slot as int, value);
                }
            },
            None => {
                let entry = Entry { key, value };
                proof {
                    lemma_put_new(self.int_pairs@, entry);
                }
                self.int_pairs.push(entry);
            },
        }
        proof {
            Self::lemma_unchanged(old(self), self);
            assert(self@.ints =~= old(self)@.ints.insert(key@, value));
        }
    }

    /// Stores a floating point number under `key` in the partition of its kind.
    /// A value that this partition held under `key` is replaced; the other
    /// partitions are not looked at.
    pub fn insert_float(&mut self, key: &'a str, value: FloatBits)
        requires
            old(self).wf(),
        ensures
            final(self).wf(),
            final(self)@ == (ObjectView {
                floats: old(self)@.floats.insert(key@, value),
                ..old(self)@
            }),
    {
        match find_key(&self.float_pairs, key) {
            Some(slot) => {
                self.float_pairs[slot].value = value;
                proof {
                    lemma_put_over(old(self).float_pairs@, self.float_pairs@, slot as int, value);
                }
            },
            None => {
                let entry = Entry { key, value };
                proof {
                    lemma_put_new(self.float_pairs@, entry);
                }
                self.float_pairs.push(entry);
            },
        }
        proof {
            Self::lemma_unchanged(old(self), self);
            assert(self@.floats =~= old(self)@.floats.insert(key@, value));
        }
    }

    /// Stores a boolean under `key` in the partition of its kind. A value
    /// that this partition held under `key` is replaced; the other
    /// partitions are not looked at.
    pub fn insert_bool(&mut self, key: &'a str, value: bool)
        requires
            old(self).wf(),
        ensures
            final(self).wf(),
            final(self)@ == (ObjectView {
                bools: old(self)@.bools.insert(key@, value),
                ..old(self)@
            }),
    {
        match find_key(&self.bool_pairs, key) {
            Some(slot) => {
                self.bool_pairs[slot].value = value;
                proof {
                    lemma_put_over(old(self).bool_pairs@, self.bool_pairs@, slot as int, value);
                }
            },
            None => {
                let entry = Entry { key, value };
                proof {
                    lemma_put_new(self.bool_pairs@, entry);
                }
                self.bool_pairs.push(entry);
            },
        }
        proof {
            Self::lemma_unchanged(old(self), self);
            assert(self@.bools =~= old(self)@.bools.insert(key@, value));
        }
    }

    /// Stores a string under `key` in the partition of its kind. A value
    /// that this partition held under `key` is replaced; the other
    /// partitions are not looked at.
    pub fn insert_string(&mut self, key: &'a str, value: String)
        requires
            old(self).wf(),
        ensures
            final(self).wf(),
            final(self)@ == (ObjectView {
                strings: old(self)@.strings.insert(key@, value@),
                ..old(self)@
            }),
    {
        match find_key(&self.string_pairs, key) {
            Some(slot) => {
                self.string_pairs[slot].value = value;
                proof {
                    lemma_put_over(old(self).string_pairs@, self.string_pairs@, slot as int, value);
                }
            },
            None => {
                let entry = Entry { key, value };
                proof {
                    lemma_put_new(self.string_pairs@, entry);
                }
                self.string_pairs.push(entry);
            },
        }
        proof {
            Self::lemma_unchanged(old(self), self);
            assert(self@.strings =~= old(self)@.strings.insert(key@, value@));
        }
    }

    /// Stores an array under `key` in the partition of its kind. A value
    /// that this partition held under `key` is replaced; the other
    /// partitions are not looked at.
    pub fn insert_array(&mut self, key: &'a str, value: JsonArray<'a>)
        requires
            old(self).wf(),
            value.wf(),
        ensures
            final(self).wf(),
            final(self)@ == (ObjectView {
                arrays: old(self)@.arrays.insert(key@, value@),
                ..old(self)@
            }),
    {
        match find_key(&self.array_pairs, key) {
            Some(slot) => {
                self.array_pairs[slot].value = value;
                proof {
                    lemma_put_over(old(self).array_pairs@, self.array_pairs@, slot as int, value);
                }
            },
            None => {
                let entry = Entry { key, value };
                proof {
                    lemma_put_new(self.array_pairs@, entry);
                }
                self.array_pairs.push(entry);
            },
        }
        proof {
            Self::lemma_unchanged(old(self), self);
            assert(self@.arrays =~= old(self)@.arrays.insert(key@, value@));
        }
    }

    /// Stores an object under `key` in the partition of its kind. A value
    /// that this partition held under `key` is replaced; the other
    /// partitions are not looked at.
    pub fn insert_object(&mut self, key: &'a str, value: JsonObject<'a>)
        requires
            old(self).wf(),
            value.wf(),
        ensures
            final(self).wf(),
            final(self)@ == (ObjectView {
                objects: old(self)@.objects.insert(key@, value@),
                ..old(self)@
            }),
    {
        match find_key(&self.object_pairs, key) {
            Some(slot) => {
                self.object_pairs[slot].value = value;
                proof {
                    lemma_put_over(old(self).object_pairs@, self.object_pairs@, slot as int, value);
                }
            },
            None => {
                let entry = Entry { key, value };
                proof {
                    lemma_put_new(self.object_pairs@, entry);
                }
                self.object_pairs.push(entry);
            },
        }
        proof {
            Self::lemma_unchanged(old(self), self);
            assert(self@.objects =~= old(self)@.objects.insert(key@, value@));
        }
    }

    /// Stores a `null` under `key` in the partition of its kind. A value
    /// that this partition held under `key` is replaced; the other
    /// partitions are not looked at.
    pub fn insert_null(&mut self, key: &'a str, value: Null)
        requires
            old(self).wf(),
        ensures
            final(self).wf(),
            final(self)@ == (ObjectView {
                nulls: old(self)@.nulls.insert(key@, value),
                ..old(self)@
            }),
    {
        match find_key(&self.null_pairs, key) {
            Some(slot) => {
                self.null_pairs[slot].value = value;
                proof {
                    lemma_put_over(old(self).null_pairs@, self.null_pairs@, slot as int, value);
                }
            },
            None => {
                let entry = Entry { key, value };
                proof {
                    lemma_put_new(self.null_pairs@, entry);
                }
                self.null_pairs.push(entry);
            },
        }
        proof {
            Self::lemma_unchanged(old(self), self);
            assert(self@.nulls =~= old(self)@.nulls.insert(key@, value));
        }
    }

    /// Takes the value that the partition of ints holds under `key` out of
    /// the object and hands it back, or `None` where it holds none.
    pub fn delete_int(&mut self, key: &'a str) -> (removed: Option<i64>)
        requires
            old(self).wf(),
        ensures
            final(self).wf(),
            match removed {
                Some(value) => {
                    &&& old(self)@.ints.contains_key(key@)
                    &&& value == old(self)@.ints[key@]
                },
                None => !old(self)@.ints.contains_key(key@),
            },
            final(self)@ == (ObjectView { ints: old(self)@.ints.remove(key@), ..old(self)@ }),
    {
        match find_key(&self.int_pairs, key) {
            Some(slot) => {
                proof {
                    lemma_take(self.int_pairs@, slot as int);
                    lemma_key_slot_unique(self.int_pairs@, slot as int);
                }
                let entry = self.int_pairs.remove(slot);
                proof {
                    Self::lemma_unchanged(old(self), self);
                    assert(self@.ints =~= old(self)@.ints.remove(key@));
                }
                Some(entry.value)
            },
            None => {
                proof {
                    assert(self@.ints =~= old(self)@.ints.remove(key@));
                }
                None
            },
        }
    }

    /// Takes the value that the partition of floats holds under `key` out of
    /// the object and hands it back, or `None` where it holds none.
    pub fn delete_float(&mut self, key: &'a str) -> (removed: Option<FloatBits>)
        requires
            old(self).wf(),
        ensures
            final(self).wf(),
            match removed {
                Some(value) => {
                    &&& old(self)@.floats.contains_key(key@)
                    &&& value == old(self)@.floats[key@]
                },
                None => !old(self)@.floats.contains_key(key@),
            },
            final(self)@ == (ObjectView { floats: old(self)@.floats.remove(key@), ..old(self)@ }),
    {
        match find_key(&self.float_pairs, key) {
            Some(slot) => {
                proof {
                    lemma_take(self.float_pairs@, slot as int);
                    lemma_key_slot_unique(self.float_pairs@, slot as int);
                }
                let entry = self.float_pairs.remove(slot);
                proof {
                    Self::lemma_unchanged(old(self), self);
                    assert(self@.floats =~= old(self)@.floats.remove(key@));
                }
                Some(entry.value)
            },
            None => {
                proof {
                    assert(self@.floats =~= old(self)@.floats.remove(key@));
                }
                None
            },
        }
    }

    /// Takes the value that the partition of bools holds under `key` out of
    /// the object and hands it back, or `None` where it holds none.
    pub fn delete_bool(&mut self, key: &'a str) -> (removed: Option<bool>)
        requires
            old(self).wf(),
        ensures
            final(self).wf(),
            match removed {
                Some(value) => {
                    &&& old(self)@.bools.contains_key(key@)
                    &&& value == old(self)@.bools[key@]
                },
                None => !old(self)@.bools.contains_key(key@),
            },
            final(self)@ == (ObjectView { bools: old(self)@.bools.remove(key@), ..old(self)@ }),
    {
        match find_key(&self.bool_pairs, key) {
            Some(slot) => {
                proof {
                    lemma_take(self.bool_pairs@, slot as int);
                    lemma_key_slot_unique(self.bool_pairs@, slot as int);
                }
                let entry = self.bool_pairs.remove(slot);
                proof {
                    Self::lemma_unchanged(old(self), self);
                    assert(self@.bools =~= old(self)@.bools.remove(key@));
                }
                Some(entry.value)
            },
            None => {
                proof {
                    assert(self@.bools =~= old(self)@.bools.remove(key@));
                }
                None
            },
        }
    }

    /// Takes the value that the partition of strings holds under `key` out of
    /// the object and hands it back, or `None` where it holds none.
    pub fn delete_string(&mut self, key: &'a str) -> (removed: Option<String>)
        requires
            old(self).wf(),
        ensures
            final(self).wf(),
            match removed {
                Some(value) => {
                    &&& old(self)@.strings.contains_key(key@)
                    &&& value@ == old(self)@.strings[key@]
                },
                None => !old(self)@.strings.contains_key(key@),
            },
            final(self)@ == (ObjectView { strings: old(self)@.strings.remove(key@), ..old(self)@ }),
    {
        match find_key(&self.string_pairs, key) {
            Some(slot) => {
                proof {
                    lemma_take(self.string_pairs@, slot as int);
                    lemma_key_slot_unique(self.string_pairs@, slot as int);
                }
                let entry = self.string_pairs.remove(slot);
                proof {
                    Self::lemma_unchanged(old(self), self);
                    assert(self@.strings =~= old(self)@.strings.remove(key@));
                }
                Some(entry.value)
            },
            None => {
                proof {
                    assert(self@.strings =~= old(self)@.strings.remove(key@));
                }
                None
            },
        }
    }

    /// Takes the value that the partition of arrays holds under `key` out of
    /// the object and hands it back, or `None` where it holds none.
    pub fn delete_array(&mut self, key: &'a str) -> (removed: Option<JsonArray<'a>>)
        requires
            old(self).wf(),
        ensures
            final(self).wf(),
            match removed {
                Some(value) => {
                    &&& old(self)@.arrays.contains_key(key@)
                    &&& value@ == old(self)@.arrays[key@]
                    &&& value.wf()
                },
                None => !old(self)@.arrays.contains_key(key@),
            },
            final(self)@ == (ObjectView { arrays: old(self)@.arrays.remove(key@), ..old(self)@ }),
    {
        match find_key(&self.array_pairs, key) {
            Some(slot) => {
                proof {
                    lemma_take(self.array_pairs@, slot as int);
                    lemma_key_slot_unique(self.array_pairs@, slot as int);
                }
                let entry = self.array_pairs.remove(slot);
                proof {
                    Self::lemma_unchanged(old(self), self);
                    assert(self@.arrays =~= old(self)@.arrays.remove(key@));
                }
                Some(entry.value)
            },
            None => {
                proof {
                    assert(self@.arrays =~= old(self)@.arrays.remove(key@));
                }
                None
            },
        }
    }

    /// Takes the value that the partition of objects holds under `key` out of
    /// the object and hands it back, or `None` where it holds none.
    pub fn delete_object(&mut self, key: &'a str) -> (removed: Option<JsonObject<'a>>)
        requires
            old(self).wf(),
        ensures
            final(self).wf(),
            match removed {
                Some(value) => {
                    &&& old(self)@.objects.contains_key(key@)
                    &&& value@ == old(self)@.objects[key@]
                    &&& value.wf()
                },
                None => !old(self)@.objects.contains_key(key@),
            },
            final(self)@ == (ObjectView { objects: old(self)@.objects.remove(key@), ..old(self)@ }),
    {
        match find_key(&self.object_pairs, key) {
            Some(slot) => {
                proof {
                    lemma_take(self.object_pairs@, slot as int);
                    lemma_key_slot_unique(self.object_pairs@, slot as int);
                }
                let entry = self.object_pairs.remove(slot);
                proof {
                    Self::lemma_unchanged(old(self), self);
                    assert(self@.objects =~= old(self)@.objects.remove(key@));
                }
                Some(entry.value)
            },
            None => {
                proof {
                    assert(self@.objects =~= old(self)@.objects.remove(key@));
                }
                None
            },
        }
    }

    /// Takes the value that the partition of nulls holds under `key` out of
    /// the object and hands it back, or `None` where it holds none.
    pub fn delete_null(&mut self, key: &'a str) -> (removed: Option<Null>)
        requires
            old(self).wf(),
        ensures
            final(self).wf(),
            match removed {
                Some(value) => {
                    &&& old(self)@.nulls.contains_key(key@)
                    &&& value == old(self)@.nulls[key@]
                },
                None => !old(self)@.nulls.contains_key(key@),
            },
            final(self)@ == (ObjectView { nulls: old(self)@.nulls.remove(key@), ..old(self)@ }),
    {
        match find_key(&self.null_pairs, key) {
            Some(slot) => {
                proof {
                    lemma_take(self.null_pairs@, slot as int);
                    lemma_key_slot_unique(self.null_pairs@, slot as int);
                }
                let entry = self.null_pairs.remove(slot);
                proof {
                    Self::lemma_unchanged(old(self), self);
                    assert(self@.nulls =~= old(self)@.nulls.remove(key@));
                }
                Some(entry.value)
            },
            None => {
                proof {
                    assert(self@.nulls =~= old(self)@.nulls.remove(key@));
                }
                None
            },
        }
    }

    /// A copy of the value that the partition of ints holds under `key`, or
    /// `None` where it holds none.
    pub fn get_int(&self, key: &'a str) -> (found: Option<i64>)
        requires
            self.wf(),
        ensures
            match found {
                Some(value) => {
                    &&& self@.ints.contains_key(key@)
                    &&& value == self@.ints[key@]
                },
                None => !self@.ints.contains_key(key@),
            },
    {
        match find_key(&self.int_pairs, key) {
            Some(slot) => {
                proof {
                    lemma_key_slot_unique(self.int_pairs@, slot as int);
                }
                Some(self.int_pairs[slot].value)
            },
            None => None,
        }
    }

    /// A copy of the value that the partition of floats holds under `key`, or
    /// `None` where it holds none.
    pub fn get_float(&self, key: &'a str) -> (found: Option<FloatBits>)
        requires
            self.wf(),
        ensures
            match found {
                Some(value) => {
                    &&& self@.floats.contains_key(key@)
                    &&& value == self@.floats[key@]
                },
                None => !self@.floats.contains_key(key@),
            },
    {
        match find_key(&self.float_pairs, key) {
            Some(slot) => {
                proof {
                    lemma_key_slot_unique(self.float_pairs@, slot as int);
                }
                Some(self.float_pairs[slot].value)
            },
            None => None,
        }
    }

    /// A copy of the value that the partition of bools holds under `key`, or
    /// `None` where it holds none.
    pub fn get_bool(&self, key: &'a str) -> (found: Option<bool>)
        requires
            self.wf(),
        ensures
            match found {
                Some(value) => {
                    &&& self@.bools.contains_key(key@)
                    &&& value == self@.bools[key@]
                },
                None => !self@.bools.contains_key(key@),
            },
    {
        match find_key(&self.bool_pairs, key) {
            Some(slot) => {
                proof {
                    lemma_key_slot_unique(self.bool_pairs@, slot as int);
                }
                Some(self.bool_pairs[slot].value)
            },
            None => None,
        }
    }

    /// A copy of the value that the partition of strings holds under `key`, or
    /// `None` where it holds none.
    pub fn get_string(&self, key: &'a str) -> (found: Option<String>)
        requires
            self.wf(),
        ensures
            match found {
                Some(value) => {
                    &&& self@.strings.contains_key(key@)
                    &&& value@ == self@.strings[key@]
                },
                None => !self@.strings.contains_key(key@),
            },
    {
        match find_key(&self.string_pairs, key) {
            Some(slot) => {
                proof {
                    lemma_key_slot_unique(self.string_pairs@, slot as int);
                }
                Some(self.string_pairs[slot].value.clone())
            },
            None => None,
        }
    }

    /// A copy of the value that the partition of arrays holds under `key`, or
    /// `None` where it holds none.
    pub fn get_array(&self, key: &'a str) -> (found: Option<JsonArray<'a>>)
        requires
            self.wf(),
        ensures
            match found {
                Some(value) => {
                    &&& self@.arrays.contains_key(key@)
                    &&& value@ == self@.arrays[key@]
                    &&& value.wf()
                },
                None => !self@.arrays.contains_key(key@),
            },
    {
        match find_key(&self.array_pairs, key) {
            Some(slot) => {
                proof {
                    lemma_key_slot_unique(self.array_pairs@, slot as int);
                }
                Some(self.array_pairs[slot].value.clone())
            },
            None => None,
        }
    }

    /// A copy of the value that the partition of objects holds under `key`, or
    /// `None` where it holds none.
    pub fn get_object(&self, key: &'a str) -> (found: Option<JsonObject<'a>>)
        requires
            self.wf(),
        ensures
            match found {
                Some(value) => {
                    &&& self@.objects.contains_key(key@)
                    &&& value@ == self@.objects[key@]
                    &&& value.wf()
                },
                None => !self@.objects.contains_key(key@),
            },
    {
        match find_key(&self.object_pairs, key) {
            Some(slot) => {
                proof {
                    lemma_key_slot_unique(self.object_pairs@, slot as int);
                }
                Some(self.object_pairs[slot].value.clone())
            },
            None => None,
        }
    }

    /// A copy of the value that the partition of nulls holds under `key`, or
    /// `None` where it holds none.
    pub fn get_null(&self, key: &'a str) -> (found: Option<Null>)
        requires
            self.wf(),
        ensures
            match found {
                Some(value) => {
                    &&& self@.nulls.contains_key(key@)
                    &&& value == self@.nulls[key@]
                },
                None => !self@.nulls.contains_key(key@),
            },
    {
        match find_key(&self.null_pairs, key) {
            Some(slot) => {
                proof {
                    lemma_key_slot_unique(self.null_pairs@, slot as int);
                }
                Some(self.null_pairs[slot].value)
            },
            None => None,
        }
    }
}

impl<'a> Clone for JsonObject<'a> {
    /// A copy of the object with copies of everything stored in it.
    fn clone(&self) -> (copy: Self)
        ensures
            self.wf() ==> copy.wf() && copy@ == self@,
        decreases *self,
    {
        let mut array_pairs: Vec<Entry<'a, JsonArray<'a>>> = Vec::new();
        let mut i: usize = 0;
        while i < self.array_pairs.len()
            invariant
                i <= self.array_pairs@.len(),
                array_pairs@.len() == i,
                forall|k: int|
                    0 <= k < i ==> (#[trigger] array_pairs@[k]).key@ == self.array_pairs@[k].key@
                        && (self.array_pairs@[k].value.wf() ==> array_pairs@[k].value.wf()
                        && array_pairs@[k].value@ == self.array_pairs@[k].value@),
            decreases self.array_pairs@.len() - i,
        {
            let value = self.array_pairs[i].value.clone();
            array_pairs.push(Entry { key: self.array_pairs[i].key, value });
            i += 1;
        }

        let mut object_pairs: Vec<Entry<'a, JsonObject<'a>>> = Vec::new();
        let mut i: usize = 0;
        while i < self.object_pairs.len()
            invariant
                i <= self.object_pairs@.len(),
                object_pairs@.len() == i,
                forall|k: int|
                    0 <= k < i ==> (#[trigger] object_pairs@[k]).key@ == self.object_pairs@[k].key@
                        && (self.object_pairs@[k].value.wf() ==> object_pairs@[k].value.wf()
                        && object_pairs@[k].value@ == self.object_pairs@[k].value@),
            decreases self.object_pairs@.len() - i,
        {
            let value = self.object_pairs[i].value.clone();
            object_pairs.push(Entry { key: self.object_pairs[i].key, value });
            i += 1;
        }

        let copy = Self {
            int_pairs: copy_entries(&self.int_pairs),
            float_pairs: copy_entries(&self.float_pairs),
            bool_pairs: copy_entries(&self.bool_pairs),
            string_pairs: clone_string_entries(&self.string_pairs),
            array_pairs,
            object_pairs,
            null_pairs: copy_entries(&self.null_pairs),
        };
        proof {
            if self.wf() {
                lemma_same_keys(self.array_pairs@, copy.array_pairs@);
                lemma_same_keys(self.object_pairs@, copy.object_pairs@);
                Self::lemma_unchanged(self, &copy);
                assert(copy@.arrays =~= self@.arrays);
                assert(copy@.objects =~= self@.objects);
            }
        }
        copy
    }
}

} // verus!
