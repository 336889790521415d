//! Key and value pairs in which no key occurs twice: one partition of an
//! object.

use vstd::prelude::*;

verus! {

/// A key with the value stored under it.
#[derive(Debug)]
pub struct Entry<'a, V> {
    pub key: &'a str,
    pub value: V,
}

/// Some entry has the key `key`.
pub open spec fn has_key<V>(entries: Seq<Entry<V>>, key: Seq<char>) -> bool {
    exists|k: int| 0 <= k < entries.len() && (#[trigger] entries[k]).key@ == key
}

/// A slot whose entry has the key `key`.
pub open spec fn slot_of_key<V>(entries: Seq<Entry<V>>, key: Seq<char>) -> int {
    choose|k: int| 0 <= k < entries.len() && (#[trigger] entries[k]).key@ == key
}

/// The value stored under `key`.
pub open spec fn value_of<V>(entries: Seq<Entry<V>>, key: Seq<char>) -> V {
    entries[slot_of_key(entries, key)].value
}

/// No two entries share a key.
pub open spec fn unique_keys<V>(entries: Seq<Entry<V>>) -> bool {
    forall|j: int, k: int|
        0 <= j < k < entries.len() ==> (#[trigger] entries[j]).key@ != (#[trigger] entries[k]).key@
}

/// The mapping that the entries stand for.
pub open spec fn as_map<V>(entries: Seq<Entry<V>>) -> Map<Seq<char>, V> {
    Map::new(|key: Seq<char>| has_key(entries, key), |key: Seq<char>| value_of(entries, key))
}

/// Where no key occurs twice, a key leads to the one slot that has it.
pub proof fn lemma_key_slot_unique<V>(entries: Seq<Entry<V>>, k: int)
    requires
        unique_keys(entries),
        0 <= k < entries.len(),
    ensures
        has_key(entries, entries[k].key@),
        slot_of_key(entries, entries[k].key@) == k,
        value_of(entries, entries[k].key@) == entries[k].value,
{
    let j = slot_of_key(entries, entries[k].key@);
    assert(0 <= j < entries.len() && entries[j].key@ == entries[k].key@);
    if j < k {
        assert(entries[j].key@ != entries[k].key@);
    } else if k < j {
        assert(entries[k].key@ != entries[j].key@);
    }
}

/// What appending an entry under a fresh key does.
pub proof fn lemma_put_new<V>(entries: Seq<Entry<V>>, added: Entry<V>)
    requires
        unique_keys(entries),
        !has_key(entries, added.key@),
    ensures
        unique_keys(entries.push(added)),
        forall|key: Seq<char>|
            has_key(entries.push(added), key) <==> has_key(entries, key) || key == added.key@,
        forall|key: Seq<char>|
            has_key(entries, key) ==> value_of(entries.push(added), key) == value_of(entries, key),
        value_of(entries.push(added), added.key@) == added.value,
        as_map(entries.push(added)) == as_map(entries).insert(added.key@, added.value),
{
    let grown = entries.push(added);
    assert forall|j: int, k: int| 0 <= j < k < grown.len() implies (#[trigger] grown[j]).key@ != (
    #[trigger] grown[k]).key@ by {
        if k == entries.len() {
            assert(grown[j] == entries[j]);
        } else {
            assert(grown[j] == entries[j] && grown[k] == entries[k]);
        }
    }
    assert forall|key: Seq<char>| has_key(grown, key) <==> has_key(entries, key) || key
        == added.key@ by {
        if has_key(entries, key) {
            let k = slot_of_key(entries, key);
            assert(grown[k] == entries[k]);
        }
        if key == added.key@ {
            assert(grown[entries.len() as int].key@ == key);
        }
        if has_key(grown, key) {
            let k = slot_of_key(grown, key);
            if k < entries.len() {
                assert(entries[k] == grown[k]);
            }
        }
    }
    assert forall|key: Seq<char>| has_key(entries, key) implies value_of(grown, key) == value_of(
        entries,
        key,
    ) by {
        let k = slot_of_key(entries, key);
        assert(grown[k] == entries[k]);
        lemma_key_slot_unique(grown, k);
    }
    lemma_key_slot_unique(grown, entries.len() as int);
    assert(as_map(grown) =~= as_map(entries).insert(added.key@, added.value));
}

/// What replacing the value in slot `k` does.
pub proof fn lemma_put_over<V>(entries: Seq<Entry<V>>, after: Seq<Entry<V>>, k: int, value: V)
    requires
        unique_keys(entries),
        0 <= k < entries.len(),
        after.len() == entries.len(),
        after[k].key@ == entries[k].key@,
        after[k].value == value,
        forall|j: int| 0 <= j < entries.len() && j != k ==> after[j] == entries[j],
    ensures
        unique_keys(after),
        forall|key: Seq<char>| has_key(after, key) <==> has_key(entries, key),
        forall|key: Seq<char>|
            has_key(entries, key) && key != entries[k].key@ ==> value_of(after, key) == value_of(
                entries,
                key,
            ),
        value_of(after, entries[k].key@) == value,
        as_map(after) == as_map(entries).insert(entries[k].key@, value),
{
    assert forall|j: int| 0 <= j < entries.len() implies (#[trigger] after[j]).key@
        == entries[j].key@ by {}
    assert forall|i: int, j: int| 0 <= i < j < after.len() implies (#[trigger] after[i]).key@ != (
    #[trigger] after[j]).key@ by {
        assert(entries[i].key@ != entries[j].key@);
    }
    assert forall|key: Seq<char>| has_key(after, key) <==> has_key(entries, key) by {
        if has_key(entries, key) {
            let j = slot_of_key(entries, key);
            assert(after[j].key@ == key);
        }
        if has_key(after, key) {
            let j = slot_of_key(after, key);
            assert(entries[j].key@ == key);
        }
    }
    assert forall|key: Seq<char>| has_key(entries, key) && key != entries[k].key@ implies value_of(
        after,
        key,
    ) == value_of(entries, key) by {
        let j = slot_of_key(entries, key);
        assert(after[j] == entries[j]);
        lemma_key_slot_unique(after, j);
    }
    lemma_key_slot_unique(after, k);
    assert(as_map(after) =~= as_map(entries).insert(entries[k].key@, value));
}

/// What taking the entry in slot `k` out does.
pub proof fn lemma_take<V>(entries: Seq<Entry<V>>, k: int)
    requires
        unique_keys(entries),
        0 <= k < entries.len(),
    ensures
        unique_keys(entries.remove(k)),
        forall|key: Seq<char>|
            has_key(entries.remove(k), key) <==> has_key(entries, key) && key != entries[k].key@,
        forall|key: Seq<char>|
            has_key(entries.remove(k), key) ==> value_of(entries.remove(k), key) == value_of(
                entries,
                key,
            ),
        as_map(entries.remove(k)) == as_map(entries).remove(entries[k].key@),
{
    let rest = entries.remove(k);
    let origin = |j: int|
        if j < k {
            j
        } else {
            j + 1
        };
    assert forall|j: int| 0 <= j < rest.len() implies (#[trigger] rest[j]) == entries[origin(j)]
        && rest[j].key@ != entries[k].key@ by {
        if origin(j) < k {
            assert(entries[origin(j)].key@ != entries[k].key@);
        } else {
            assert(entries[k].key@ != entries[origin(j)].key@);
        }
    }
    assert forall|i: int, j: int| 0 <= i < j < rest.len() implies (#[trigger] rest[i]).key@ != (
    #[trigger] rest[j]).key@ by {
        assert(entries[origin(i)].key@ != entries[origin(j)].key@);
    }
    assert forall|key: Seq<char>| has_key(rest, key) <==> has_key(entries, key) && key
        != entries[k].key@ by {
        if has_key(rest, key) {
            let j = slot_of_key(rest, key);
            assert(entries[origin(j)].key@ == key);
        }
        if has_key(entries, key) && key != entries[k].key@ {
            let m = slot_of_key(entries, key);
            let j = if m < k {
                m
            } else {
                m - 1
            };
            assert(origin(j) == m);
            assert(rest[j].key@ == key);
        }
    }
    assert forall|key: Seq<char>| has_key(rest, key) implies value_of(rest, key) == value_of(
        entries,
        key,
    ) by {
        let j = slot_of_key(rest, key);
        assert(rest[j] == entries[origin(j)]);
        lemma_key_slot_unique(entries, origin(j));
    }
    assert(as_map(rest) =~= as_map(entries).remove(entries[k].key@));
}

/// `b` has the keys of `a`, slot by slot.
pub open spec fn same_keys<V>(a: Seq<Entry<V>>, b: Seq<Entry<V>>) -> bool {
    &&& a.len() == b.len()
    &&& forall|k: int| 0 <= k < a.len() ==> (#[trigger] a[k]).key@ == b[k].key@
}

/// Two runs of entries with the same keys, slot by slot, store each key in
/// the same slot.
pub proof fn lemma_same_keys<V>(a: Seq<Entry<V>>, b: Seq<Entry<V>>)
    requires
        same_keys(a, b),
        unique_keys(a),
    ensures
        unique_keys(b),
        forall|key: Seq<char>| has_key(b, key) <==> has_key(a, key),
        forall|key: Seq<char>| has_key(a, key) ==> slot_of_key(b, key) == slot_of_key(a, key),
{
    assert forall|k: int| 0 <= k < b.len() implies (#[trigger] b[k]).key@ == a[k].key@ by {}
    assert forall|j: int, k: int| 0 <= j < k < b.len() implies (#[trigger] b[j]).key@ != (
    #[trigger] b[k]).key@ by {
        assert(a[j].key@ != a[k].key@);
    }
    assert forall|key: Seq<char>| has_key(b, key) <==> has_key(a, key) by {
        if has_key(b, key) {
            assert(a[slot_of_key(b, key)].key@ == key);
        }
        if has_key(a, key) {
            assert(b[slot_of_key(a, key)].key@ == key);
        }
    }
    assert forall|key: Seq<char>| has_key(a, key) implies slot_of_key(b, key) == slot_of_key(
        a,
        key,
    ) by {
        let k = slot_of_key(a, key);
        assert(b[k].key@ == key);
        lemma_key_slot_unique(b, k);
    }
}

/// A copy of a run of entries with plain values.
pub fn copy_entries<'a, V: Copy>(entries: &Vec<Entry<'a, V>>) -> (copy: Vec<Entry<'a, V>>)
    ensures
        copy@ == entries@,
{
    let mut copy: Vec<Entry<'a, V>> = Vec::new();
    let mut i: usize = 0;
    while i < entries.len()
        invariant
            i <= entries@.len(),
            copy@ == entries@.take(i as int),
        decreases entries@.len() - i,
    {
        copy.push(Entry { key: entries[i].key, value: entries[i].value });
        assert(copy@ =~= entries@.take(i + 1));
        i += 1;
    }
    assert(entries@.take(i as int) =~= entries@);
    copy
}

/// A copy of a run of entries with strings for values.
pub fn clone_string_entries<'a>(entries: &Vec<Entry<'a, String>>) -> (copy: Vec<Entry<'a, String>>)
    ensures
        copy@ == entries@,
{
    let mut copy: Vec<Entry<'a, String>> = Vec::new();
    let mut i: usize = 0;
    while i < entries.len()
        invariant
            i <= entries@.len(),
            copy@ == entries@.take(i as int),
        decreases entries@.len() - i,
    {
        copy.push(Entry { key: entries[i].key, value: entries[i].value.clone() });
        assert(copy@ =~= entries@.take(i + 1));
        i += 1;
    }
    assert(entries@.take(i as int) =~= entries@);
    copy
}

/// The slot of the entry with the key `key`, if there is one.
pub fn find_key<V>(entries: &Vec<Entry<V>>, key: &str) -> (slot: Option<usize>)
    ensures
        match slot {
            Some(k) => k < entries@.len() && entries@[k as int].key@ == key@,
            None => !has_key(entries@, key@),
        },
{
    let mut i: usize = 0;
    while i < entries.len()
        invariant
            i <= entries@.len(),
            forall|k: int| 0 <= k < i ==> (#[trigger] entries@[k]).key@ != key@,
        decreases entries@.len() - i,
    {
        if entries[i].key.eq(key) {
            return Some(i);
        }
        i += 1;
    }
    None
}

} // verus!
