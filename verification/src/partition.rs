//! Items that carry their logical index, and the bookkeeping an array needs
//! on one partition of them.
//!
//! An array keeps its values in several partitions, one per kind of value.
//! Each stored item remembers the position it has in the array as a whole.

use vstd::prelude::*;

verus! {

/// A value together with its logical index: its position in the array as a
/// whole, not its slot in the partition that stores it.
#[derive(Debug)]
pub struct ArrayItem<T> {
    pub item: T,
    pub index: usize,
}

/// Some item of the partition has the logical index `index`.
pub open spec fn holds<T>(items: Seq<ArrayItem<T>>, index: int) -> bool {
    exists|k: int| 0 <= k < items.len() && (#[trigger] items[k]).index == index
}

/// A slot of the partition whose item has the logical index `index`.
pub open spec fn slot_of<T>(items: Seq<ArrayItem<T>>, index: int) -> int {
    choose|k: int| 0 <= k < items.len() && (#[trigger] items[k]).index == index
}

/// The value stored under the logical index `index`.
pub open spec fn item_at<T>(items: Seq<ArrayItem<T>>, index: int) -> T {
    items[slot_of(items, index)].item
}

/// No two items of the partition share a logical index.
pub open spec fn distinct<T>(items: Seq<ArrayItem<T>>) -> bool {
    forall|j: int, k: int|
        0 <= j < k < items.len() ==> (#[trigger] items[j]).index != (#[trigger] items[k]).index
}

/// Every logical index in the partition is less than `bound`.
pub open spec fn below<T>(items: Seq<ArrayItem<T>>, bound: int) -> bool {
    forall|k: int| 0 <= k < items.len() ==> (#[trigger] items[k]).index < bound
}

/// Some slot of the partition stores `item`.
pub open spec fn stores<T>(items: Seq<ArrayItem<T>>, item: T) -> bool {
    exists|m: int| 0 <= m < items.len() && (#[trigger] items[m]).item == item
}

/// The logical index that position `j` had before the item at `index` left
/// and the items behind it moved up by one.
pub open spec fn source(index: int, j: int) -> int {
    if j < index {
        j
    } else {
        j + 1
    }
}

/// `after` holds the items of `before`, slot by slot, with every logical
/// index greater than `index` lowered by one.
pub open spec fn lowered<T>(
    before: Seq<ArrayItem<T>>,
    after: Seq<ArrayItem<T>>,
    index: int,
) -> bool {
    &&& after.len() == before.len()
    &&& forall|k: int|
        0 <= k < before.len() ==> {
            &&& (#[trigger] after[k]).item == before[k].item
            &&& after[k].index == if before[k].index > index {
                before[k].index - 1
            } else {
                before[k].index as int
            }
        }
}

/// The number of items of the partition that have the logical index
/// `index`.
pub open spec fn copies<T>(items: Seq<ArrayItem<T>>, index: int) -> nat
    decreases items.len(),
{
    if items.len() == 0 {
        0
    } else if items.last().index == index {
        copies(items.drop_last(), index) + 1
    } else {
        copies(items.drop_last(), index)
    }
}

/// In a partition without repeated indices an index has one copy where the
/// partition holds it and none where it does not.
pub proof fn lemma_copies<T>(items: Seq<ArrayItem<T>>, index: int)
    requires
        distinct(items),
    ensures
        copies(items, index) == if holds(items, index) {
            1nat
        } else {
            0nat
        },
    decreases items.len(),
{
    if items.len() > 0 {
        let front = items.drop_last();
        assert forall|j: int, k: int| 0 <= j < k < front.len() implies (#[trigger] front[j]).index
            != (#[trigger] front[k]).index by {
            assert(front[j] == items[j] && front[k] == items[k]);
        }
        lemma_copies(front, index);
        if holds(front, index) {
            let k = slot_of(front, index);
            assert(items[k] == front[k]);
            assert(items[k].index != items[items.len() - 1].index);
        }
        if items.last().index == index {
            assert(items[items.len() - 1].index == index);
        } else if holds(items, index) {
            let k = slot_of(items, index);
            assert(front[k] == items[k]);
        }
    }
}

/// In a partition without repeated indices the slot of an index is the one
/// slot that has it.
pub proof fn lemma_slot_unique<T>(items: Seq<ArrayItem<T>>, k: int)
    requires
        distinct(items),
        0 <= k < items.len(),
    ensures
        holds(items, items[k].index as int),
        slot_of(items, items[k].index as int) == k,
        item_at(items, items[k].index as int) == items[k].item,
{
    let j = slot_of(items, items[k].index as int);
    assert(0 <= j < items.len() && items[j].index == items[k].index);
    if j < k {
        assert(items[j].index != items[k].index);
    } else if k < j {
        assert(items[k].index != items[j].index);
    }
}

/// What appending an item with a fresh index does to a partition.
pub proof fn lemma_push<T>(items: Seq<ArrayItem<T>>, added: ArrayItem<T>)
    requires
        distinct(items),
        !holds(items, added.index as int),
    ensures
        distinct(items.push(added)),
        forall|i: int| holds(items.push(added), i) <==> holds(items, i) || i == added.index,
        forall|i: int| holds(items, i) ==> item_at(items.push(added), i) == item_at(items, i),
        item_at(items.push(added), added.index as int) == added.item,
{
    let grown = items.push(added);
    assert forall|j: int, k: int| 0 <= j < k < grown.len() implies (#[trigger] grown[j]).index != (
    #[trigger] grown[k]).index by {
        if k == items.len() {
            assert(grown[j] == items[j]);
        } else {
            assert(grown[j] == items[j] && grown[k] == items[k]);
        }
    }
    assert forall|i: int| holds(grown, i) <==> holds(items, i) || i == added.index by {
        if holds(items, i) {
            let k = slot_of(items, i);
            assert(grown[k] == items[k]);
        }
        if i == added.index {
            assert(grown[items.len() as int].index == i);
        }
        if holds(grown, i) {
            let k = slot_of(grown, i);
            if k < items.len() {
                assert(items[k] == grown[k]);
            }
        }
    }
    assert forall|i: int| holds(items, i) implies item_at(grown, i) == item_at(items, i) by {
        let k = slot_of(items, i);
        assert(grown[k] == items[k]);
        lemma_slot_unique(grown, k);
    }
    lemma_slot_unique(grown, items.len() as int);
}

/// What taking the item in slot `slot` out of a partition does.
pub proof fn lemma_take_out<T>(items: Seq<ArrayItem<T>>, slot: int, bound: int)
    requires
        distinct(items),
        below(items, bound),
        0 <= slot < items.len(),
    ensures
        distinct(items.remove(slot)),
        below(items.remove(slot), bound),
        forall|i: int| holds(items.remove(slot), i) <==> holds(items, i) && i != items[slot].index,
        forall|i: int|
            holds(items.remove(slot), i) ==> item_at(items.remove(slot), i) == item_at(items, i),
        forall|k: int|
            0 <= k < items.remove(slot).len() ==> stores(
                items,
                (#[trigger] items.remove(slot)[k]).item,
            ),
{
    let rest = items.remove(slot);
    // Where each slot of `rest` came from in `items`.
    let origin = |k: int|
        if k < slot {
            k
        } else {
            k + 1
        };
    assert forall|k: int| 0 <= k < rest.len() implies (#[trigger] rest[k]) == items[origin(k)]
        && rest[k].index != items[slot].index by {
        if origin(k) < slot {
            assert(items[origin(k)].index != items[slot].index);
        } else {
            assert(items[slot].index != items[origin(k)].index);
        }
    }
    assert forall|j: int, k: int| 0 <= j < k < rest.len() implies (#[trigger] rest[j]).index != (
    #[trigger] rest[k]).index by {
        assert(items[origin(j)].index != items[origin(k)].index);
    }
    assert forall|k: int| 0 <= k < rest.len() implies (#[trigger] rest[k]).index < bound by {
        assert(items[origin(k)].index < bound);
    }
    assert forall|i: int| holds(rest, i) <==> holds(items, i) && i != items[slot].index by {
        if holds(rest, i) {
            let k = slot_of(rest, i);
            assert(items[origin(k)].index == i);
        }
        if holds(items, i) && i != items[slot].index {
            let m = slot_of(items, i);
            let k = if m < slot {
                m
            } else {
                m - 1
            };
            assert(origin(k) == m);
            assert(rest[k].index == i);
        }
    }
    assert forall|i: int| holds(rest, i) implies item_at(rest, i) == item_at(items, i) by {
        let k = slot_of(rest, i);
        assert(rest[k] == items[origin(k)]);
        lemma_slot_unique(items, origin(k));
    }
    assert forall|k: int| 0 <= k < rest.len() implies stores(items, (#[trigger] rest[k]).item) by {
        assert(rest[k].item == items[origin(k)].item);
    }
}

/// What closing the gap at the logical index `index` does to a partition:
/// no item has that index any more, and `after` is the partition once the
/// indices behind the gap have been lowered.
pub proof fn lemma_close_gap<T>(
    before: Seq<ArrayItem<T>>,
    after: Seq<ArrayItem<T>>,
    index: int,
    bound: int,
)
    requires
        0 <= index < bound,
        distinct(before),
        below(before, bound),
        !holds(before, index),
        lowered(before, after, index),
    ensures
        distinct(after),
        below(after, bound - 1),
        forall|j: int| holds(after, j) <==> holds(before, source(index, j)),
        forall|j: int| holds(after, j) ==> item_at(after, j) == item_at(before, source(index, j)),
        forall|k: int| 0 <= k < after.len() ==> stores(before, (#[trigger] after[k]).item),
{
    assert forall|k: int| 0 <= k < after.len() implies {
        &&& (#[trigger] after[k]).item == before[k].item
        &&& before[k].index != index
        &&& before[k].index == source(index, after[k].index as int)
    } by {}
    assert forall|j: int, k: int| 0 <= j < k < after.len() implies (#[trigger] after[j]).index != (
    #[trigger] after[k]).index by {
        assert(before[j].index != before[k].index);
    }
    assert forall|k: int| 0 <= k < after.len() implies (#[trigger] after[k]).index < bound - 1 by {
        assert(before[k].index < bound);
    }
    assert forall|j: int| holds(after, j) <==> holds(before, source(index, j)) by {
        if holds(after, j) {
            let k = slot_of(after, j);
            assert(before[k].index == source(index, j));
        }
        if holds(before, source(index, j)) {
            let k = slot_of(before, source(index, j));
            assert(after[k].index == j);
        }
    }
    assert forall|j: int| holds(after, j) implies item_at(after, j) == item_at(
        before,
        source(index, j),
    ) by {
        let k = slot_of(after, j);
        assert(before[k].index == source(index, j));
        lemma_slot_unique(before, k);
    }
    assert forall|k: int| 0 <= k < after.len() implies stores(
        before,
        (#[trigger] after[k]).item,
    ) by {
        assert(after[k].item == before[k].item);
    }
}

/// `b` has the logical indices of `a`, slot by slot.
pub open spec fn same_indices<T>(a: Seq<ArrayItem<T>>, b: Seq<ArrayItem<T>>) -> bool {
    &&& a.len() == b.len()
    &&& forall|k: int| 0 <= k < a.len() ==> (#[trigger] a[k]).index == b[k].index
}

/// Two partitions with the same logical indices, slot by slot, store each
/// index in the same slot.
pub proof fn lemma_same_indices<T>(a: Seq<ArrayItem<T>>, b: Seq<ArrayItem<T>>, bound: int)
    requires
        same_indices(a, b),
        distinct(a),
        below(a, bound),
    ensures
        distinct(b),
        below(b, bound),
        forall|i: int| holds(b, i) <==> holds(a, i),
        forall|i: int| holds(a, i) ==> slot_of(b, i) == slot_of(a, i),
{
    assert forall|k: int| 0 <= k < b.len() implies (#[trigger] b[k]).index == a[k].index by {}
    assert forall|j: int, k: int| 0 <= j < k < b.len() implies (#[trigger] b[j]).index != (
    #[trigger] b[k]).index by {
        assert(a[j].index != a[k].index);
    }
    assert forall|k: int| 0 <= k < b.len() implies (#[trigger] b[k]).index < bound by {
        assert(a[k].index < bound);
    }
    assert forall|i: int| holds(b, i) <==> holds(a, i) by {
        if holds(b, i) {
            assert(a[slot_of(b, i)].index == i);
        }
        if holds(a, i) {
            assert(b[slot_of(a, i)].index == i);
        }
    }
    assert forall|i: int| holds(a, i) implies slot_of(b, i) == slot_of(a, i) by {
        let k = slot_of(a, i);
        assert(b[k].index == i);
        lemma_slot_unique(b, k);
    }
}

/// A copy of a partition of plain values.
pub fn copy_items<T: Copy>(items: &Vec<ArrayItem<T>>) -> (copy: Vec<ArrayItem<T>>)
    ensures
        copy@ == items@,
{
    let mut copy: Vec<ArrayItem<T>> = Vec::new();
    let mut i: usize = 0;
    while i < items.len()
        invariant
            i <= items@.len(),
            copy@ == items@.take(i as int),
        decreases items@.len() - i,
    {
        copy.push(ArrayItem { item: items[i].item, index: items[i].index });
        assert(copy@ =~= items@.take(i + 1));
        i += 1;
    }
    assert(items@.take(i as int) =~= items@);
    copy
}

/// A copy of a partition of strings.
pub fn clone_strings(items: &Vec<ArrayItem<String>>) -> (copy: Vec<ArrayItem<String>>)
    ensures
        copy@ == items@,
{
    let mut copy: Vec<ArrayItem<String>> = Vec::new();
    let mut i: usize = 0;
    while i < items.len()
        invariant
            i <= items@.len(),
            copy@ == items@.take(i as int),
        decreases items@.len() - i,
    {
        copy.push(ArrayItem { item: items[i].item.clone(), index: items[i].index });
        assert(copy@ =~= items@.take(i + 1));
        i += 1;
    }
    assert(items@.take(i as int) =~= items@);
    copy
}

/// The slot of the item with logical index `index`, if the partition has
/// one.
pub fn find_slot<T>(items: &Vec<ArrayItem<T>>, index: usize) -> (slot: Option<usize>)
    ensures
        match slot {
            Some(k) => k < items@.len() && items@[k as int].index == index,
            None => !holds(items@, index as int),
        },
{
    let mut i: usize = 0;
    while i < items.len()
        invariant
            i <= items@.len(),
            forall|k: int| 0 <= k < i ==> (#[trigger] items@[k]).index != index,
        decreases items@.len() - i,
    {
        if items[i].index == index {
            return Some(i);
        }
        i += 1;
    }
    None
}

/// Lowers by one every logical index of the partition that is greater than
/// `index`.
pub fn lower_above<T>(items: &mut Vec<ArrayItem<T>>, index: usize)
    ensures
        lowered(old(items)@, final(items)@, index as int),
{
    let mut i: usize = 0;
    while i < items.len()
        invariant
            i <= items@.len(),
            items@.len() == old(items)@.len(),
            forall|k: int|
                0 <= k < i ==> (#[trigger] items@[k]).item == old(items)@[k].item && items@[k].index
                    == (if old(items)@[k].index > index {
                    old(items)@[k].index - 1
                } else {
                    old(items)@[k].index as int
                }),
            forall|k: int| i <= k < items@.len() ==> items@[k] == old(items)@[k],
        decreases items@.len() - i,
    {
        if items[i].index > index {
            items[i].index = items[i].index - 1;
        }
        i += 1;
    }
}

} // verus!
