//! The mathematical model of the slot allocator.
//!
//! A [`SlabView`] is what the contracts of [`crate::slab::Slab`] speak of: the
//! slots with their generations, the stack of free slots and the capacity.
//! Every operation of the allocator is a function on this model.

use vstd::prelude::*;
use crate::slab::SlabKey;

verus! {

/// One slot as the contracts see it: its generation, and its value while occupied.
pub struct SlotView<T> {
    pub generation: nat,
    pub value: Option<T>,
}

/// The allocator as the contracts see it.
pub struct SlabView<T> {
    /// The slots in index order. A slot is never taken away again, only vacated.
    pub slots: Seq<SlotView<T>>,
    /// The free list: indices of vacant slots, the one that is reused next first.
    pub free: Seq<int>,
    /// How many slots may exist.
    pub capacity: nat,
    /// The capacity that a reset goes back to.
    pub initial_capacity: nat,
}

/// The number of occupied slots among `slots`.
pub open spec fn occupied<T>(slots: Seq<SlotView<T>>) -> nat
    decreases slots.len(),
{
    if slots.len() == 0 {
        0
    } else {
        occupied(slots.drop_last()) + weight(slots.last())
    }
}

/// The values of the occupied slots, the slot with the greatest index first.
pub open spec fn values_from_back<T>(slots: Seq<SlotView<T>>) -> Seq<T>
    decreases slots.len(),
{
    if slots.len() == 0 {
        Seq::empty()
    } else {
        match slots.last().value {
            Some(v) => seq![v] + values_from_back(slots.drop_last()),
            None => values_from_back(slots.drop_last()),
        }
    }
}


/// `1` for an occupied slot, `0` for a vacant one.
pub open spec fn weight<T>(slot: SlotView<T>) -> nat {
    if slot.value is Some {
        1
    } else {
        0
    }
}

/// A further slot adds its weight to the count of occupied slots.
pub proof fn lemma_occupied_push<T>(slots: Seq<SlotView<T>>, slot: SlotView<T>)
    ensures
        occupied(slots.push(slot)) == occupied(slots) + weight(slot),
{
    assert(slots.push(slot).drop_last() =~= slots);
}

/// A changed slot changes the count of occupied slots by the change of its weight.
pub proof fn lemma_occupied_update<T>(slots: Seq<SlotView<T>>, i: int, slot: SlotView<T>)
    requires
        0 <= i < slots.len(),
    ensures
        occupied(slots.update(i, slot)) + weight(slots[i]) == occupied(slots) + weight(slot),
    decreases slots.len(),
{
    if i == slots.len() - 1 {
        assert(slots.update(i, slot).drop_last() =~= slots.drop_last());
    } else {
        assert(slots.update(i, slot).drop_last() =~= slots.drop_last().update(i, slot));
        lemma_occupied_update(slots.drop_last(), i, slot);
    }
}

/// No more slots are occupied than there are.
pub proof fn lemma_occupied_bound<T>(slots: Seq<SlotView<T>>)
    ensures
        occupied(slots) <= slots.len(),
    decreases slots.len(),
{
    if slots.len() > 0 {
        lemma_occupied_bound(slots.drop_last());
    }
}

impl<T> SlabView<T> {
    /// An allocator without slots.
    pub open spec fn fresh(capacity: nat) -> Self {
        SlabView { slots: Seq::empty(), free: Seq::empty(), capacity, initial_capacity: capacity }
    }

    /// Slot `i` exists and holds no value.
    pub open spec fn is_vacant(self, i: int) -> bool {
        0 <= i < self.slots.len() && self.slots[i].value is None
    }

    /// Slot `i` is vacant and will never be used again: its generation counter is
    /// at its end, so it was kept off the free list.
    pub open spec fn is_retired(self, i: int) -> bool {
        self.is_vacant(i) && !self.free.contains(i)
    }

    /// What holds of every allocator.
    pub open spec fn wf(self) -> bool {
        &&& self.slots.len() <= self.capacity <= usize::MAX
        &&& self.initial_capacity <= usize::MAX
        &&& forall|i: int| 0 <= i < self.slots.len() ==> (#[trigger] self.slots[i]).generation <= usize::MAX
        &&& self.free.no_duplicates()
        &&& forall|j: int| 0 <= j < self.free.len() ==> self.is_vacant(#[trigger] self.free[j])
        &&& forall|i: int| #[trigger] self.is_retired(i) ==> self.slots[i].generation == usize::MAX
    }

    /// `key` names an occupied slot in its current generation.
    pub open spec fn contains(self, key: SlabKey) -> bool {
        &&& key.index < self.slots.len()
        &&& self.slots[key.index as int].value is Some
        &&& self.slots[key.index as int].generation == key.generation
    }

    /// The value that `key` names, if it names one.
    pub open spec fn get(self, key: SlabKey) -> Option<T> {
        if self.contains(key) {
            self.slots[key.index as int].value
        } else {
            None
        }
    }

    /// `key` has been handed out at some time since the last reset: it is live, or
    /// its slot has moved on to a later generation, or its slot is retired.
    pub open spec fn issued(self, key: SlabKey) -> bool {
        &&& key.index < self.slots.len()
        &&& {
            let slot = self.slots[key.index as int];
            ||| key.generation < slot.generation
            ||| key.generation == slot.generation && (slot.value is Some || self.is_retired(
                key.index as int,
            ))
        }
    }

    /// The number of occupied slots.
    pub open spec fn len(self) -> nat {
        occupied(self.slots)
    }

    /// No slot is free and no further slot may be made.
    pub open spec fn is_full(self) -> bool {
        self.free.len() == 0 && self.slots.len() >= self.capacity
    }

    /// The key that the next insertion hands out, unless the allocator is full.
    pub open spec fn next_key(self) -> SlabKey {
        if self.free.len() > 0 {
            SlabKey {
                index: self.free[0] as usize,
                generation: self.slots[self.free[0]].generation as usize,
            }
        } else {
            SlabKey { index: self.slots.len() as usize, generation: 0 }
        }
    }

    /// The allocator after `value` was inserted: the slot on top of the free list
    /// is taken, else a new slot is made, else (full) nothing changes.
    pub open spec fn insert(self, value: T) -> Self {
        if self.free.len() > 0 {
            let i = self.free[0];
            SlabView {
                slots: self.slots.update(
                    i,
                    SlotView { generation: self.slots[i].generation, value: Some(value) },
                ),
                free: self.free.drop_first(),
                ..self
            }
        } else if self.slots.len() < self.capacity {
            SlabView {
                slots: self.slots.push(SlotView { generation: 0, value: Some(value) }),
                ..self
            }
        } else {
            self
        }
    }

    /// The allocator after `key` was removed. A key that is not live changes
    /// nothing. The slot of a live key is vacated and moves to the next
    /// generation and onto the free list; where the generation counter is at its
    /// end the slot is retired instead.
    pub open spec fn remove(self, key: SlabKey) -> Self {
        if !self.contains(key) {
            self
        } else if key.generation < usize::MAX {
            SlabView {
                slots: self.slots.update(
                    key.index as int,
                    SlotView { generation: (key.generation + 1) as nat, value: None },
                ),
                free: seq![key.index as int] + self.free,
                ..self
            }
        } else {
            SlabView {
                slots: self.slots.update(
                    key.index as int,
                    SlotView { generation: key.generation as nat, value: None },
                ),
                ..self
            }
        }
    }

    /// The allocator with `value` in place of the value that `key` names.
    pub open spec fn replace(self, key: SlabKey, value: T) -> Self {
        if self.contains(key) {
            SlabView {
                slots: self.slots.update(
                    key.index as int,
                    SlotView { generation: key.generation as nat, value: Some(value) },
                ),
                ..self
            }
        } else {
            self
        }
    }

    /// The allocator with its capacity raised by `additional`, as far as a
    /// machine word allows.
    pub open spec fn grow(self, additional: nat) -> Self {
        SlabView {
            capacity: if self.capacity + additional <= usize::MAX {
                self.capacity + additional
            } else {
                usize::MAX as nat
            },
            ..self
        }
    }

    /// The allocator with no capacity beyond the slots that exist.
    pub open spec fn shrink(self) -> Self {
        SlabView { capacity: self.slots.len(), ..self }
    }
}

} // verus!

verus! {

impl<T> SlabView<T> {
    /// Insertion keeps the allocator well formed.
    pub proof fn lemma_insert_wf(self, value: T)
        requires
            self.wf(),
        ensures
            self.insert(value).wf(),
    {
        let after = self.insert(value);
        if self.free.len() > 0 {
            let i = self.free[0];
            assert(self.is_vacant(i));
            assert forall|j: int| 0 <= j < after.free.len() implies after.is_vacant(
                #[trigger] after.free[j],
            ) by {
                assert(after.free[j] == self.free[j + 1]);
                assert(self.is_vacant(self.free[j + 1]));
            }
            assert forall|x: int| #[trigger] after.is_retired(x) implies after.slots[x].generation
                == usize::MAX by {
                if self.free.contains(x) {
                    let j = choose|j: int| 0 <= j < self.free.len() && self.free[j] == x;
                    assert(after.free[j - 1] == x);
                }
                assert(self.is_retired(x));
            }
        } else if self.slots.len() < self.capacity {
            assert forall|x: int| #[trigger] after.is_retired(x) implies after.slots[x].generation
                == usize::MAX by {
                assert(self.is_retired(x));
            }
        }
    }

    /// Removal keeps the allocator well formed.
    pub proof fn lemma_remove_wf(self, key: SlabKey)
        requires
            self.wf(),
        ensures
            self.remove(key).wf(),
    {
        let after = self.remove(key);
        if self.contains(key) {
            let i = key.index as int;
            if key.generation < usize::MAX {
                assert forall|j: int| 0 <= j < after.free.len() implies after.is_vacant(
                    #[trigger] after.free[j],
                ) by {
                    if j > 0 {
                        assert(after.free[j] == self.free[j - 1]);
                        assert(self.is_vacant(self.free[j - 1]));
                    }
                }
                assert forall|a: int, b: int|
                    0 <= a < after.free.len() && 0 <= b < after.free.len() && a != b implies after.free[a]
                    != after.free[b] by {
                    if a > 0 {
                        assert(self.is_vacant(self.free[a - 1]));
                    }
                    if b > 0 {
                        assert(self.is_vacant(self.free[b - 1]));
                    }
                }
                assert forall|x: int| #[trigger] after.is_retired(x) implies after.slots[x].generation
                    == usize::MAX by {
                    assert(after.free[0] == i);
                    if self.free.contains(x) {
                        let j = choose|j: int| 0 <= j < self.free.len() && self.free[j] == x;
                        assert(after.free[j + 1] == x);
                    }
                    assert(self.is_retired(x));
                }
            } else {
                assert forall|j: int| 0 <= j < after.free.len() implies after.is_vacant(
                    #[trigger] after.free[j],
                ) by {
                    assert(self.is_vacant(self.free[j]));
                }
                assert forall|x: int| #[trigger] after.is_retired(x) implies after.slots[x].generation
                    == usize::MAX by {
                    if x != i {
                        assert(self.is_retired(x));
                    }
                }
            }
        }
    }

    /// A changed value keeps the allocator well formed.
    pub proof fn lemma_replace_wf(self, key: SlabKey, value: T)
        requires
            self.wf(),
        ensures
            self.replace(key, value).wf(),
    {
        let after = self.replace(key, value);
        if self.contains(key) {
            assert forall|j: int| 0 <= j < after.free.len() implies after.is_vacant(
                #[trigger] after.free[j],
            ) by {
                assert(self.is_vacant(self.free[j]));
            }
            assert forall|x: int| #[trigger] after.is_retired(x) implies after.slots[x].generation
                == usize::MAX by {
                assert(self.is_retired(x));
            }
        }
    }

    /// A raised capacity keeps the allocator well formed.
    pub proof fn lemma_grow_wf(self, additional: nat)
        requires
            self.wf(),
        ensures
            self.grow(additional).wf(),
    {
        let after = self.grow(additional);
        assert forall|j: int| 0 <= j < after.free.len() implies after.is_vacant(
            #[trigger] after.free[j],
        ) by {
            assert(self.is_vacant(self.free[j]));
        }
        assert forall|x: int| #[trigger] after.is_retired(x) implies after.slots[x].generation
            == usize::MAX by {
            assert(self.is_retired(x));
        }
    }

    /// A capacity cut down to the slots keeps the allocator well formed.
    pub proof fn lemma_shrink_wf(self)
        requires
            self.wf(),
        ensures
            self.shrink().wf(),
    {
        let after = self.shrink();
        assert forall|j: int| 0 <= j < after.free.len() implies after.is_vacant(
            #[trigger] after.free[j],
        ) by {
            assert(self.is_vacant(self.free[j]));
        }
        assert forall|x: int| #[trigger] after.is_retired(x) implies after.slots[x].generation
            == usize::MAX by {
            assert(self.is_retired(x));
        }
    }
}

} // verus!
