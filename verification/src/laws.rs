//! What holds of the slot allocator, proved of its model.
//!
//! Each law speaks of the functions on [`SlabView`] in whose terms the
//! contracts of [`crate::slab::Slab`] and of the system are stated.

use vstd::prelude::*;
use crate::model::{
    lemma_occupied_bound, lemma_occupied_push, lemma_occupied_update, occupied, weight, SlabView,
    SlotView,
};
use crate::slab::SlabKey;

verus! {

/// A step that changes an allocator without resetting it.
pub enum Op<T> {
    /// A value is inserted.
    Insert(T),
    /// A key is removed.
    Remove(SlabKey),
    /// The value that a key names is replaced.
    Replace(SlabKey, T),
    /// The capacity is raised.
    Grow(nat),
    /// The capacity is cut down to the slots that exist.
    Shrink,
}

impl<T> SlabView<T> {
    /// The allocator after one step.
    pub open spec fn apply(self, op: Op<T>) -> Self {
        match op {
            Op::Insert(value) => self.insert(value),
            Op::Remove(key) => self.remove(key),
            Op::Replace(key, value) => self.replace(key, value),
            Op::Grow(additional) => self.grow(additional),
            Op::Shrink => self.shrink(),
        }
    }

    /// The allocator after the steps `ops`, taken in order.
    pub open spec fn run(self, ops: Seq<Op<T>>) -> Self
        decreases ops.len(),
    {
        if ops.len() == 0 {
            self
        } else {
            self.run(ops.drop_last()).apply(ops.last())
        }
    }

    /// `key` names nothing and never will again: its slot has moved on to a
    /// later generation, or is retired in the generation of the key.
    pub open spec fn dead(self, key: SlabKey) -> bool {
        &&& key.index < self.slots.len()
        &&& {
            let slot = self.slots[key.index as int];
            ||| key.generation < slot.generation
            ||| key.generation == slot.generation && self.is_retired(key.index as int)
        }
    }

    /// Every step keeps the allocator well formed.
    pub proof fn law_apply_wf(self, op: Op<T>)
        requires
            self.wf(),
        ensures
            self.apply(op).wf(),
    {
        match op {
            Op::Insert(value) => self.lemma_insert_wf(value),
            Op::Remove(key) => self.lemma_remove_wf(key),
            Op::Replace(key, value) => self.lemma_replace_wf(key, value),
            Op::Grow(additional) => self.lemma_grow_wf(additional),
            Op::Shrink => self.lemma_shrink_wf(),
        }
    }

    /// Any sequence of steps keeps the allocator well formed.
    pub proof fn law_run_wf(self, ops: Seq<Op<T>>)
        requires
            self.wf(),
        ensures
            self.run(ops).wf(),
        decreases ops.len(),
    {
        if ops.len() > 0 {
            self.law_run_wf(ops.drop_last());
            self.run(ops.drop_last()).law_apply_wf(ops.last());
        }
    }

    /// An insertion into an allocator that is not full stores its value under
    /// the key that it hands out.
    pub proof fn law_insert_stores(self, value: T)
        requires
            self.wf(),
            !self.is_full(),
        ensures
            self.insert(value).get(self.next_key()) == Some(value),
            self.insert(value).len() == self.len() + 1,
    {
        if self.free.len() > 0 {
            assert(self.is_vacant(self.free[0]));
            lemma_occupied_update(
                self.slots,
                self.free[0],
                SlotView { generation: self.slots[self.free[0]].generation, value: Some(value) },
            );
        } else {
            lemma_occupied_push(self.slots, SlotView { generation: 0, value: Some(value) });
        }
    }

    /// Uniqueness: the key that an insertion hands out names no value at that
    /// time and was never handed out since the last reset, and every key that
    /// names a value goes on to name that value.
    pub proof fn law_insert_fresh(self, value: T, other: SlabKey)
        requires
            self.wf(),
            !self.is_full(),
        ensures
            !self.issued(self.next_key()),
            !self.contains(self.next_key()),
            self.contains(other) ==> other != self.next_key() && self.insert(value).get(other)
                == self.get(other),
    {
        if self.free.len() > 0 {
            assert(self.is_vacant(self.free[0]));
        }
    }

    /// Uniqueness, at any time: after any sequence of steps, the key that the
    /// next insertion hands out is the key of no value and has not been handed
    /// out before, and two keys that name values name different slots, or are
    /// one key.
    pub proof fn law_uniqueness(self, ops: Seq<Op<T>>, one: SlabKey, other: SlabKey)
        requires
            self.wf(),
        ensures
            !self.run(ops).is_full() ==> !self.run(ops).issued(self.run(ops).next_key())
                && !self.run(ops).contains(self.run(ops).next_key()),
            self.run(ops).contains(one) && self.run(ops).contains(other) && one.index
                == other.index ==> one == other,
    {
        self.law_run_wf(ops);
        let now = self.run(ops);
        if !now.is_full() {
            if now.free.len() > 0 {
                assert(now.is_vacant(now.free[0]));
            }
        }
    }

    /// A key that has been handed out stays handed out, whatever step follows.
    pub proof fn law_issued_stays(self, op: Op<T>, key: SlabKey)
        requires
            self.wf(),
            self.issued(key),
        ensures
            self.apply(op).issued(key),
    {
        let after = self.apply(op);
        let i = key.index as int;
        match op {
            Op::Insert(value) => {
                if self.free.len() > 0 {
                    if after.free.contains(i) {
                        let j = choose|j: int| 0 <= j < after.free.len() && after.free[j] == i;
                        assert(self.free[j + 1] == i);
                    }
                }
            },
            Op::Remove(removed) => {
                if self.contains(removed) && removed.generation < usize::MAX {
                    if after.free.contains(i) && i != removed.index {
                        let j = choose|j: int| 0 <= j < after.free.len() && after.free[j] == i;
                        assert(self.free[j - 1] == i);
                    }
                }
            },
            Op::Replace(replaced, value) => {},
            Op::Grow(additional) => {},
            Op::Shrink => {},
        }
    }

    /// A dead key stays dead, whatever step follows.
    pub proof fn law_dead_stays(self, op: Op<T>, key: SlabKey)
        requires
            self.wf(),
            self.dead(key),
        ensures
            self.apply(op).dead(key),
    {
        let after = self.apply(op);
        let i = key.index as int;
        match op {
            Op::Insert(value) => {
                if self.free.len() > 0 {
                    assert(self.free.contains(self.free[0]));
                    if after.free.contains(i) {
                        let j = choose|j: int| 0 <= j < after.free.len() && after.free[j] == i;
                        assert(self.free[j + 1] == i);
                    }
                }
            },
            Op::Remove(removed) => {
                if self.contains(removed) && removed.generation < usize::MAX {
                    if after.free.contains(i) && i != removed.index {
                        let j = choose|j: int| 0 <= j < after.free.len() && after.free[j] == i;
                        assert(self.free[j - 1] == i);
                    }
                }
            },
            Op::Replace(replaced, value) => {},
            Op::Grow(additional) => {},
            Op::Shrink => {},
        }
    }

    /// Stale rejection: a key that was removed names nothing, whatever steps
    /// follow; and a key that names a value in its slot later on is of a later
    /// generation.
    pub proof fn law_stale_rejection(self, key: SlabKey, ops: Seq<Op<T>>, later: SlabKey)
        requires
            self.wf(),
            self.contains(key),
        ensures
            self.remove(key).run(ops).get(key) is None,
            self.remove(key).run(ops).contains(later) && later.index == key.index
                ==> later.generation > key.generation,
    {
        self.lemma_removed_is_dead(key, ops);
    }

    /// A key that was removed is dead, whatever steps follow.
    pub proof fn lemma_removed_is_dead(self, key: SlabKey, ops: Seq<Op<T>>)
        requires
            self.wf(),
            self.contains(key),
        ensures
            self.remove(key).run(ops).wf(),
            self.remove(key).run(ops).dead(key),
        decreases ops.len(),
    {
        self.lemma_remove_wf(key);
        if ops.len() == 0 {
            let after = self.remove(key);
            if key.generation == usize::MAX {
                if after.free.contains(key.index as int) {
                    let j = choose|j: int|
                        0 <= j < self.free.len() && self.free[j] == key.index as int;
                    assert(self.is_vacant(self.free[j]));
                }
            }
        } else {
            self.lemma_removed_is_dead(key, ops.drop_last());
            let before = self.remove(key).run(ops.drop_last());
            before.law_apply_wf(ops.last());
            before.law_dead_stays(ops.last(), key);
        }
    }

    /// Idempotent removal: to remove a key twice is to remove it once, and the
    /// removal leaves every other key with what it names.
    pub proof fn law_remove_idempotent(self, key: SlabKey, other: SlabKey)
        requires
            self.wf(),
        ensures
            self.remove(key).remove(key) == self.remove(key),
            self.remove(key).get(key) is None,
            other != key ==> self.remove(key).get(other) == self.get(other),
            self.contains(key) ==> self.remove(key).len() + 1 == self.len(),
    {
        if self.contains(key) {
            lemma_occupied_update(
                self.slots,
                key.index as int,
                self.remove(key).slots[key.index as int],
            );
        }
    }

    /// Bounded growth: an insertion into a full allocator changes nothing, any
    /// other insertion leaves every key with what it names, and so does a
    /// change of the capacity.
    pub proof fn law_bounded_growth(self, value: T, additional: nat, other: SlabKey)
        requires
            self.wf(),
        ensures
            self.is_full() ==> self.insert(value) == self,
            self.contains(other) ==> self.insert(value).get(other) == self.get(other),
            self.grow(additional).get(other) == self.get(other),
            self.shrink().get(other) == self.get(other),
    {
        if self.free.len() > 0 {
            assert(self.is_vacant(self.free[0]));
        }
    }

    /// Reuse, last in first out: where `first` and then `second` are removed,
    /// the next insertion takes the slot of `second` and the one after it the
    /// slot of `first`, each in the generation after that of the key. This is
    /// said of slots whose generation counter is not at its end: such a slot is
    /// retired, not reused.
    pub proof fn law_lifo_reuse(self, first: SlabKey, second: SlabKey, value: T)
        requires
            self.wf(),
            self.contains(first),
            self.contains(second),
            first != second,
            first.generation < usize::MAX,
            second.generation < usize::MAX,
        ensures
            self.remove(first).remove(second).next_key() == (SlabKey {
                index: second.index,
                generation: (second.generation + 1) as usize,
            }),
            self.remove(first).remove(second).insert(value).next_key() == (SlabKey {
                index: first.index,
                generation: (first.generation + 1) as usize,
            }),
    {
        let one = self.remove(first);
        let two = one.remove(second);
        assert(one.contains(second));
        assert(two.free =~= seq![second.index as int, first.index as int] + self.free);
        assert(two.insert(value).free =~= seq![first.index as int] + self.free);
    }

    /// No value is stored exactly where no key names one.
    pub proof fn law_empty(self)
        requires
            self.wf(),
        ensures
            self.len() == 0 <==> forall|key: SlabKey| !self.contains(key),
            self.len() <= self.slots.len(),
    {
        lemma_occupied_bound(self.slots);
        lemma_occupied_zero(self.slots);
        if self.len() != 0 {
            let i = choose|i: int| 0 <= i < self.slots.len() && self.slots[i].value is Some;
            let key = SlabKey { index: i as usize, generation: self.slots[i].generation as usize };
            assert(self.contains(key));
        }
    }
}

/// No slot is occupied exactly where every slot is vacant.
pub proof fn lemma_occupied_zero<T>(slots: Seq<SlotView<T>>)
    ensures
        occupied(slots) == 0 <==> forall|i: int| 0 <= i < slots.len() ==> slots[i].value is None,
    decreases slots.len(),
{
    if slots.len() > 0 {
        lemma_occupied_zero(slots.drop_last());
        if occupied(slots) == 0 {
            assert forall|i: int| 0 <= i < slots.len() implies slots[i].value is None by {
                if i < slots.len() - 1 {
                    assert(slots.drop_last()[i] == slots[i]);
                }
            }
        } else {
            if weight(slots.last()) == 0 {
                let i = choose|i: int|
                    0 <= i < slots.drop_last().len() && !(slots.drop_last()[i].value is None);
                assert(slots[i] == slots.drop_last()[i]);
            }
        }
    }
}

} // verus!
