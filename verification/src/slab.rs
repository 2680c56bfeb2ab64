//! The slot allocator: numbered slots that are reused, each with a generation.

use vstd::prelude::*;
use vstd::pervasive::unreached;
use crate::model::{
    lemma_occupied_bound, lemma_occupied_push, lemma_occupied_update, values_from_back, SlabView,
    SlotView,
};

verus! {

/// The key of a value in a [`Slab`]: the index of its slot, and the generation
/// that the slot was in when the key was handed out.
#[derive(Debug, Clone, Copy, PartialEq, Eq, Hash, Structural)]
pub struct SlabKey {
    /// The index of the slot.
    pub index: usize,
    /// The generation of the slot. It moves on each time the slot is vacated.
    pub generation: usize,
}

/// What a slot holds: a value, or the link to the next slot of the free list.
enum Entry<T> {
    /// The slot is occupied by this value.
    Used(T),
    /// The slot is vacant. On the free list, the number is the index of the slot
    /// below it, or the number of slots where it is the last one.
    Free(usize),
}

/// A slot: what it holds, and its generation.
struct SlabEntry<T> {
    entry: Entry<T>,
    generation: usize,
}

impl<T> SlabEntry<T> {
    /// The slot as the contracts see it.
    spec fn model(self) -> SlotView<T> {
        SlotView {
            generation: self.generation as nat,
            value: match self.entry {
                Entry::Used(value) => Some(value),
                Entry::Free(_) => None,
            },
        }
    }
}

/// The slots as the contracts see them.
spec fn models<T>(entries: Seq<SlabEntry<T>>) -> Seq<SlotView<T>> {
    entries.map_values(|e: SlabEntry<T>| e.model())
}

/// Hands back to the allocator what `entries` has reserved beyond its length.
/// This is `Vec::shrink_to_fit`, which leaves the contents as they are.
#[verifier::external_body]
fn release_spare<T>(entries: &mut Vec<SlabEntry<T>>)
    ensures
        final(entries)@ == old(entries)@,
{
    entries.shrink_to_fit();
}

/// A store of values in numbered slots. Each value is found again by the
/// [`SlabKey`] that [`Slab::insert`] handed out for it; a key whose value was
/// removed finds nothing, also after its slot was taken by another value.
pub struct Slab<T> {
    /// The slots.
    entries: Vec<SlabEntry<T>>,
    /// The slot that the next insertion takes: the top of the free list, or the
    /// number of slots where no slot is free.
    next_free: usize,
    /// How many slots are occupied.
    used: usize,
    /// How many slots may exist.
    capacity: usize,
    /// The capacity that [`Slab::clear`] goes back to.
    initial_capacity: usize,
    /// The free list, top first. The slots themselves hold it as links.
    free: Ghost<Seq<int>>,
}

impl<T> View for Slab<T> {
    type V = SlabView<T>;

    closed spec fn view(&self) -> SlabView<T> {
        SlabView {
            slots: models(self.entries@),
            free: self.free@,
            capacity: self.capacity as nat,
            initial_capacity: self.initial_capacity as nat,
        }
    }
}

impl<T> Slab<T> {
    /// The link that the `j`-th slot of the free list holds.
    spec fn link(&self, j: int) -> int {
        if j + 1 < self.free@.len() {
            self.free@[j + 1]
        } else {
            self.entries@.len() as int
        }
    }

    /// The invariant of the allocator: the model is well formed, the count of
    /// occupied slots is right, and the links in the vacant slots spell out the
    /// free list.
    pub closed spec fn wf(&self) -> bool {
        &&& self@.wf()
        &&& self.used == self@.len()
        &&& self.next_free == if self.free@.len() > 0 {
            self.free@[0]
        } else {
            self.entries@.len() as int
        }
        &&& forall|j: int|
            0 <= j < self.free@.len() ==> (#[trigger] self.entries@[self.free@[j]]).entry
                == Entry::<T>::Free(self.link(j) as usize)
    }

    /// The model of an allocator is well formed.
    pub proof fn lemma_view_wf(&self)
        requires
            self.wf(),
        ensures
            self@.wf(),
    {
    }

    /// Creates an allocator without slots that may grow to `capacity` slots.
    /// Storage for that many slots is reserved at once, as far as it can be had.
    pub fn new(capacity: usize) -> (slab: Self)
        ensures
            slab.wf(),
            slab@ == SlabView::<T>::fresh(capacity as nat),
    {
        let mut entries: Vec<SlabEntry<T>> = Vec::new();
        let _ = entries.try_reserve(capacity);
        let slab = Slab {
            entries,
            next_free: 0,
            used: 0,
            capacity,
            initial_capacity: capacity,
            free: Ghost(Seq::empty()),
        };
        assert(slab@.slots =~= Seq::empty());
        slab
    }

    /// Stores `value` and hands out its key. The slot that was vacated last is
    /// taken first, in the generation that it has reached; where no slot is free
    /// a new slot is made, in generation 0, as long as the capacity allows.
    /// Where it does not, nothing changes and there is no key.
    pub fn insert(&mut self, value: T) -> (key: Option<SlabKey>)
        requires
            old(self).wf(),
        ensures
            final(self).wf(),
            final(self)@ == old(self)@.insert(value),
            key == if old(self)@.is_full() {
                None
            } else {
                Some(old(self)@.next_key())
            },
    {
        let index = self.next_free;
        if index < self.entries.len() {
            proof {
                let taken = SlotView {
                    generation: self.entries@[index as int].generation as nat,
                    value: Some(value),
                };
                assert(self.entries@[self.free@[0]].entry == Entry::<T>::Free(
                    self.link(0) as usize,
                ));
                self@.lemma_insert_wf(value);
                lemma_occupied_update(self@.slots, index as int, taken);
                lemma_occupied_bound(self@.slots.update(index as int, taken));
            }
            let next_free = match self.entries[index].entry {
                Entry::Free(next_free) => next_free,
                Entry::Used(_) => unreached(),
            };
            let key = SlabKey { index, generation: self.entries[index].generation };
            self.next_free = next_free;
            self.entries[index].entry = Entry::Used(value);
            self.used += 1;
            proof {
                self.free@ = self.free@.drop_first();
            }
            assert(self@.slots =~= old(self)@.insert(value).slots);
            Some(key)
        } else {
            if index >= self.capacity {
                return None;
            }
            proof {
                self@.lemma_insert_wf(value);
                lemma_occupied_push(self@.slots, SlotView { generation: 0, value: Some(value) });
                lemma_occupied_bound(self@.slots);
            }
            let key = SlabKey { index: self.entries.len(), generation: 0 };
            self.entries.push(SlabEntry { entry: Entry::Used(value), generation: 0 });
            self.next_free = self.entries.len();
            self.used += 1;
            assert(self@.slots =~= old(self)@.insert(value).slots);
            Some(key)
        }
    }

    /// Removes the value that `key` names. A key that names none (its slot does
    /// not exist, is vacant, or is in another generation) changes nothing. The
    /// slot moves to the next generation, so that no key handed out for it so
    /// far finds anything again, and is the first to be reused. A slot whose
    /// generation counter is at its end is retired instead: it stays vacant for
    /// good.
    pub fn remove(&mut self, key: &SlabKey)
        requires
            old(self).wf(),
        ensures
            final(self).wf(),
            final(self)@ == old(self)@.remove(*key),
    {
        if key.index >= self.entries.len() {
            return ;
        }
        if let Entry::Used(_) = self.entries[key.index].entry {
            if self.entries[key.index].generation != key.generation {
                return ;
            }
            proof {
                self@.lemma_remove_wf(*key);
                lemma_occupied_update(
                    self@.slots,
                    key.index as int,
                    old(self)@.remove(*key).slots[key.index as int],
                );
            }
            if key.generation < usize::MAX {
                self.entries[key.index].generation += 1;
                self.entries[key.index].entry = Entry::Free(self.next_free);
                self.next_free = key.index;
                proof {
                    self.free@ = seq![key.index as int] + self.free@;
                }
                assert forall|j: int| 0 <= j < self.free@.len() implies (
                #[trigger] self.entries@[self.free@[j]]).entry == Entry::<T>::Free(
                    self.link(j) as usize,
                ) by {
                    if j > 0 {
                        assert(self.free@[j] == old(self).free@[j - 1]);
                        assert(old(self)@.is_vacant(old(self).free@[j - 1]));
                        assert(self.link(j) == old(self).link(j - 1));
                    }
                }
            } else {
                self.entries[key.index].entry = Entry::Free(self.next_free);
                assert forall|j: int| 0 <= j < self.free@.len() implies (
                #[trigger] self.entries@[self.free@[j]]).entry == Entry::<T>::Free(
                    self.link(j) as usize,
                ) by {
                    assert(old(self)@.is_vacant(old(self).free@[j]));
                    assert(self.link(j) == old(self).link(j));
                }
            }
            self.used -= 1;
            assert(self@.slots =~= old(self)@.remove(*key).slots);
        }
    }

    /// The number of occupied slots.
    pub fn len(&self) -> (n: usize)
        requires
            self.wf(),
        ensures
            n == self@.len(),
    {
        self.used
    }

    /// Whether no slot is occupied.
    pub fn is_empty(&self) -> (empty: bool)
        requires
            self.wf(),
        ensures
            empty == (self@.len() == 0),
    {
        self.used == 0
    }

    /// The value that `key` names: the value of its slot, if the slot exists, is
    /// occupied and is in the generation of the key.
    pub fn get(&self, key: &SlabKey) -> (found: Option<&T>)
        requires
            self.wf(),
        ensures
            match found {
                Some(value) => self@.get(*key) == Some(*value),
                None => self@.get(*key) is None,
            },
    {
        if key.index >= self.entries.len() {
            return None;
        }
        let slab_entry = &self.entries[key.index];
        if let Entry::Used(ref value) = slab_entry.entry {
            if key.generation == slab_entry.generation {
                return Some(value);
            }
        }
        None
    }

    /// A changed value in an occupied slot keeps the invariant and is the
    /// replacement of that value in the model.
    proof fn lemma_value_changed(pre: Self, post: Self, key: SlabKey, value: T)
        requires
            pre.wf(),
            pre@.contains(key),
            post.entries@ == pre.entries@.update(
                key.index as int,
                SlabEntry { entry: Entry::Used(value), generation: key.generation },
            ),
            post.next_free == pre.next_free,
            post.used == pre.used,
            post.capacity == pre.capacity,
            post.initial_capacity == pre.initial_capacity,
            post.free == pre.free,
        ensures
            post.wf(),
            post@ == pre@.replace(key, value),
    {
        let after = pre@.replace(key, value);
        pre@.lemma_replace_wf(key, value);
        lemma_occupied_update(pre@.slots, key.index as int, after.slots[key.index as int]);
        assert(post@.slots =~= after.slots);
        assert forall|j: int| 0 <= j < post.free@.len() implies (
        #[trigger] post.entries@[post.free@[j]]).entry == Entry::<T>::Free(
            post.link(j) as usize,
        ) by {
            assert(pre@.is_vacant(pre.free@[j]));
            assert(post.link(j) == pre.link(j));
        }
    }

    /// The value that `key` names, to be changed in place. Nothing but that
    /// value can change through the reference.
    pub fn get_mut(&mut self, key: &SlabKey) -> (found: Option<&mut T>)
        requires
            old(self).wf(),
        ensures
            final(self).wf(),
            match found {
                Some(value) => old(self)@.get(*key) == Some(*value) && final(self)@ == old(
                    self,
                )@.replace(*key, *final(value)),
                None => old(self)@.get(*key) is None && final(self)@ == old(self)@,
            },
    {
        if key.index >= self.entries.len() {
            return None;
        }
        let slab_entry = &mut self.entries[key.index];
        if let Entry::Used(ref mut value) = slab_entry.entry {
            if key.generation == slab_entry.generation {
                assert(after_borrow(*self).wf() && after_borrow(*self)@ == old(self)@.replace(
                    *key,
                    *final(value),
                )) by {
                    Self::lemma_value_changed(*old(self), after_borrow(*self), *key, *final(value));
                }
                return Some(value);
            }
        }
        assert(after_borrow(*self).entries@ =~= old(self).entries@);
        None
    }

    /// Raises the capacity by `additional` slots, or doubles it where no number
    /// is given. The capacity never exceeds `usize::MAX`. No slot changes.
    pub fn increase_capacity(&mut self, additional: Option<usize>)
        requires
            old(self).wf(),
        ensures
            final(self).wf(),
            final(self)@ == old(self)@.grow(
                match additional {
                    Some(slots) => slots as nat,
                    None => old(self)@.capacity,
                },
            ),
    {
        let additional = additional.unwrap_or(self.capacity);
        proof {
            self@.lemma_grow_wf(additional as nat);
        }
        self.capacity = self.capacity.saturating_add(additional);
        let spare = self.capacity - self.entries.len();
        let _ = self.entries.try_reserve(spare);
    }

    /// Takes all slots away and starts again with room for `capacity` slots.
    /// All values are dropped, and with the slots their generations: keys handed
    /// out before may name new values afterwards.
    pub fn deallocate_to(&mut self, capacity: usize)
        ensures
            final(self).wf(),
            final(self)@ == SlabView::<T>::fresh(capacity as nat),
    {
        let mut entries: Vec<SlabEntry<T>> = Vec::new();
        let _ = entries.try_reserve(capacity);
        self.entries = entries;
        self.next_free = 0;
        self.used = 0;
        self.capacity = capacity;
        self.initial_capacity = capacity;
        self.free = Ghost(Seq::empty());
        assert(self@.slots =~= Seq::empty());
    }

    /// Takes all slots away and goes back to the capacity that the allocator
    /// was made with, or was last reset to.
    pub fn clear(&mut self)
        ensures
            final(self).wf(),
            final(self)@ == SlabView::<T>::fresh(old(self)@.initial_capacity),
    {
        self.deallocate_to(self.initial_capacity);
    }

    /// How many slots may exist.
    pub fn capacity(&self) -> (slots: usize)
        ensures
            slots == self@.capacity,
    {
        self.capacity
    }

    /// Whether `key` names a value.
    pub fn contains(&self, key: &SlabKey) -> (live: bool)
        requires
            self.wf(),
        ensures
            live == self@.contains(*key),
    {
        if key.index >= self.entries.len() {
            return false;
        }
        match self.entries[key.index].entry {
            Entry::Used(_) => self.entries[key.index].generation == key.generation,
            Entry::Free(_) => false,
        }
    }

    /// The key that the next insertion hands out if it stores its value.
    pub fn vacant_key(&self) -> (key: SlabKey)
        requires
            self.wf(),
        ensures
            key == self@.next_key(),
    {
        if self.next_free < self.entries.len() {
            SlabKey { index: self.next_free, generation: self.entries[self.next_free].generation }
        } else {
            SlabKey { index: self.next_free, generation: 0 }
        }
    }

    /// Gives up the capacity beyond the slots that exist. No slot changes: a
    /// vacant slot stays, with its generation, so that the keys handed out for
    /// it stay dead.
    pub fn shrink_to_fit(&mut self)
        requires
            old(self).wf(),
        ensures
            final(self).wf(),
            final(self)@ == old(self)@.shrink(),
    {
        proof {
            self@.lemma_shrink_wf();
        }
        self.capacity = self.entries.len();
        release_spare(&mut self.entries);
    }

    /// Takes all values out, the one in the slot with the greatest index first,
    /// and resets the allocator as [`Slab::clear`] does.
    pub fn drain(&mut self) -> (values: Vec<T>)
        requires
            old(self).wf(),
        ensures
            final(self).wf(),
            final(self)@ == SlabView::<T>::fresh(old(self)@.initial_capacity),
            values@ == values_from_back(old(self)@.slots),
    {
        let mut values: Vec<T> = Vec::new();
        let ghost all = models(self.entries@);
        loop
            invariant
                values@ + values_from_back(models(self.entries@)) == values_from_back(all),
                self.initial_capacity == old(self).initial_capacity,
            ensures
                values@ == values_from_back(all),
            decreases self.entries@.len(),
        {
            let ghost before = models(self.entries@);
            let ghost taken = values@;
            match self.entries.pop() {
                Some(slab_entry) => {
                    assert(models(self.entries@) =~= before.drop_last());
                    assert(before.last() == slab_entry.model());
                    if let Entry::Used(value) = slab_entry.entry {
                        values.push(value);
                        assert(values@ + values_from_back(before.drop_last()) =~= taken + (seq![value]
                            + values_from_back(before.drop_last())));
                    }
                },
                None => {
                    assert(before =~= Seq::empty());
                    assert(values@ + Seq::<T>::empty() =~= values@);
                    break ;
                },
            }
        }
        self.clear();
        values
    }

    /// Whether no slot is free and no further slot may be made, so that an
    /// insertion would store nothing.
    pub fn is_full(&self) -> (full: bool)
        requires
            self.wf(),
        ensures
            full == self@.is_full(),
    {
        self.next_free >= self.entries.len() && self.entries.len() >= self.capacity
    }
}

} // verus!
