//! An actor system without mailboxes: actors of any type are stored behind
//! identifiers that are safe to reuse, and a message sent through a handle is
//! handled at once, with the answer that its type fixes.

pub mod actor;
pub mod laws;
pub mod model;
pub mod slab;

pub use actor::{Actor, ActorHandle, ErasedHandle, Handler, Message, MessageSender};
pub use slab::{Slab, SlabKey};

use model::SlabView;
use vstd::prelude::*;

verus! {

/// The system: it owns the actors and hands out their identifiers.
pub struct Slacktor {
    /// The stored handles, their actor types hidden.
    slab: Slab<ErasedHandle>,
    /// Whether the capacity is raised when it is used up.
    growing: bool,
}

impl View for Slacktor {
    type V = SlabView<ErasedHandle>;

    /// The slots of the system, with the handles that they hold.
    closed spec fn view(&self) -> SlabView<ErasedHandle> {
        self.slab@
    }
}

impl Slacktor {
    /// The invariant of the system.
    pub closed spec fn wf(&self) -> bool {
        self.slab.wf()
    }

    /// The slots of a system are well formed.
    pub proof fn lemma_view_wf(&self)
        requires
            self.wf(),
        ensures
            self@.wf(),
    {
        self.slab.lemma_view_wf();
    }

    /// Whether the system raises its capacity when it is used up.
    pub closed spec fn grows(&self) -> bool {
        self.growing
    }

    /// The slots at the time a new actor is stored: where the system grows and
    /// is full, the capacity has been doubled first, or raised from 0 to 1.
    pub open spec fn with_room(&self) -> SlabView<ErasedHandle> {
        if self.grows() && self@.is_full() {
            self@.grow(
                if self@.capacity == 0 {
                    1
                } else {
                    self@.capacity
                },
            )
        } else {
            self@
        }
    }

    /// What [`Slacktor::spawn`] does: `self` is the system before, `after` the
    /// system after `actor` was handed to it and `id` came back.
    pub open spec fn spawns<A: Actor>(&self, after: &Slacktor, actor: A, id: Option<SlabKey>) -> bool {
        &&& after.grows() == self.grows()
        &&& id == if self.with_room().is_full() {
            None
        } else {
            Some(self.with_room().next_key())
        }
        &&& match id {
            Some(key) => after@.get(key) matches Some(erased) && erased.holds(actor) && after@
                == self.with_room().insert(erased),
            None => after@ == self.with_room(),
        }
    }

    /// What [`Slacktor::get`] does: `found` is what comes back for `id` when the
    /// actor type `A` is named.
    pub open spec fn gets<A: Actor>(&self, id: SlabKey, found: Option<&ActorHandle<A>>) -> bool {
        match self@.get(id) {
            Some(erased) => erased.recovers(found),
            None => found is None,
        }
    }

    /// A system without actors, with room for `capacity` of them, or for none
    /// where no number is given. It raises its capacity whenever it is used up.
    pub fn new(capacity: Option<usize>) -> (system: Self)
        ensures
            system.wf(),
            system.grows(),
            system@ == SlabView::<ErasedHandle>::fresh(
                match capacity {
                    Some(slots) => slots as nat,
                    None => 0,
                },
            ),
    {
        Slacktor { slab: Slab::new(capacity.unwrap_or(0)), growing: true }
    }

    /// A system without actors that never holds more than `capacity` slots.
    pub fn bounded(capacity: usize) -> (system: Self)
        ensures
            system.wf(),
            !system.grows(),
            system@ == SlabView::<ErasedHandle>::fresh(capacity as nat),
    {
        Slacktor { slab: Slab::new(capacity), growing: false }
    }

    /// The identifier that the next actor gets.
    pub fn next_id(&self) -> (id: SlabKey)
        requires
            self.wf(),
        ensures
            id == self@.next_key(),
    {
        self.slab.vacant_key()
    }

    /// Stores `actor` and hands out its identifier. A system that grows stores
    /// every actor, as long as the number of its slots fits a machine word; a
    /// bounded system that is full stores nothing, hands out no identifier and
    /// drops the actor.
    pub fn spawn<A: Actor>(&mut self, actor: A) -> (id: Option<SlabKey>)
        requires
            old(self).wf(),
        ensures
            final(self).wf(),
            old(self).spawns(final(self), actor, id),
            old(self).grows() && old(self)@.slots.len() < usize::MAX ==> id is Some,
    {
        if self.growing && self.slab.is_full() {
            let capacity = self.slab.capacity();
            self.slab.increase_capacity(
                if capacity == 0 {
                    Some(1)
                } else {
                    None
                },
            );
        }
        let erased = ErasedHandle::erase(ActorHandle::new(actor));
        proof {
            self.slab.lemma_view_wf();
            old(self).slab.lemma_view_wf();
            if !self@.is_full() {
                self@.law_insert_stores(erased);
            }
        }
        self.slab.insert(erased)
    }

    /// Forgets the actor that `id` names and tells it so. An identifier that
    /// names no actor changes nothing. Handles obtained before stay usable.
    pub fn kill(&mut self, id: SlabKey)
        requires
            old(self).wf(),
        ensures
            final(self).wf(),
            final(self).grows() == old(self).grows(),
            final(self)@ == old(self)@.remove(id),
    {
        match self.slab.get(&id) {
            Some(erased) => {
                erased.kill();
            },
            None => {
                return ;
            },
        }
        self.slab.remove(&id);
    }

    /// The handle to the actor that `id` names, if it names one and the actor
    /// is of type `A`.
    pub fn get<A: Actor>(&self, id: SlabKey) -> (found: Option<&ActorHandle<A>>)
        requires
            self.wf(),
        ensures
            self.gets(id, found),
    {
        match self.slab.get(&id) {
            Some(erased) => erased.recover::<A>(),
            None => None,
        }
    }

    /// Forgets every actor, tells each of them so, and takes all slots away:
    /// the system is as it was when it was made.
    pub fn shutdown(&mut self)
        requires
            old(self).wf(),
        ensures
            final(self).wf(),
            final(self).grows() == old(self).grows(),
            final(self)@ == SlabView::<ErasedHandle>::fresh(old(self)@.initial_capacity),
    {
        let actors = self.slab.drain();
        let mut i: usize = 0;
        while i < actors.len()
            invariant
                i <= actors.len(),
            decreases actors.len() - i,
        {
            actors[i].kill();
            i += 1;
        }
    }

    /// Gives up the capacity beyond the slots that exist. No actor and no
    /// identifier changes; a bounded system can hold no further slot afterwards.
    pub fn shrink(&mut self)
        requires
            old(self).wf(),
        ensures
            final(self).wf(),
            final(self).grows() == old(self).grows(),
            final(self)@ == old(self)@.shrink(),
    {
        self.slab.shrink_to_fit();
    }

    /// Round trip: where an actor was stored and its identifier is asked for
    /// with the actor's type, a handle is found, and it reaches that actor.
    pub proof fn law_round_trip<A: Actor>(
        before: Slacktor,
        after: Slacktor,
        actor: A,
        id: SlabKey,
        found: Option<&ActorHandle<A>>,
    )
        requires
            before.spawns(&after, actor, Some(id)),
            after.gets(id, found),
        ensures
            found matches Some(handle) && handle@ == actor,
    {
        let erased = after@.get(id)->Some_0;
        assert(erased.holds(actor));
    }

    /// Killing: after an actor was forgotten its identifier finds nothing, for
    /// whatever type it is asked; to forget it again changes nothing; and every
    /// other identifier finds what it found before.
    pub proof fn law_kill<A: Actor>(
        before: Slacktor,
        after: Slacktor,
        id: SlabKey,
        found: Option<&ActorHandle<A>>,
        other: SlabKey,
    )
        requires
            before.wf(),
            after@ == before@.remove(id),
            after.gets(id, found),
        ensures
            found is None,
            after@.remove(id) == after@,
            other != id ==> after@.get(other) == before@.get(other),
    {
        before.lemma_view_wf();
        before@.law_remove_idempotent(id, other);
    }
}

impl Default for Slacktor {
    /// A system without actors that grows from no capacity.
    fn default() -> (system: Self)
        ensures
            system.wf(),
            system.grows(),
            system@ == SlabView::<ErasedHandle>::fresh(0),
    {
        Slacktor::new(None)
    }
}

} // verus!
