//! Actors, the messages they handle, and the handles through which they are reached.

use std::any::Any;
use std::sync::Arc;
use vstd::prelude::*;

verus! {

/// A value that can be stored in the system and reached by its identifier.
pub trait Actor: Send + Sync + 'static {
    /// Called once when the system forgets the actor. Handles obtained before
    /// stay usable; an actor may answer them as it sees fit afterwards.
    fn destroy(&self) {
    }
}

/// A message. Its type fixes the type of the answer.
pub trait Message: Send + Sync + 'static {
    /// What a handler of this message answers.
    type Result: Send + Sync + 'static;
}

/// An actor that handles messages of type `M`.
pub trait Handler<M: Message>: Actor {
    /// Handles `message` and answers it.
    fn handle_message(&self, message: M) -> M::Result;
}

/// Something that messages of type `M` can be sent to, whatever actor is behind it.
pub trait MessageSender<M: Message> {
    /// Sends `message` and waits for the answer.
    fn send(&self, message: M) -> M::Result;
}

/// A handle to an actor. Its clones reach the same actor, and the actor lives
/// as long as one of them does.
pub struct ActorHandle<A: Actor>(Arc<A>);

impl<A: Actor> View for ActorHandle<A> {
    type V = A;

    /// The actor that the handle reaches.
    closed spec fn view(&self) -> A {
        *self.0
    }
}

impl<A: Actor> ActorHandle<A> {
    /// A handle to `actor`.
    pub(crate) fn new(actor: A) -> (handle: Self)
        ensures
            handle@ == actor,
    {
        Self(Arc::new(actor))
    }

    /// Sends `message` to the actor and waits for the answer: the actor's
    /// handler is called at once, and what it answers is handed back unchanged.
    pub fn send<M: Message>(&self, message: M) -> (result: M::Result) where A: Handler<M>
        ensures
            call_ensures(<A as Handler<M>>::handle_message, (&self@, message), result),
    {
        self.0.handle_message(message)
    }

    /// Tells the actor that it is being forgotten.
    pub fn kill(&self) {
        self.0.destroy();
    }
}

impl<M: Message, A: Actor + Handler<M>> MessageSender<M> for ActorHandle<A> {
    fn send(&self, message: M) -> (result: M::Result)
        ensures
            call_ensures(<A as Handler<M>>::handle_message, (&self@, message), result),
    {
        self.0.handle_message(message)
    }
}

impl<A: Actor> Clone for ActorHandle<A> {
    fn clone(&self) -> (other: Self)
        ensures
            other@ == self@,
    {
        Self(self.0.clone())
    }
}

/// What the system calls on a stored actor without knowing its type.
pub(crate) trait ActorRef: Send + Sync + 'static {
    /// Tells the actor that it is being forgotten.
    fn kill(&self);
}

impl<A: Actor> ActorRef for ActorHandle<A> {
    fn kill(&self) {
        self.0.destroy();
    }
}

/// A handle of hidden type that its type can be asked of. It stands for
/// `Arc<dyn Any + Send + Sync>`, a type that cannot be declared to the verifier,
/// so nothing inside it is visible to a proof.
#[verifier::external_body]
pub struct AnyHandle {
    inner: Arc<dyn Any + Send + Sync>,
}

/// A handle whose actor type is hidden, as the system stores it. The typed
/// handle is recovered from it by naming the type, and the actor can be told
/// that it is being forgotten without naming it.
pub struct ErasedHandle {
    /// The handle, for the calls that need no type.
    target: Arc<dyn ActorRef>,
    /// The same handle, for recovering its type.
    any: AnyHandle,
}

/// Hides the type of `handle`. This is `Arc::new`, and the coercion of its
/// result to the two trait objects that an erased handle is made of. Nothing
/// is claimed of the result here; [`downcast`] says what is found in it again.
#[verifier::external_body]
fn erase_handle<A: Actor>(handle: ActorHandle<A>) -> ErasedHandle {
    let shared = Arc::new(handle);
    ErasedHandle { target: shared.clone(), any: AnyHandle { inner: shared } }
}

/// Asks `erased` for a handle to an actor of type `A`. This is `downcast_ref`
/// of `dyn Any`, which hands out the value inside if it is of the type asked
/// for. Claimed: where `erased` was made by [`erase_handle`] from a handle to
/// an actor of type `A`, that handle is found; and a handle that is found is
/// one that `erased` can have been made from. What is found for a type that
/// `erased` was not made from is left open.
#[verifier::external_body]
fn downcast<A: Actor>(erased: &ErasedHandle) -> (found: Option<&ActorHandle<A>>)
    ensures
        forall|handle: ActorHandle<A>| #[trigger]
            call_ensures(erase_handle::<A>, (handle,), *erased) ==> found == Some(&handle),
        (found matches Some(handle) ==> call_ensures(erase_handle::<A>, (*handle,), *erased)),
{
    erased.any.inner.downcast_ref::<ActorHandle<A>>()
}

impl ErasedHandle {
    /// This handle was made from a handle to `actor`, an actor of type `A`.
    pub closed spec fn holds<A: Actor>(&self, actor: A) -> bool {
        call_ensures(erase_handle::<A>, (ActorHandle(Arc::new(actor)),), *self)
    }

    /// `found` is what recovery at type `A` gives: the handle to the actor of
    /// type `A` that this handle holds, and nothing that it does not hold.
    pub open spec fn recovers<A: Actor>(&self, found: Option<&ActorHandle<A>>) -> bool {
        &&& forall|actor: A| #[trigger]
            self.holds(actor) ==> (found matches Some(handle) && handle@ == actor)
        &&& (found matches Some(handle) ==> self.holds(handle@))
    }

    /// Hides the actor type of `handle`.
    pub fn erase<A: Actor>(handle: ActorHandle<A>) -> (erased: Self)
        ensures
            erased.holds(handle@),
    {
        erase_handle(handle)
    }

    /// The typed handle again, if `A` is the type of the actor.
    pub fn recover<A: Actor>(&self) -> (found: Option<&ActorHandle<A>>)
        ensures
            self.recovers(found),
    {
        let found = downcast::<A>(self);
        assert forall|actor: A| #[trigger] self.holds(actor) implies (found matches Some(handle)
            && handle@ == actor) by {
            assert(call_ensures(erase_handle::<A>, (ActorHandle(Arc::new(actor)),), *self));
        }
        found
    }

    /// Tells the actor that it is being forgotten.
    pub fn kill(&self) {
        self.target.kill();
    }
}

} // verus!
