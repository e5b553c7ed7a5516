//! Layers, the shared handles that hold them, and their type-erased form.
//!
//! A layer is any value that implements [`LayerDispatch`]. The registry keeps
//! each layer in a cell that is shared and guarded by a readers-writer lock; a
//! [`Layer`] is a typed handle to such a cell, an [`AnyLayer`] the same cell
//! with its type forgotten, together with the identity of that type.
//!
//! Verus sees nothing inside a lock, so a cell stands for itself: two handles
//! are equal exactly when they refer to one cell. What the runtime decides
//! (which identity a type has, which cell a storage handle gives back) is
//! named by the spec functions [`type_key`], [`stored_kind`] and [`typed`];
//! the private functions at the end of this file say how the standard
//! library's operations relate to them, and nothing here proves it. What a
//! call has done that says nothing of its result (a cell was created with a
//! value, a layer has left a queue as it is, a lock was found poisoned) is
//! stated as that: as what such a call can return.
//!
//! Nothing here panics on a poisoned lock: a dispatch returns
//! [`LockPoisoned`] in place of its result, and it is for the caller to treat
//! that as fatal.

use std::any::Any;
use std::any::TypeId;
use std::ops::Deref;
use std::sync::Arc;
use std::sync::LockResult;
use std::sync::PoisonError;
use std::sync::RwLock;
use std::sync::RwLockWriteGuard;
use vstd::prelude::*;
use vstd::std_specs::convert::FromSpecImpl;
use vstd::std_specs::convert::TryFromSpecImpl;
use crate::event_queue::EventQueue;

verus! {

/// `std::sync::RwLock`, opaque to Verus.
#[verifier::external_type_specification]
#[verifier::external_body]
#[verifier::reject_recursive_types(T)]
pub struct ExRwLock<T: ?Sized>(RwLock<T>);

/// `std::sync::RwLockWriteGuard`, opaque to Verus.
#[verifier::external_type_specification]
#[verifier::external_body]
#[verifier::reject_recursive_types(T)]
pub struct ExRwLockWriteGuard<'a, T: ?Sized + 'a>(RwLockWriteGuard<'a, T>);

/// `std::sync::PoisonError`, opaque to Verus.
#[verifier::external_type_specification]
#[verifier::external_body]
#[verifier::reject_recursive_types(T)]
pub struct ExPoisonError<T>(PoisonError<T>);

/// `anyhow::Error`, opaque to Verus.
#[verifier::external_type_specification]
#[verifier::external_body]
pub struct ExAnyhowError(anyhow::Error);

/// `std::any::TypeId`, opaque to Verus.
#[verifier::external_type_specification]
#[verifier::external_body]
pub struct ExTypeId(TypeId);

/// A shared cell behind `Box<dyn Any + Send + Sync>`: the storage handle of a
/// type-erased layer. Verus does not take a trait object of `Any`, so the
/// whole struct is hidden from it.
#[verifier::external_body]
pub struct Stored(Box<dyn Any + Send + Sync>);

/// The identity of the layer type whose cell `stored` holds: the one type for
/// which `downcast_ref` gives the cell back. Nothing is proved of it; `store`
/// and `recover`, at the end of this file, say what is believed.
pub uninterp spec fn stored_kind(stored: Stored) -> TypeId;

/// The cell that `stored` gives back when it is asked for a cell of layers of
/// type `T`, if it holds one. It depends on `stored` and on `T` alone, and the
/// definition fixes no more than that; `store` and `recover` say what is
/// believed of it.
pub closed spec fn typed<T>(stored: Stored) -> Option<RwLock<T>> {
    arbitrary::<spec_fn(Stored) -> Option<RwLock<T>>>()(stored)
}

/// Whether `cell` is a cell that was created holding `value`. This is known
/// of a cell that was made so, and of nothing else.
pub closed spec fn created_with<T: Send + Sync>(cell: RwLock<T>, value: T) -> bool {
    call_ensures(new_lock::<T>, (value,), cell)
}

/// The identity of the type `T`: the kind of the storage handles that hold a
/// cell of `T`. `type_id_of` says that this is what `TypeId::of` returns.
pub closed spec fn type_key<T>() -> TypeId {
    stored_kind(choose|stored: Stored| typed::<T>(stored) is Some)
}

/// What a layer does with an event: it may push any number of reactions onto
/// `queue`. The default does nothing.
pub trait LayerDispatch<E> {
    fn dispatch(&mut self, _event: &E, _queue: &mut EventQueue<E>) {
    }
}

/// A layer that may be shared between threads: the one trait behind the
/// reaction handle of an [`AnyLayer`].
trait Shared<E>: LayerDispatch<E> + Send + Sync {
}

impl<E, T: LayerDispatch<E> + Send + Sync> Shared<E> for T {
}

/// The reaction handle of a type-erased layer: the layer's cell, seen through
/// the one interface that every layer has.
#[verifier::reject_recursive_types(E)]
struct Reactor<E: Send + Sync>(Arc<RwLock<dyn Shared<E>>>);

/// A typed handle to a shared, lock-protected layer. Cloning it gives a second
/// handle to the same cell.
#[verifier::reject_recursive_types(T)]
pub struct Layer<T: Send + Sync>(Arc<RwLock<T>>);

impl<T: Send + Sync> Layer<T> {
    /// The cell that this handle refers to.
    pub closed spec fn cell(&self) -> RwLock<T> {
        *self.0
    }

    /// Puts `layer` into a new cell and returns the first handle to it.
    pub fn new(layer: T) -> (handle: Self)
        ensures
            created_with(handle.cell(), layer),
    {
        Layer(Arc::new(new_lock(layer)))
    }
}

impl<T: Send + Sync> Deref for Layer<T> {
    type Target = Arc<RwLock<T>>;

    fn deref(&self) -> (target: &Arc<RwLock<T>>)
        ensures
            **target == self.cell(),
    {
        &self.0
    }
}

impl<T: Send + Sync> Clone for Layer<T> {
    fn clone(&self) -> (twin: Self)
        ensures
            twin == *self,
    {
        Layer(share(&self.0))
    }
}

/// The recovery follows no spec function of its own: what it returns is
/// stated at `try_from` itself.
impl<E, T> TryFromSpecImpl<&AnyLayer<E>> for Layer<T> where
    E: Send + Sync,
    T: Send + Sync + 'static,
 {
    open spec fn obeys_try_from_spec() -> bool {
        false
    }

    open spec fn try_from_spec(value: &AnyLayer<E>) -> Result<Self, Self::Error> {
        arbitrary()
    }
}

impl<E, T> TryFrom<&AnyLayer<E>> for Layer<T> where
    E: Send + Sync,
    T: Send + Sync + 'static,
 {
    type Error = anyhow::Error;

    /// Recovers the typed handle of `value`. It fails exactly when `value` is
    /// a layer of another type than `T`; the error then says that the cast
    /// has failed.
    fn try_from(value: &AnyLayer<E>) -> (recovered: Result<Self, Self::Error>)
        ensures
            recovered is Ok <==> value.key() == type_key::<T>(),
            recovered matches Ok(handle) ==> value.handle::<T>() == Some(handle.cell()),
    {
        proof {
            use_type_invariant(value);
        }
        match recover::<T>(&value.layer) {
            Some(cell) => Ok(Layer(share(cell))),
            None => Err(failure("Layer cast failed")),
        }
    }
}

/// The failure of a dispatch: the lock of a layer is poisoned, that is a holder
/// of its write guard has panicked. The layer was not called.
#[derive(Clone, Copy, Debug, PartialEq, Eq, Structural)]
pub struct LockPoisoned;

/// One layer with its type forgotten: the identity of the type, a handle
/// through which the layer reacts to events, and a storage handle from which
/// the typed handle can be recovered.
#[verifier::reject_recursive_types(E)]
pub struct AnyLayer<E: Send + Sync> {
    id: TypeId,
    dispatch: Reactor<E>,
    layer: Stored,
}

impl<E: Send + Sync> AnyLayer<E> {
    /// The identity of the layer's type.
    pub closed spec fn key(&self) -> TypeId {
        self.id
    }

    /// The cell of the layer, as a cell of `T`; `None` if the layer is of
    /// another type.
    pub closed spec fn handle<T>(&self) -> Option<RwLock<T>> {
        typed::<T>(self.layer)
    }

    /// Whether the layer reacts through `cell`: whether its reaction handle
    /// was made of a handle to that cell.
    pub closed spec fn reacts_through<T: LayerDispatch<E> + Send + Sync + 'static>(
        &self,
        cell: RwLock<T>,
    ) -> bool {
        exists|held: Arc<RwLock<T>>|
            *held == cell && #[trigger] call_ensures(erase::<E, T>, (held,), self.dispatch)
    }

    /// The identity and the storage handle belong to one type.
    #[verifier::type_invariant]
    closed spec fn paired(&self) -> bool {
        stored_kind(self.layer) == self.id
    }

    /// Wraps `from` into a new cell and forgets its type.
    pub fn new<T>(from: T) -> (any: Self) where T: LayerDispatch<E> + Send + Sync + 'static
        ensures
            any.key() == type_key::<T>(),
            any.handle::<T>() matches Some(cell) && created_with(cell, from)
                && any.reacts_through(cell),
    {
        AnyLayer::from(Layer::new(from))
    }

    /// Whether the layer, handed `event` and a queue that holds `before`, can
    /// leave the queue holding `after`. What a layer does is its own affair:
    /// this is known of a call that was made under the layer's write lock,
    /// and of nothing else.
    pub closed spec fn reacts(&self, event: E, before: Seq<E>, after: Seq<E>) -> bool {
        exists|guard: RwLockWriteGuard<dyn Shared<E> + 'static>, given: EventQueue<E>, left: EventQueue<E>|
            given@ == before && left@ == after && call_ensures(
                lock::<E>,
                (&self.dispatch,),
                Ok(guard),
            ) && #[trigger] call_ensures(hand::<E>, (guard, &event, given), left)
    }

    /// Whether the layer's lock can be found poisoned. This is known of a lock
    /// that was found so, and of nothing else.
    pub closed spec fn refuses(&self) -> bool {
        exists|poison: PoisonError<RwLockWriteGuard<dyn Shared<E> + 'static>>| #[trigger]
            call_ensures(lock::<E>, (&self.dispatch,), Err(poison))
    }

    /// Takes the layer's write lock, hands `event` and `queue` to the layer,
    /// and returns the queue as the layer has left it. If the lock is
    /// poisoned, the layer is not called.
    pub(crate) fn notify(&self, event: &E, queue: EventQueue<E>) -> (outcome: Result<
        EventQueue<E>,
        LockPoisoned,
    >)
        ensures
            match outcome {
                Ok(answered) => self.reacts(*event, queue@, answered@),
                Err(_) => self.refuses(),
            },
    {
        match lock(&self.dispatch) {
            Ok(guard) => Ok(hand(guard, event, queue)),
            Err(_) => Err(LockPoisoned),
        }
    }

    /// Takes the layer's write lock and hands `event` and `queue` to the
    /// layer. If the lock is poisoned, the layer is not called and the queue
    /// stays as it is. The erased layer itself stays as it is in both cases.
    pub fn dispatch(&mut self, event: &E, queue: &mut EventQueue<E>) -> (outcome: Result<
        (),
        LockPoisoned,
    >)
        ensures
            *final(self) == *old(self),
            match outcome {
                Ok(_) => old(self).reacts(*event, old(queue)@, final(queue)@),
                Err(_) => old(self).refuses() && final(queue)@ == old(queue)@,
            },
    {
        match lock(&self.dispatch) {
            Ok(guard) => {
                let mut given = EventQueue::new();
                std::mem::swap(&mut given, queue);
                let answered = hand(guard, event, given);
                *queue = answered;
                Ok(())
            },
            Err(_) => Err(LockPoisoned),
        }
    }

    /// The identity of the layer's type.
    pub fn id(&self) -> (id: TypeId)
        ensures
            id == self.key(),
    {
        self.id
    }
}

/// The erasure follows no spec function of its own: what it returns is stated
/// at `from` itself.
impl<E, T> FromSpecImpl<Layer<T>> for AnyLayer<E> where
    E: Send + Sync,
    T: LayerDispatch<E> + Send + Sync + 'static,
 {
    open spec fn obeys_from_spec() -> bool {
        false
    }

    open spec fn from_spec(value: Layer<T>) -> Self {
        arbitrary()
    }
}

impl<E, T> From<Layer<T>> for AnyLayer<E> where
    E: Send + Sync,
    T: LayerDispatch<E> + Send + Sync + 'static,
 {
    /// Forgets the type of `value`: the result has the identity of `T`, and
    /// it stores and reacts through the cell of `value`.
    fn from(value: Layer<T>) -> (any: Self)
        ensures
            any.key() == type_key::<T>(),
            any.handle::<T>() == Some(value.cell()),
            any.reacts_through(value.cell()),
    {
        let shared = share(&value.0);
        let ghost held = shared;
        let reactor = erase(shared);
        let any = AnyLayer { id: type_id_of::<T>(), dispatch: reactor, layer: store(value.0) };
        assert(call_ensures(erase::<E, T>, (held,), any.dispatch));
        any
    }
}

// What follows is believed, not proved: each function holds one call into the
// standard library.

/// `TypeId::of::<T>()`: the identity of `T`, the same in every call.
#[verifier::external_body]
pub(crate) fn type_id_of<T: Send + Sync + 'static>() -> (id: TypeId)
    ensures
        id == type_key::<T>(),
{
    TypeId::of::<T>()
}

/// `anyhow::Error::msg`: an error that carries `message`. What else the error
/// holds (a backtrace, if the process asks for one) is not a matter of the
/// message, so nothing is stated of the result.
#[verifier::external_body]
fn failure(message: &'static str) -> (error: anyhow::Error) {
    anyhow::Error::msg(message)
}

/// `RwLock::new`: a new cell, which starts out holding `value`.
#[verifier::external_body]
fn new_lock<T: Send + Sync>(value: T) -> (cell: RwLock<T>) {
    RwLock::new(value)
}

/// `Arc::clone`: a second owner of the same cell.
#[verifier::external_body]
fn share<T: Send + Sync>(cell: &Arc<RwLock<T>>) -> (same: Arc<RwLock<T>>)
    ensures
        same == *cell,
{
    Arc::clone(cell)
}

/// The unsizing of `Arc<RwLock<T>>` to the trait object of the layer's
/// reaction interface: a handle to the same cell.
#[verifier::external_body]
fn erase<E: Send + Sync, T: LayerDispatch<E> + Send + Sync + 'static>(
    cell: Arc<RwLock<T>>,
) -> (reactor: Reactor<E>) {
    Reactor(cell)
}

/// `Box::new` and the unsizing to `dyn Any`: a storage handle that holds
/// `cell`, and whose kind is the identity of `T`. (Verus takes no trait object
/// with auto traits in a function's own expressions, hence the closure.)
#[verifier::external_body]
fn store<T: Send + Sync + 'static>(cell: Arc<RwLock<T>>) -> (stored: Stored)
    ensures
        stored_kind(stored) == type_key::<T>(),
        typed::<T>(stored) == Some(*cell),
{
    let boxed = move || -> Stored { Stored(Box::new(cell)) };
    boxed()
}

/// `<dyn Any>::downcast_ref`: the cell that `stored` holds, if and only if
/// that is a cell of `T`.
#[verifier::external_body]
fn recover<T: Send + Sync + 'static>(stored: &Stored) -> (cell: Option<&Arc<RwLock<T>>>)
    ensures
        cell is Some <==> stored_kind(*stored) == type_key::<T>(),
        cell matches Some(c) ==> typed::<T>(*stored) == Some(**c),
{
    stored.0.downcast_ref::<Arc<RwLock<T>>>()
}

/// `RwLock::write`: the write guard of the layer's cell, or the error that
/// says that the lock is poisoned, that is that a holder of the guard has
/// panicked. Which of the two comes back depends on what has happened to the
/// cell, not on the handle, so nothing is stated of it. The call waits while
/// others hold the lock; of a call by a thread that holds the lock itself the
/// standard library says only that it may panic or not return.
#[verifier::external_body]
fn lock<E: Send + Sync>(reactor: &Reactor<E>) -> (access: LockResult<
    RwLockWriteGuard<'_, dyn Shared<E> + 'static>,
>) {
    reactor.0.write()
}

/// The layer's own `dispatch`, under the write guard `guard`: the queue as
/// the layer has left it. Nothing is known of what the layer does to the
/// queue. The guard ends with the call, and with it the lock.
#[verifier::external_body]
fn hand<E: Send + Sync>(
    guard: RwLockWriteGuard<'_, dyn Shared<E> + 'static>,
    event: &E,
    queue: EventQueue<E>,
) -> (answered: EventQueue<E>) {
    let mut guard = guard;
    let mut queue = queue;
    guard.dispatch(event, &mut queue);
    queue
}

} // verus!
