//! The registry: at most one layer of each type, found again by type.

use std::any::TypeId;
use std::sync::RwLock;
use vstd::prelude::*;
use crate::event_queue::EventQueue;
use crate::layer::created_with;
use crate::layer::type_id_of;
use crate::layer::type_key;
use crate::layer::AnyLayer;
use crate::layer::Layer;
use crate::layer::LayerDispatch;
use crate::layer::LockPoisoned;
use crate::type_map::has_key;
use crate::type_map::key_index;
use crate::type_map::lemma_key_index;
use crate::type_map::TypeMap;

verus! {

/// Each layer of `layers` under the identity of its type.
pub open spec fn by_type<E: Send + Sync>(layers: Seq<AnyLayer<E>>) -> Seq<(TypeId, AnyLayer<E>)> {
    Seq::new(layers.len(), |i: int| (layers[i].key(), layers[i]))
}

/// No two layers of `layers` are of one type.
pub open spec fn distinct_types<E: Send + Sync>(layers: Seq<AnyLayer<E>>) -> bool {
    forall|i: int, j: int|
        0 <= i < j < layers.len() ==> (#[trigger] layers[i]).key() != (#[trigger] layers[j]).key()
}

/// Whether `layers` holds a layer whose type has the identity `key`.
pub open spec fn has_type<E: Send + Sync>(layers: Seq<AnyLayer<E>>, key: TypeId) -> bool {
    has_key(by_type(layers), key)
}

/// The position in `layers` of the layer whose type has the identity `key`,
/// or the length of `layers` if there is none.
pub open spec fn type_index<E: Send + Sync>(layers: Seq<AnyLayer<E>>, key: TypeId) -> int {
    key_index(by_type(layers), key)
}

/// The cell of the layer of type `T` in `layers`, if there is one.
pub open spec fn cell_of<E: Send + Sync, T>(layers: Seq<AnyLayer<E>>) -> Option<RwLock<T>> {
    if has_type(layers, type_key::<T>()) {
        layers[type_index(layers, type_key::<T>())].handle::<T>()
    } else {
        None
    }
}

/// What `layers` becomes when `layer` is offered to it: `layer` goes to the
/// end unless a layer of its type is there already.
pub open spec fn with_layer<E: Send + Sync>(layers: Seq<AnyLayer<E>>, layer: AnyLayer<E>) -> Seq<
    AnyLayer<E>,
> {
    if has_type(layers, layer.key()) {
        layers
    } else {
        layers.push(layer)
    }
}

/// What `layers` becomes when the layer whose type has the identity `key` is
/// taken out: the others keep their order.
pub open spec fn without_type<E: Send + Sync>(layers: Seq<AnyLayer<E>>, key: TypeId) -> Seq<
    AnyLayer<E>,
> {
    if has_type(layers, key) {
        layers.remove(type_index(layers, key))
    } else {
        layers
    }
}

/// Whether `after` can be what a queue that holds `before` holds once `event`
/// has been handed to every layer of `layers`, oldest first, each layer
/// finding in the queue what the layers before it have left.
pub open spec fn fans_out<E: Send + Sync>(
    layers: Seq<AnyLayer<E>>,
    event: E,
    before: Seq<E>,
    after: Seq<E>,
) -> bool
    decreases layers.len(),
{
    if layers.len() == 0 {
        after == before
    } else {
        exists|mid: Seq<E>|
            fans_out(layers.drop_last(), event, before, mid) && #[trigger] layers.last().reacts(
                event,
                mid,
                after,
            )
    }
}

/// Whether a pass over `layers` with `event` can stop at position `at`: the
/// layers before it have reacted, and the lock of the layer there is found
/// poisoned, so that neither it nor a layer after it is called.
pub open spec fn fan_out_stops<E: Send + Sync>(layers: Seq<AnyLayer<E>>, event: E, at: int) -> bool {
    &&& 0 <= at < layers.len()
    &&& layers[at].refuses()
    &&& exists|mid: Seq<E>| #[trigger] fans_out(layers.take(at), event, Seq::empty(), mid)
}

/// Whether the lock of some layer of `layers` can be found poisoned.
pub open spec fn some_refuses<E: Send + Sync>(layers: Seq<AnyLayer<E>>) -> bool {
    exists|at: int| 0 <= at < layers.len() && (#[trigger] layers[at]).refuses()
}

/// Holds at most one layer of each type, in the order in which they came.
#[verifier::reject_recursive_types(E)]
pub struct LayerReg<E: Send + Sync> {
    layers: TypeMap<AnyLayer<E>>,
}

impl<E: Send + Sync> View for LayerReg<E> {
    type V = Seq<AnyLayer<E>>;

    /// The layers, oldest first: the order in which an event reaches them.
    closed spec fn view(&self) -> Seq<AnyLayer<E>> {
        layers_of(self.layers@)
    }
}

/// The layers that the entries of a map hold.
spec fn layers_of<E: Send + Sync>(entries: Seq<(TypeId, AnyLayer<E>)>) -> Seq<AnyLayer<E>> {
    Seq::new(entries.len(), |i: int| entries[i].1)
}

/// Every entry stands under the identity of its own layer's type.
spec fn keyed<E: Send + Sync>(entries: Seq<(TypeId, AnyLayer<E>)>) -> bool {
    forall|i: int| 0 <= i < entries.len() ==> (#[trigger] entries[i]).0 == entries[i].1.key()
}

/// Entries that are keyed by their layers are those layers by type.
proof fn lemma_keyed<E: Send + Sync>(entries: Seq<(TypeId, AnyLayer<E>)>)
    requires
        keyed(entries),
    ensures
        by_type(layers_of(entries)) == entries,
{
    assert(by_type(layers_of(entries)) =~= entries);
}

impl<E: Send + Sync> LayerReg<E> {
    /// What holds of every registry: every layer is stored under the identity
    /// of its own type, and no identity is taken twice.
    #[verifier::type_invariant]
    pub closed spec fn inv(&self) -> bool {
        keyed(self.layers@) && self.layers.wf()
    }

    /// No two layers of a registry are of one type.
    pub proof fn lemma_distinct(&self)
        requires
            self.inv(),
        ensures
            self.wf(),
    {
        self.lemma_view();
    }

    /// No two layers are of one type.
    pub open spec fn wf(&self) -> bool {
        distinct_types(self@)
    }

    /// Whether a layer of type `T` is registered.
    pub open spec fn has<T>(&self) -> bool {
        has_type(self@, type_key::<T>())
    }

    /// The cell of the registered layer of type `T`, if there is one.
    pub open spec fn cell<T>(&self) -> Option<RwLock<T>> {
        cell_of::<E, T>(self@)
    }

    /// What the two invariants give: the map's entries are the layers by
    /// type, and no two of them are of one type.
    proof fn lemma_view(&self)
        requires
            self.inv(),
        ensures
            by_type(self@) == self.layers@,
            self.wf(),
    {
        lemma_keyed(self.layers@);
        assert forall|i: int, j: int| 0 <= i < j < self@.len() implies (#[trigger] self@[i]).key()
            != (#[trigger] self@[j]).key() by {
            assert(self.layers@[i].0 == self@[i].key());
            assert(self.layers@[j].0 == self@[j].key());
        }
    }

    /// An empty registry.
    pub fn new() -> (reg: Self)
        ensures
            reg@ == Seq::<AnyLayer<E>>::empty(),
            reg.wf(),
    {
        LayerReg { layers: TypeMap::new() }
    }

    /// Registers `layer` unless a layer of its type is registered: then the
    /// registry stays as it is and `layer` comes back.
    pub fn insert_any(&mut self, layer: AnyLayer<E>) -> (rejected: Option<AnyLayer<E>>)
        ensures
            final(self).wf(),
            final(self)@ == with_layer(old(self)@, layer),
            rejected == if has_type(old(self)@, layer.key()) {
                Some(layer)
            } else {
                None
            },
    {
        proof {
            use_type_invariant(&*self);
            use_type_invariant(&self.layers);
            self.lemma_view();
        }
        let key = layer.id();
        let mut layers = TypeMap::new();
        std::mem::swap(&mut layers, &mut self.layers);
        let rejected = layers.insert_once(key, layer);
        proof {
            lemma_keyed(layers@);
        }
        self.layers = layers;
        proof {
            use_type_invariant(&self.layers);
            self.lemma_view();
        }
        rejected
    }

    /// Puts `layer` into a new cell and registers it, unless a layer of type
    /// `T` is registered: then the registry stays as it is and `layer` comes
    /// back.
    pub fn insert<T>(&mut self, layer: T) -> (rejected: Option<T>) where
        T: LayerDispatch<E> + Send + Sync + 'static,

        ensures
            final(self).wf(),
            match rejected {
                Some(back) => old(self).has::<T>() && back == layer && final(self)@ == old(self)@,
                None => {
                    &&& !old(self).has::<T>()
                    &&& final(self)@.len() == old(self)@.len() + 1
                    &&& final(self)@.drop_last() == old(self)@
                    &&& final(self)@.last().key() == type_key::<T>()
                    &&& final(self).cell::<T>() matches Some(cell) && created_with(cell, layer)
                        && final(self)@.last().reacts_through(cell)
                },
            },
    {
        proof {
            use_type_invariant(&*self);
            use_type_invariant(&self.layers);
            self.lemma_view();
        }
        let key = type_id_of::<T>();
        if self.layers.contains_key(&key) {
            return Some(layer);
        }
        let any = AnyLayer::from(Layer::new(layer));
        let rejected = self.insert_any(any);
        proof {
            lemma_last_of_type::<E, T>(old(self)@, any);
        }
        None
    }

    /// A handle to the registered layer of type `T`, if there is one.
    pub fn get<T: Send + Sync + 'static>(&self) -> (found: Option<Layer<T>>)
        ensures
            self.wf(),
            match found {
                Some(handle) => self.cell::<T>() == Some(handle.cell()),
                None => !self.has::<T>(),
            },
    {
        proof {
            use_type_invariant(self);
            use_type_invariant(&self.layers);
            self.lemma_view();
        }
        let key = type_id_of::<T>();
        match self.layers.get(&key) {
            None => None,
            Some(any) => {
                proof {
                    lemma_key_index(self.layers@, key);
                }
                match Layer::<T>::try_from(any) {
                    Ok(handle) => Some(handle),
                    // The entry stands under the identity of `T`, so it holds a
                    // cell of `T`.
                    Err(_) => {
                        assert(false);
                        None
                    },
                }
            },
        }
    }

    /// A handle to the registered layer of type `T`, which must be there.
    pub fn get_unchecked<T: Send + Sync + 'static>(&self) -> (handle: Layer<T>)
        requires
            self.has::<T>(),
        ensures
            self.wf(),
            self.cell::<T>() == Some(handle.cell()),
    {
        match self.get::<T>() {
            Some(handle) => handle,
            None => vstd::pervasive::unreached(),
        }
    }

    /// Takes the layer of type `T` out of the registry, if there is one, and
    /// returns a handle to it; the other layers keep their order.
    pub fn remove<T: Send + Sync + 'static>(&mut self) -> (removed: Option<Layer<T>>)
        ensures
            final(self).wf(),
            final(self)@ == without_type(old(self)@, type_key::<T>()),
            !final(self).has::<T>(),
            match removed {
                Some(handle) => old(self).cell::<T>() == Some(handle.cell()),
                None => !old(self).has::<T>(),
            },
    {
        proof {
            use_type_invariant(&*self);
            use_type_invariant(&self.layers);
            self.lemma_view();
        }
        let key = type_id_of::<T>();
        let mut layers = TypeMap::new();
        std::mem::swap(&mut layers, &mut self.layers);
        let removed = layers.remove(&key);
        proof {
            lemma_key_index(old(self).layers@, key);
            lemma_keyed(layers@);
            law_removed_is_gone(old(self)@, key);
        }
        self.layers = layers;
        proof {
            use_type_invariant(&self.layers);
            self.lemma_view();
        }
        match removed {
            None => None,
            Some(any) => match Layer::<T>::try_from(&any) {
                Ok(handle) => Some(handle),
                // The entry stood under the identity of `T`, so it holds a
                // cell of `T`.
                Err(_) => {
                    assert(false);
                    None
                },
            },
        }
    }

    /// Hands `event` to every registered layer, oldest first, and returns the
    /// queue into which they have written their reactions. What a layer
    /// writes is its own affair: the queue is what the layers, each handed
    /// `event` and what the layers before it have left, can leave of an empty
    /// queue. With no layer it is empty.
    ///
    /// The pass stops at the first layer whose lock is found poisoned: that
    /// layer and those after it are not called, and the failure comes back
    /// in place of a queue.
    pub fn fan_out(&self, event: &E) -> (outcome: Result<EventQueue<E>, LockPoisoned>)
        ensures
            self.wf(),
            match outcome {
                Ok(queue) => fans_out(self@, *event, Seq::empty(), queue@),
                Err(_) => exists|at: int| #[trigger] fan_out_stops(self@, *event, at),
            },
            self@.len() == 0 ==> (outcome matches Ok(queue) && queue@ == Seq::<E>::empty()),
    {
        proof {
            use_type_invariant(self);
            use_type_invariant(&self.layers);
            self.lemma_view();
        }
        let mut queue = EventQueue::new();
        let count = self.layers.len();
        let mut i: usize = 0;
        while i < count
            invariant
                self.wf(),
                i <= count,
                count == self.layers@.len(),
                count == self@.len(),
                fans_out(self@.take(i as int), *event, Seq::empty(), queue@),
            decreases count - i,
        {
            let ghost before = queue@;
            match self.layers.nth(i) {
                Some(layer) => {
                    match layer.notify(event, queue) {
                        Ok(answered) => {
                            queue = answered;
                        },
                        Err(failure) => {
                            assert(fan_out_stops(self@, *event, i as int));
                            return Err(failure);
                        },
                    }
                },
                None => {},
            }
            proof {
                let head = self@.take(i + 1);
                assert(head.drop_last() =~= self@.take(i as int));
                assert(head.last().reacts(*event, before, queue@));
            }
            i += 1;
        }
        assert(self@.take(count as int) =~= self@);
        Ok(queue)
    }

    /// Hands `event` to every registered layer, oldest first, and returns the
    /// queue into which they have written their reactions, or the failure of
    /// the first layer whose lock is found poisoned. The registry itself
    /// stays as it is.
    pub fn dispatch(&mut self, event: E) -> (outcome: Result<EventQueue<E>, LockPoisoned>)
        ensures
            final(self)@ == old(self)@,
            final(self).wf(),
            match outcome {
                Ok(queue) => fans_out(old(self)@, event, Seq::empty(), queue@),
                Err(_) => exists|at: int| #[trigger] fan_out_stops(old(self)@, event, at),
            },
            old(self)@.len() == 0 ==> (outcome matches Ok(queue) && queue@ == Seq::<E>::empty()),
    {
        self.fan_out(&event)
    }
}

impl<E: Send + Sync> Default for LayerReg<E> {
    fn default() -> (reg: Self)
        ensures
            reg@ == Seq::<AnyLayer<E>>::empty(),
            reg.wf(),
    {
        LayerReg::new()
    }
}

/// A layer that goes to the end of `layers`, where none of its type was, is
/// then the layer of its type.
proof fn lemma_last_of_type<E: Send + Sync, T>(layers: Seq<AnyLayer<E>>, layer: AnyLayer<E>)
    requires
        !has_type(layers, type_key::<T>()),
        layer.key() == type_key::<T>(),
    ensures
        has_type(layers.push(layer), type_key::<T>()),
        type_index(layers.push(layer), type_key::<T>()) == layers.len(),
        cell_of::<E, T>(layers.push(layer)) == layer.handle::<T>(),
{
    let key = type_key::<T>();
    let after = layers.push(layer);
    lemma_key_index(by_type(layers), key);
    lemma_key_index(by_type(after), key);
    assert(by_type(after)[layers.len() as int].0 == key);
    let at = key_index(by_type(after), key);
    if at < layers.len() {
        assert(by_type(layers)[at].0 == by_type(after)[at].0);
    }
}

/// Where `key` is found in `layers`: at the one position before which no
/// layer has it.
proof fn lemma_found_at<E: Send + Sync>(layers: Seq<AnyLayer<E>>, key: TypeId, at: int)
    requires
        0 <= at < layers.len(),
        layers[at].key() == key,
        forall|i: int| 0 <= i < at ==> (#[trigger] layers[i]).key() != key,
    ensures
        has_type(layers, key),
        type_index(layers, key) == at,
{
    lemma_key_index(by_type(layers), key);
    assert(by_type(layers)[at].0 == key);
    let found = key_index(by_type(layers), key);
    if found < at {
        assert(by_type(layers)[found].0 == layers[found].key());
    }
}

/// What `type_index` and `has_type` say, in terms of the layers themselves.
proof fn lemma_type_index<E: Send + Sync>(layers: Seq<AnyLayer<E>>, key: TypeId)
    ensures
        0 <= type_index(layers, key) <= layers.len(),
        forall|i: int| 0 <= i < type_index(layers, key) ==> (#[trigger] layers[i]).key() != key,
        has_type(layers, key) <==> type_index(layers, key) < layers.len(),
        has_type(layers, key) ==> layers[type_index(layers, key)].key() == key,
        !has_type(layers, key) ==> forall|i: int|
            0 <= i < layers.len() ==> (#[trigger] layers[i]).key() != key,
{
    lemma_key_index(by_type(layers), key);
    let at = type_index(layers, key);
    assert forall|i: int| 0 <= i < at implies (#[trigger] layers[i]).key() != key by {
        assert(by_type(layers)[i].0 == layers[i].key());
    }
    if has_type(layers, key) {
        assert(by_type(layers)[at].0 == layers[at].key());
    }
}

/// A layer of a type that was not registered is, once it is registered, the
/// layer that a lookup by its type finds: the handle that comes back is a
/// handle to the very cell that went in.
pub proof fn law_insert_then_get<E: Send + Sync, T>(layers: Seq<AnyLayer<E>>, layer: AnyLayer<E>)
    requires
        !has_type(layers, type_key::<T>()),
        layer.key() == type_key::<T>(),
    ensures
        has_type(with_layer(layers, layer), type_key::<T>()),
        cell_of::<E, T>(with_layer(layers, layer)) == layer.handle::<T>(),
{
    lemma_last_of_type::<E, T>(layers, layer);
}

/// A second layer of a type that is registered changes nothing: the registry
/// stays as it is, and a lookup by that type still finds the first layer.
pub proof fn law_insert_once<E: Send + Sync, T>(
    layers: Seq<AnyLayer<E>>,
    first: AnyLayer<E>,
    second: AnyLayer<E>,
)
    requires
        !has_type(layers, type_key::<T>()),
        first.key() == type_key::<T>(),
        second.key() == type_key::<T>(),
    ensures
        with_layer(with_layer(layers, first), second) == with_layer(layers, first),
        cell_of::<E, T>(with_layer(with_layer(layers, first), second)) == first.handle::<T>(),
{
    lemma_last_of_type::<E, T>(layers, first);
}

/// Registering a layer leaves the layers of all other types where they were:
/// a lookup by another type finds what it found before.
pub proof fn law_insert_keeps_others<E: Send + Sync, T>(
    layers: Seq<AnyLayer<E>>,
    layer: AnyLayer<E>,
)
    requires
        layer.key() != type_key::<T>(),
    ensures
        has_type(with_layer(layers, layer), type_key::<T>()) == has_type(layers, type_key::<T>()),
        cell_of::<E, T>(with_layer(layers, layer)) == cell_of::<E, T>(layers),
{
    let key = type_key::<T>();
    let after = with_layer(layers, layer);
    lemma_type_index(layers, key);
    lemma_type_index(after, key);
    if after != layers {
        let at = type_index(layers, key);
        if has_type(layers, key) {
            assert(after[at] == layers[at]);
            assert forall|i: int| 0 <= i < at implies (#[trigger] after[i]).key() != key by {
                assert(after[i] == layers[i]);
            }
            lemma_found_at(after, key, at);
        } else if has_type(after, key) {
            let found = type_index(after, key);
            if found < layers.len() {
                assert(after[found] == layers[found]);
            }
        }
    }
}

/// Offering a layer keeps the rule that no two layers are of one type.
pub proof fn law_insert_keeps_distinct<E: Send + Sync>(
    layers: Seq<AnyLayer<E>>,
    layer: AnyLayer<E>,
)
    requires
        distinct_types(layers),
    ensures
        distinct_types(with_layer(layers, layer)),
{
    let after = with_layer(layers, layer);
    lemma_type_index(layers, layer.key());
    assert forall|i: int, j: int| 0 <= i < j < after.len() implies (#[trigger] after[i]).key()
        != (#[trigger] after[j]).key() by {
        assert(after[i] == layers[i]);
        if j < layers.len() {
            assert(after[j] == layers[j]);
        }
    }
}

/// Removing a type that is not registered changes nothing.
pub proof fn law_remove_absent<E: Send + Sync>(layers: Seq<AnyLayer<E>>, key: TypeId)
    requires
        !has_type(layers, key),
    ensures
        without_type(layers, key) == layers,
{
}

/// Once the layer of a type is removed, no layer of that type is registered.
pub proof fn law_removed_is_gone<E: Send + Sync>(layers: Seq<AnyLayer<E>>, key: TypeId)
    requires
        distinct_types(layers),
    ensures
        !has_type(without_type(layers, key), key),
        distinct_types(without_type(layers, key)),
{
    let after = without_type(layers, key);
    lemma_type_index(layers, key);
    lemma_type_index(after, key);
    if has_type(layers, key) {
        let at = type_index(layers, key);
        assert forall|i: int, j: int| 0 <= i < j < after.len() implies (#[trigger] after[i]).key()
            != (#[trigger] after[j]).key() by {
            let a = if i < at { i } else { i + 1 };
            let b = if j < at { j } else { j + 1 };
            assert(after[i] == layers[a]);
            assert(after[j] == layers[b]);
        }
        if has_type(after, key) {
            let found = type_index(after, key);
            let origin = if found < at { found } else { found + 1 };
            assert(after[found] == layers[origin]);
            if origin < at {
                assert(layers[origin].key() != layers[at].key());
            } else {
                assert(layers[at].key() != layers[origin].key());
            }
        }
    }
}

/// Removing the layer of one type leaves the layers of all other types where
/// they were: a lookup by another type finds what it found before.
pub proof fn law_remove_keeps_others<E: Send + Sync, T>(layers: Seq<AnyLayer<E>>, key: TypeId)
    requires
        key != type_key::<T>(),
    ensures
        has_type(without_type(layers, key), type_key::<T>()) == has_type(layers, type_key::<T>()),
        cell_of::<E, T>(without_type(layers, key)) == cell_of::<E, T>(layers),
{
    let other = type_key::<T>();
    let after = without_type(layers, key);
    lemma_type_index(layers, key);
    lemma_type_index(layers, other);
    lemma_type_index(after, other);
    if has_type(layers, key) {
        let at = type_index(layers, key);
        if has_type(layers, other) {
            let was = type_index(layers, other);
            let now = if was < at { was } else { was - 1 };
            assert(after[now] == layers[was]);
            assert forall|i: int| 0 <= i < now implies (#[trigger] after[i]).key() != other by {
                let origin = if i < at { i } else { i + 1 };
                assert(after[i] == layers[origin]);
            }
            lemma_found_at(after, other, now);
        } else if has_type(after, other) {
            let found = type_index(after, other);
            let origin = if found < at { found } else { found + 1 };
            assert(after[found] == layers[origin]);
        }
    }
}

} // verus!
