//! A small map keyed by type identity that keeps its entries in the order in
//! which they were inserted.
//!
//! It stands where a hash map would: Verus takes the calls of
//! `HashMap<TypeId, _>` but proves nothing of what they return, since it
//! knows nothing of how a `TypeId` is hashed and compared. Here the keys are
//! compared one by one, and what a lookup returns is proved.

use std::any::TypeId;
use vstd::prelude::*;

verus! {

/// One entry of a [`TypeMap`].
struct Slot<V> {
    key: TypeId,
    value: V,
}

/// A map from type identities to values. No key occurs twice, and the entries
/// stay in insertion order.
pub struct TypeMap<V> {
    slots: Vec<Slot<V>>,
}

/// No key occurs twice in `entries`.
pub open spec fn distinct_keys<V>(entries: Seq<(TypeId, V)>) -> bool {
    forall|i: int, j: int|
        0 <= i < j < entries.len() ==> (#[trigger] entries[i]).0 != (#[trigger] entries[j]).0
}

/// Whether some entry of `entries` has the key `key`.
pub open spec fn has_key<V>(entries: Seq<(TypeId, V)>, key: TypeId) -> bool {
    exists|i: int| 0 <= i < entries.len() && (#[trigger] entries[i]).0 == key
}

/// The position of the first entry with the key `key`, or the length of
/// `entries` if there is none.
pub open spec fn key_index<V>(entries: Seq<(TypeId, V)>, key: TypeId) -> int
    decreases entries.len(),
{
    if entries.len() == 0 {
        0
    } else if entries[0].0 == key {
        0
    } else {
        1 + key_index(entries.subrange(1, entries.len() as int), key)
    }
}

/// `key_index` is a position in `entries`, or its length; before it no entry
/// has the key, and at it the entry has.
pub proof fn lemma_key_index<V>(entries: Seq<(TypeId, V)>, key: TypeId)
    ensures
        0 <= key_index(entries, key) <= entries.len(),
        forall|i: int| 0 <= i < key_index(entries, key) ==> (#[trigger] entries[i]).0 != key,
        key_index(entries, key) < entries.len() ==> entries[key_index(entries, key)].0 == key,
        key_index(entries, key) < entries.len() <==> has_key(entries, key),
    decreases entries.len(),
{
    if entries.len() == 0 {
    } else if entries[0].0 == key {
        assert(has_key(entries, key));
    } else {
        let rest = entries.subrange(1, entries.len() as int);
        lemma_key_index(rest, key);
        let at = key_index(rest, key);
        assert forall|i: int| 0 <= i < 1 + at implies (#[trigger] entries[i]).0 != key by {
            if i > 0 {
                assert(rest[i - 1] == entries[i]);
            }
        }
        if at < rest.len() {
            assert(rest[at] == entries[at + 1]);
            assert(has_key(entries, key));
        } else {
            if has_key(entries, key) {
                let i = choose|i: int| 0 <= i < entries.len() && (#[trigger] entries[i]).0 == key;
                assert(rest[i - 1] == entries[i]);
                assert(has_key(rest, key));
            }
        }
    }
}

/// The entries that `slots` stand for.
spec fn entries_of<V>(slots: Seq<Slot<V>>) -> Seq<(TypeId, V)> {
    Seq::new(slots.len(), |i: int| (slots[i].key, slots[i].value))
}

impl<V> View for TypeMap<V> {
    type V = Seq<(TypeId, V)>;

    /// The entries, oldest first.
    closed spec fn view(&self) -> Seq<(TypeId, V)> {
        entries_of(self.slots@)
    }
}

impl<V> TypeMap<V> {
    /// No key occurs twice.
    #[verifier::type_invariant]
    pub open spec fn wf(&self) -> bool {
        distinct_keys(self@)
    }

    /// An empty map.
    pub fn new() -> (map: Self)
        ensures
            map@ == Seq::<(TypeId, V)>::empty(),
            map.wf(),
    {
        TypeMap { slots: Vec::new() }
    }

    /// The number of entries.
    pub fn len(&self) -> (len: usize)
        ensures
            len == self@.len(),
    {
        self.slots.len()
    }

    /// The position of the entry with the key `key`, or the number of entries
    /// if there is none.
    pub fn index_of(&self, key: &TypeId) -> (at: usize)
        ensures
            at == key_index(self@, *key),
            at <= self@.len(),
            at < self@.len() <==> has_key(self@, *key),
    {
        proof {
            lemma_key_index(self@, *key);
        }
        let mut i: usize = 0;
        while i < self.slots.len()
            invariant
                i <= self.slots@.len(),
                self@.len() == self.slots@.len(),
                forall|j: int| 0 <= j < i ==> (#[trigger] self@[j]).0 != *key,
                0 <= key_index(self@, *key) <= self@.len(),
                forall|j: int| 0 <= j < key_index(self@, *key) ==> (#[trigger] self@[j]).0 != *key,
                key_index(self@, *key) < self@.len() ==> self@[key_index(self@, *key)].0 == *key,
            decreases self.slots@.len() - i,
        {
            if same_type(&self.slots[i].key, key) {
                assert(self@[i as int].0 == *key);
                return i;
            }
            i += 1;
        }
        i
    }

    /// Whether the map has an entry with the key `key`.
    pub fn contains_key(&self, key: &TypeId) -> (found: bool)
        ensures
            found == has_key(self@, *key),
    {
        self.index_of(key) < self.slots.len()
    }

    /// The value stored under `key`, if there is one.
    pub fn get(&self, key: &TypeId) -> (found: Option<&V>)
        ensures
            match found {
                Some(value) => has_key(self@, *key) && *value == self@[key_index(self@, *key)].1,
                None => !has_key(self@, *key),
            },
    {
        let at = self.index_of(key);
        if at < self.slots.len() {
            Some(&self.slots[at].value)
        } else {
            None
        }
    }

    /// The value of the entry at position `at`, oldest first.
    pub fn nth(&self, at: usize) -> (found: Option<&V>)
        ensures
            match found {
                Some(value) => at < self@.len() && *value == self@[at as int].1,
                None => at >= self@.len(),
            },
    {
        if at < self.slots.len() {
            Some(&self.slots[at].value)
        } else {
            None
        }
    }

    /// Stores `value` under `key` unless the key is taken: then the map stays
    /// as it is and `value` comes back.
    pub fn insert_once(&mut self, key: TypeId, value: V) -> (rejected: Option<V>)
        ensures
            final(self).wf(),
            match rejected {
                Some(back) => has_key(old(self)@, key) && back == value && final(self)@ == old(self)@,
                None => !has_key(old(self)@, key) && final(self)@ == old(self)@.push((key, value)),
            },
    {
        proof {
            use_type_invariant(&*self);
        }
        if self.contains_key(&key) {
            return Some(value);
        }
        let ghost before = self@;
        let mut slots = Vec::new();
        std::mem::swap(&mut slots, &mut self.slots);
        slots.push(Slot { key, value });
        proof {
            let after = entries_of(slots@);
            assert(after =~= before.push((key, value)));
            assert forall|i: int, j: int| 0 <= i < j < after.len() implies (#[trigger] after[i]).0
                != (#[trigger] after[j]).0 by {
                assert(before[i] == after[i]);
                if j < before.len() {
                    assert(before[j] == after[j]);
                }
            }
        }
        self.slots = slots;
        None
    }

    /// Takes the entry with the key `key` out of the map, if there is one; the
    /// other entries keep their order.
    pub fn remove(&mut self, key: &TypeId) -> (removed: Option<V>)
        ensures
            final(self).wf(),
            match removed {
                Some(value) => has_key(old(self)@, *key) && value == old(self)@[key_index(
                    old(self)@,
                    *key,
                )].1 && final(self)@ == old(self)@.remove(key_index(old(self)@, *key)),
                None => !has_key(old(self)@, *key) && final(self)@ == old(self)@,
            },
    {
        proof {
            use_type_invariant(&*self);
        }
        let at = self.index_of(key);
        if at >= self.slots.len() {
            return None;
        }
        let ghost before = self@;
        let mut slots = Vec::new();
        std::mem::swap(&mut slots, &mut self.slots);
        let slot = slots.remove(at);
        proof {
            let after = entries_of(slots@);
            assert(after =~= before.remove(at as int));
            assert forall|i: int, j: int| 0 <= i < j < after.len() implies (#[trigger] after[i]).0
                != (#[trigger] after[j]).0 by {
                let a = if i < at { i } else { i + 1 };
                let b = if j < at { j } else { j + 1 };
                assert(before[a] == after[i]);
                assert(before[b] == after[j]);
            }
        }
        self.slots = slots;
        Some(slot.value)
    }
}

/// `==` on `TypeId`, believed and not proved: whether `a` and `b` are the
/// identity of one type.
#[verifier::external_body]
fn same_type(a: &TypeId, b: &TypeId) -> (same: bool)
    ensures
        same == (*a == *b),
{
    a == b
}

} // verus!
