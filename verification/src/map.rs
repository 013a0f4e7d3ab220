//! Dense array maps: a total mapping from a finite key type to values, one
//! slot per possible key, indexed through the key's bijection.

use crate::Finite;
use crate::compress::{Compress, CompressFinite};
use vstd::prelude::*;

verus! {

/// A complete mapping from keys of type `K` to values of type `V`: a flat
/// store with one slot per possible key, slot `i` belonging to the key at
/// index `i`. The map is created fully populated; there is no notion of a
/// missing entry.
pub struct ArrayMap<K: Finite, V> {
    slots: Vec<V>,
    keys: core::marker::PhantomData<K>,
}

impl<K: Finite, V> View for ArrayMap<K, V> {
    type V = Seq<V>;

    /// The payloads, in ascending order of their keys' indices.
    closed spec fn view(&self) -> Seq<V> {
        self.slots@
    }
}

impl<K: Finite, V> ArrayMap<K, V> {
    /// Every reachable map has one slot per possible key.
    #[verifier::type_invariant]
    pub open spec fn inv(self) -> bool {
        self.view().len() == K::spec_count()
    }

    /// Constructs a new [`ArrayMap`] whose initial values are drawn by
    /// invoking the given function once for every key, in ascending index
    /// order.
    pub fn new<F: Fn(K) -> V>(f: F) -> (r: Self)
        requires
            K::wf(),
            forall|k: K| k.valid() ==> call_requires(f, (k,)),
        ensures
            r@.len() == K::spec_count(),
            forall|i: nat|
                i < K::spec_count() ==> call_ensures(f, (K::spec_nth(i),), #[trigger] r@[i as int]),
    {
        let c = K::count();
        let mut slots: Vec<V> = Vec::new();
        let mut i: usize = 0;
        while i < c
            invariant
                K::wf(),
                c == K::spec_count(),
                i <= c,
                slots@.len() == i,
                forall|k: K| k.valid() ==> call_requires(f, (k,)),
                forall|j: nat|
                    j < i ==> call_ensures(f, (K::spec_nth(j),), #[trigger] slots@[j as int]),
            decreases c - i,
        {
            proof {
                K::lemma_nth_valid(i as nat);
            }
            let k = K::nth(i).unwrap();
            slots.push(f(k));
            i = i + 1;
        }
        ArrayMap { slots, keys: core::marker::PhantomData }
    }

    /// Constructs a new [`ArrayMap`] from a row of values, each belonging to
    /// the key whose index is its position.
    pub fn from(values: Vec<V>) -> (r: Self)
        requires
            values@.len() == K::spec_count(),
        ensures
            r@ == values@,
    {
        ArrayMap { slots: values, keys: core::marker::PhantomData }
    }

    /// Reads the payload of the given key. The lookup is total: every key of
    /// the type has a slot.
    pub fn get(&self, key: K) -> (r: &V)
        requires
            K::wf(),
            key.valid(),
        ensures
            *r == self@[key.spec_index_of() as int],
    {
        proof {
            use_type_invariant(self);
            K::lemma_index_in_range(key);
        }
        let i = K::index_of(key);
        &self.slots[i]
    }

    /// Replaces the payload of the given key, leaving every other slot
    /// unchanged.
    pub fn set(&mut self, key: K, value: V)
        requires
            K::wf(),
            key.valid(),
        ensures
            final(self)@ == old(self)@.update(key.spec_index_of() as int, value),
    {
        proof {
            use_type_invariant(&*self);
            K::lemma_index_in_range(key);
        }
        let i = K::index_of(key);
        self.slots[i] = value;
    }

    /// Applies a mapping function to the payloads, with the key at hand,
    /// keeping the map total. The function need only accept the payloads the
    /// map actually holds, each beside its own key.
    pub fn map_with_key<N, F: Fn(K, &V) -> N>(&self, f: F) -> (r: ArrayMap<K, N>)
        requires
            K::wf(),
            forall|i: int|
                0 <= i < self@.len() ==> call_requires(f, (K::spec_nth(i as nat), &self@[i])),
        ensures
            r@.len() == K::spec_count(),
            forall|i: nat|
                i < K::spec_count() ==> call_ensures(
                    f,
                    (K::spec_nth(i), &self@[i as int]),
                    #[trigger] r@[i as int],
                ),
    {
        proof {
            use_type_invariant(self);
        }
        let c = K::count();
        let mut slots: Vec<N> = Vec::new();
        let mut i: usize = 0;
        while i < c
            invariant
                K::wf(),
                c == K::spec_count(),
                self@.len() == K::spec_count(),
                i <= c,
                slots@.len() == i,
                forall|j: int|
                    0 <= j < self@.len() ==> call_requires(f, (K::spec_nth(j as nat), &self@[j])),
                forall|j: nat|
                    j < i ==> call_ensures(
                        f,
                        (K::spec_nth(j), &self@[j as int]),
                        #[trigger] slots@[j as int],
                    ),
            decreases c - i,
        {
            proof {
                K::lemma_nth_valid(i as nat);
            }
            let k = K::nth(i).unwrap();
            slots.push(f(k, &self.slots[i]));
            i = i + 1;
        }
        ArrayMap { slots, keys: core::marker::PhantomData }
    }

    /// Applies a mapping function to the payloads, keeping the map total.
    /// The function need only accept the payloads the map actually holds.
    pub fn map<N, F: Fn(&V) -> N>(&self, f: F) -> (r: ArrayMap<K, N>)
        requires
            K::wf(),
            forall|i: int| 0 <= i < self@.len() ==> call_requires(f, (&self@[i],)),
        ensures
            r@.len() == K::spec_count(),
            forall|i: nat|
                i < K::spec_count() ==> call_ensures(f, (&self@[i as int],), #[trigger] r@[i as int]),
    {
        proof {
            use_type_invariant(self);
        }
        let c = K::count();
        let mut slots: Vec<N> = Vec::new();
        let mut i: usize = 0;
        while i < c
            invariant
                c == K::spec_count(),
                self@.len() == K::spec_count(),
                i <= c,
                slots@.len() == i,
                forall|j: int| 0 <= j < self@.len() ==> call_requires(f, (&self@[j],)),
                forall|j: nat|
                    j < i ==> call_ensures(f, (&self@[j as int],), #[trigger] slots@[j as int]),
            decreases c - i,
        {
            slots.push(f(&self.slots[i]));
            i = i + 1;
        }
        ArrayMap { slots, keys: core::marker::PhantomData }
    }
}

impl<K: CompressFinite, V> ArrayMap<K, V> {
    /// Reads the payload of a compressed key: the stored index already names
    /// the slot, so no expansion is needed, and the result equals a read with
    /// the expanded key.
    pub fn get_compressed(&self, key: Compress<K>) -> (r: &V)
        requires
            K::wf(),
        ensures
            *r == self@[key.spec_index() as int],
    {
        proof {
            use_type_invariant(self);
            use_type_invariant(&key);
        }
        let i = Compress::<K>::index_of(key);
        &self.slots[i]
    }

    /// Replaces the payload of a compressed key, leaving every other slot
    /// unchanged.
    pub fn set_compressed(&mut self, key: Compress<K>, value: V)
        requires
            K::wf(),
        ensures
            final(self)@ == old(self)@.update(key.spec_index() as int, value),
    {
        proof {
            use_type_invariant(&*self);
            use_type_invariant(&key);
        }
        let i = Compress::<K>::index_of(key);
        self.slots[i] = value;
    }
}

} // verus!
