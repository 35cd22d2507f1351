//! The persistent metadata cache: a fixed row of slots with a lookup map from
//! keys to slot indices.

use crate::util::cache::model::{
    empty_cache, entry_values, key_views, sifted, CacheError, CacheModel, SlotModel,
};
use crate::util::cache::store::{
    init_candidate, is_init_candidate, CacheParts, Retrieved, StoreFailure,
};
use crate::util::media::meta::MediaMeta;
use vstd::hash_map::StringHashMap;
use vstd::prelude::*;

verus! {

/// The number of slots of a cache made by `PersistentCache::new`.
pub const MAX_CACHE_SIZE: usize = 1200;

/// An occupied slot: the entry, and the key under which it was inserted.
struct Slot {
    key: String,
    entry: MediaMeta,
}

/// A key-addressed store of metadata entries with a fixed number of slots.
pub struct PersistentCache {
    cache_lookup: StringHashMap<usize>,
    last_inserted_index: usize,
    entries: Vec<Option<Slot>>,
}

spec fn slot_model(slot: Option<Slot>) -> Option<SlotModel> {
    match slot {
        Some(s) => Some(SlotModel { key: s.key@, entry: s.entry }),
        None => None,
    }
}

spec fn slots_model(entries: Seq<Option<Slot>>) -> Seq<Option<SlotModel>> {
    Seq::new(entries.len(), |i: int| slot_model(entries[i]))
}

impl View for PersistentCache {
    type V = CacheModel;

    closed spec fn view(&self) -> CacheModel {
        CacheModel {
            slots: slots_model(self.entries@),
            cursor: self.last_inserted_index as int,
        }
    }
}

impl PersistentCache {
    /// The lookup map names exactly the keys that sit in slots, each with its
    /// slot, and the model is well formed.
    pub closed spec fn wf(&self) -> bool {
        &&& self@.wf()
        &&& forall|k: Seq<char>| #[trigger]
            self.cache_lookup@.contains_key(k) ==> self@.holds(self.cache_lookup@[k] as int, k)
        &&& forall|i: int, k: Seq<char>| #[trigger]
            self@.holds(i, k) ==> self.cache_lookup@.contains_key(k)
    }

    /// A well-formed cache has a well-formed model.
    pub proof fn lemma_wf_model(&self)
        requires
            self.wf(),
        ensures
            self@.wf(),
    {
    }

    /// An empty cache with `MAX_CACHE_SIZE` slots.
    pub fn new() -> (r: Self)
        ensures
            r.wf(),
            r@ == empty_cache(MAX_CACHE_SIZE as int),
    {
        Self::with_capacity(MAX_CACHE_SIZE)
    }

    /// An empty cache with `capacity` slots.
    pub fn with_capacity(capacity: usize) -> (r: Self)
        ensures
            r.wf(),
            r@ == empty_cache(capacity as int),
    {
        let mut entries: Vec<Option<Slot>> = Vec::new();
        let mut i: usize = 0;
        while i < capacity
            invariant
                i <= capacity,
                entries.len() == i,
                forall|j: int| 0 <= j < i ==> (#[trigger] entries[j]) is None,
            decreases capacity - i,
        {
            entries.push(None);
            i += 1;
        }
        let r = PersistentCache {
            cache_lookup: StringHashMap::new(),
            last_inserted_index: 0,
            entries,
        };
        assert(r@.slots =~= empty_cache(capacity as int).slots);
        r
    }

    /// The number of slots.
    pub fn capacity(&self) -> (r: usize)
        ensures
            r == self@.capacity(),
    {
        self.entries.len()
    }

    /// The entry stored under `query`, if there is one.
    pub fn get(&self, query: &str) -> (r: Option<&MediaMeta>)
        requires
            self.wf(),
        ensures
            match r {
                Some(e) => self@.get(query@) == Some(*e),
                None => self@.get(query@) is None,
            },
    {
        match self.cache_lookup.get(query) {
            None => None,
            Some(index) => {
                let i = *index;
                assert(self@.holds(i as int, query@));
                assert(self@.holds(self@.slot_of(query@), query@));
                match &self.entries[i] {
                    Some(slot) => Some(&slot.entry),
                    None => None,
                }
            },
        }
    }

    /// Finds the slot for the next insertion: the first free one from the
    /// cursor on, wrapping to the start once.
    fn next_insertion_index(&self) -> (r: Option<usize>)
        requires
            self.wf(),
        ensures
            match r {
                Some(i) => self@.next_free() == Some(i as int) && i < self.entries.len(),
                None => self@.next_free() is None,
            },
    {
        let n = self.entries.len();
        let cursor = self.last_inserted_index;
        let mut d: usize = 0;
        while d < n
            invariant
                self.wf(),
                n == self.entries.len(),
                cursor == self.last_inserted_index,
                d <= n,
                self@.next_free() == self@.free_from(d as int),
            decreases n - d,
        {
            let i = if d < n - cursor {
                cursor + d
            } else {
                d - (n - cursor)
            };
            proof {
                self@.lemma_probe(d as int);
            }
            if self.entries[i].is_none() {
                return Some(i);
            }
            d += 1;
        }
        None
    }

    /// Stores `entry` under `key` in the next free slot. Fails, and changes
    /// nothing, if the key is present or no slot is free.
    pub fn insert(&mut self, key: &str, entry: MediaMeta) -> (r: Result<(), CacheError>)
        requires
            old(self).wf(),
        ensures
            final(self).wf(),
            r == old(self)@.insert_result(key@),
            final(self)@ == old(self)@.insert(key@, entry),
    {
        if self.cache_lookup.contains_key(key) {
            assert(self@.holds(self.cache_lookup@[key@] as int, key@));
            return Err(CacheError::DuplicateKey);
        }
        match self.next_insertion_index() {
            None => Err(CacheError::CacheFull),
            Some(i) => {
                let n = self.entries.len();
                proof {
                    self@.lemma_free_from_is_free(0);
                }
                self.entries[i] = Some(Slot { key: key.to_owned(), entry });
                self.cache_lookup.insert(key.to_owned(), i);
                self.last_inserted_index = if i + 1 == n {
                    0
                } else {
                    i + 1
                };
                proof {
                    let before = old(self)@;
                    let after = before.insert(key@, entry);
                    assert((i + 1) % (n as int) == self.last_inserted_index) by (nonlinear_arith)
                        requires
                            0 <= i < n,
                            self.last_inserted_index == (if i + 1 == n {
                                0
                            } else {
                                i + 1
                            }),
                    ;
                    assert(self@.slots =~= after.slots);
                    before.lemma_insert_holds(key@, entry);
                    assert forall|k: Seq<char>| #[trigger]
                        self.cache_lookup@.contains_key(k) implies self@.holds(
                        self.cache_lookup@[k] as int,
                        k,
                    ) by {
                        if k != key@ {
                            assert(before.holds(old(self).cache_lookup@[k] as int, k));
                        }
                    }
                    assert forall|j: int, k: Seq<char>| #[trigger]
                        self@.holds(j, k) implies self.cache_lookup@.contains_key(k) by {
                        if k != key@ {
                            assert(before.holds(j, k));
                        }
                    }
                }
                Ok(())
            },
        }
    }

    /// Takes the entry stored under `key` out of the cache and frees its
    /// slot. Changes nothing if the key is absent.
    pub fn remove(&mut self, key: &str) -> (r: Option<MediaMeta>)
        requires
            old(self).wf(),
        ensures
            final(self).wf(),
            r == old(self)@.get(key@),
            final(self)@ == old(self)@.remove(key@),
    {
        let found = match self.cache_lookup.get(key) {
            None => None,
            Some(index) => Some(*index),
        };
        match found {
            None => None,
            Some(i) => {
                proof {
                    assert(self@.holds(i as int, key@));
                    assert(self@.holds(self@.slot_of(key@), key@));
                }
                self.cache_lookup.remove(key);
                let taken = self.entries[i].take();
                proof {
                    let before = old(self)@;
                    assert(self@.slots =~= before.remove(key@).slots);
                    before.lemma_remove_holds(key@);
                    assert forall|k: Seq<char>| #[trigger]
                        self.cache_lookup@.contains_key(k) implies self@.holds(
                        self.cache_lookup@[k] as int,
                        k,
                    ) by {
                        assert(before.holds(old(self).cache_lookup@[k] as int, k));
                    }
                    assert forall|j: int, k: Seq<char>| #[trigger]
                        self@.holds(j, k) implies self.cache_lookup@.contains_key(k) by {
                        assert(before.holds(j, k));
                    }
                }
                match taken {
                    Some(slot) => Some(slot.entry),
                    None => None,
                }
            },
        }
    }

    /// Takes the cache apart for storing: its cursor, its entries slot by
    /// slot, and one lookup pair for each key, in the order of the slots.
    pub fn into_parts(self) -> (r: CacheParts)
        requires
            self.wf(),
        ensures
            r.describes(self@),
            r.is_sound(),
    {
        let ghost m = self@;
        let cursor = self.last_inserted_index;
        let mut slots = self.entries;
        let n = slots.len();
        let mut lookup: Vec<(String, usize)> = Vec::new();
        let mut entries: Vec<Option<MediaMeta>> = Vec::new();
        let mut i: usize = 0;
        while i < n
            invariant
                i <= n,
                n == slots.len(),
                n == m.slots.len(),
                m.wf(),
                entries.len() == i,
                forall|j: int| i <= j < n ==> slot_model(#[trigger] slots[j]) == m.slots[j],
                forall|j: int|
                    0 <= j < i ==> (#[trigger] entries[j]) == (match m.slots[j] {
                        Some(s) => Some(s.entry),
                        None => None,
                    }),
                forall|p: int|
                    0 <= p < lookup.len() ==> (#[trigger] lookup[p]).1 < i && m.holds(
                        lookup[p].1 as int,
                        lookup[p].0@,
                    ),
                forall|j: int, k: Seq<char>|
                    0 <= j < i && #[trigger] m.holds(j, k) ==> exists|p: int|
                        0 <= p < lookup.len() && (#[trigger] lookup[p]).0@ == k && lookup[p].1 == j,
                forall|a: int, b: int|
                    0 <= a < b < lookup.len() ==> (#[trigger] lookup[a]).0@ != (
                    #[trigger] lookup[b]).0@,
            decreases n - i,
        {
            let ghost lookup_before = lookup@;
            let taken = slots[i].take();
            match taken {
                Some(slot) => {
                    proof {
                        assert(m.holds(i as int, slot.key@));
                        assert forall|a: int| 0 <= a < lookup.len() implies (#[trigger] lookup[a]).0@
                            != slot.key@ by {
                            if lookup[a].0@ == slot.key@ {
                                assert(m.holds(lookup[a].1 as int, slot.key@));
                            }
                        }
                    }
                    lookup.push((slot.key, i));
                    entries.push(Some(slot.entry));
                    proof {
                        assert forall|j: int, k: Seq<char>|
                            0 <= j < i + 1 && #[trigger] m.holds(j, k) implies exists|p: int|
                            0 <= p < lookup.len() && (#[trigger] lookup[p]).0@ == k && lookup[p].1
                                == j by {
                            if j < i {
                                let p = choose|p: int|
                                    0 <= p < lookup_before.len() && (#[trigger] lookup_before[p]).0@
                                        == k && lookup_before[p].1 == j;
                                assert(lookup[p] == lookup_before[p]);
                            } else {
                                assert(lookup[lookup.len() - 1].0@ == k);
                            }
                        }
                    }
                },
                None => {
                    entries.push(None);
                },
            }
            i += 1;
        }
        let r = CacheParts { lookup, cursor, entries };
        proof {
            assert forall|a: int, k: Seq<char>| #[trigger] m.holds(a, k) implies exists|p: int|
                0 <= p < r.lookup.len() && (#[trigger] r.lookup[p]).0@ == k && r.lookup[p].1
                    == a by {
                let p = choose|p: int|
                    0 <= p < lookup.len() && (#[trigger] lookup[p]).0@ == k && lookup[p].1 == a;
                assert(r.lookup[p].0@ == k);
            }
            assert(r.describes(m));
        }
        r
    }

    /// Puts a cache together from its stored parts. Fails with
    /// `CorruptStore` exactly if the parts describe no well-formed cache: a
    /// cursor past the last slot, a lookup pair that names no occupied slot,
    /// two pairs with one key or one slot, or an entry that no pair names.
    pub fn from_parts(parts: CacheParts) -> (r: Result<PersistentCache, StoreFailure>)
        ensures
            match r {
                Ok(cache) => cache.wf() && parts.describes(cache@),
                Err(e) => e == StoreFailure::CorruptStore && !parts.is_sound(),
            },
    {
        let CacheParts { lookup, cursor, entries } = parts;
        let mut entries = entries;
        let n = entries.len();
        if cursor >= n && cursor != 0 {
            return Err(StoreFailure::CorruptStore);
        }
        let mut keys: Vec<Option<String>> = Vec::new();
        let mut i: usize = 0;
        while i < n
            invariant
                i <= n,
                keys.len() == i,
                forall|j: int| 0 <= j < i ==> (#[trigger] keys[j]) is None,
            decreases n - i,
        {
            keys.push(None);
            i += 1;
        }
        let mut cache_lookup: StringHashMap<usize> = StringHashMap::new();
        let mut j: usize = 0;
        while j < lookup.len()
            invariant
                j <= lookup.len(),
                parts == (CacheParts { lookup, cursor, entries }),
                n == entries.len(),
                keys.len() == n,
                forall|i: int|
                    0 <= i < n && (#[trigger] keys[i]) is Some ==> exists|p: int|
                        0 <= p < j && (#[trigger] lookup[p]).1 == i && lookup[p].0@ == keys[i]->0@,
                forall|p: int|
                    0 <= p < j ==> {
                        &&& (#[trigger] lookup[p]).1 < n
                        &&& entries[lookup[p].1 as int] is Some
                        &&& keys[lookup[p].1 as int] matches Some(k)
                        &&& k@ == lookup[p].0@
                        &&& cache_lookup@.contains_key(lookup[p].0@)
                        &&& cache_lookup@[lookup[p].0@] == lookup[p].1
                    },
                forall|k: Seq<char>| #[trigger]
                    cache_lookup@.contains_key(k) ==> exists|p: int|
                        0 <= p < j && (#[trigger] lookup[p]).0@ == k,
                forall|a: int, b: int|
                    0 <= a < b < j ==> (#[trigger] lookup[a]).0@ != (#[trigger] lookup[b]).0@,
            decreases lookup.len() - j,
        {
            let index = lookup[j].1;
            if index >= n {
                proof {
                    assert forall|m: CacheModel| m.wf() implies !parts.describes(m) by {
                        if parts.describes(m) {
                            assert(m.holds(parts.lookup[j as int].1 as int, parts.lookup[j as int].0@));
                        }
                    }
                }
                return Err(StoreFailure::CorruptStore);
            }
            if entries[index].is_none() {
                proof {
                    assert forall|m: CacheModel| m.wf() implies !parts.describes(m) by {
                        if parts.describes(m) {
                            assert(m.holds(parts.lookup[j as int].1 as int, parts.lookup[j as int].0@));
                            let _ = parts.entries[index as int];
                        }
                    }
                }
                return Err(StoreFailure::CorruptStore);
            }
            if keys[index].is_some() {
                proof {
                    let p = choose|p: int|
                        0 <= p < j && (#[trigger] lookup[p]).1 == index && lookup[p].0@
                            == keys[index as int]->0@;
                    assert forall|m: CacheModel| m.wf() implies !parts.describes(m) by {
                        if parts.describes(m) {
                            assert(m.holds(parts.lookup[j as int].1 as int, parts.lookup[j as int].0@));
                            assert(m.holds(parts.lookup[p].1 as int, parts.lookup[p].0@));
                            assert(parts.lookup[p].0@ != parts.lookup[j as int].0@);
                        }
                    }
                }
                return Err(StoreFailure::CorruptStore);
            }
            if cache_lookup.contains_key(lookup[j].0.as_str()) {
                proof {
                    let p = choose|p: int|
                        0 <= p < j && (#[trigger] lookup[p]).0@ == lookup[j as int].0@;
                    assert forall|m: CacheModel| m.wf() implies !parts.describes(m) by {
                        if parts.describes(m) {
                            assert(parts.lookup[p].0@ != parts.lookup[j as int].0@);
                        }
                    }
                }
                return Err(StoreFailure::CorruptStore);
            }
            cache_lookup.insert(lookup[j].0.clone(), index);
            keys[index] = Some(lookup[j].0.clone());
            j += 1;
        }
        let ghost keys0 = keys@;
        let ghost entries0 = entries@;
        let mut slots: Vec<Option<Slot>> = Vec::new();
        let mut i: usize = 0;
        while i < n
            invariant
                i <= n,
                n == entries.len(),
                n == keys.len(),
                n == keys0.len(),
                n == entries0.len(),
                slots.len() == i,
                parts.lookup == lookup,
                parts.cursor == cursor,
                parts.entries@ == entries0,
                forall|a: int| i <= a < n ==> #[trigger] entries[a] == entries0[a],
                forall|a: int| i <= a < n ==> #[trigger] keys[a] == keys0[a],
                forall|a: int|
                    0 <= a < i ==> (#[trigger] slots[a]) == (match entries0[a] {
                        Some(e) => Some(Slot { key: keys0[a]->0, entry: e }),
                        None => None,
                    }),
                forall|a: int| 0 <= a < i ==> ((#[trigger] entries0[a]) is Some <==> keys0[a] is Some),
                forall|a: int|
                    0 <= a < n && (#[trigger] keys0[a]) is Some ==> exists|p: int|
                        0 <= p < lookup.len() && (#[trigger] lookup[p]).1 == a && lookup[p].0@
                            == keys0[a]->0@,
                forall|p: int|
                    0 <= p < lookup.len() ==> {
                        &&& (#[trigger] lookup[p]).1 < n
                        &&& entries0[lookup[p].1 as int] is Some
                        &&& keys0[lookup[p].1 as int] matches Some(k)
                        &&& k@ == lookup[p].0@
                    },
            decreases n - i,
        {
            let entry = entries[i].take();
            let key = keys[i].take();
            match entry {
                Some(e) => match key {
                    Some(k) => {
                        slots.push(Some(Slot { key: k, entry: e }));
                    },
                    None => {
                        proof {
                            assert forall|m: CacheModel| m.wf() implies !parts.describes(m) by {
                                if parts.describes(m) {
                                    let _ = parts.entries[i as int];
                                    let k = m.slots[i as int]->0.key;
                                    assert(m.holds(i as int, k));
                                    let p = choose|p: int|
                                        0 <= p < parts.lookup.len() && (
                                        #[trigger] parts.lookup[p]).0@ == k && parts.lookup[p].1
                                            == i;
                                    assert(keys0[lookup[p].1 as int] is Some);
                                }
                            }
                        }
                        return Err(StoreFailure::CorruptStore);
                    },
                },
                None => {
                    proof {
                        if keys0[i as int] is Some {
                            let p = choose|p: int|
                                0 <= p < lookup.len() && (#[trigger] lookup[p]).1 == i
                                    && lookup[p].0@ == keys0[i as int]->0@;
                            assert(entries0[lookup[p].1 as int] is Some);
                        }
                    }
                    slots.push(None);
                },
            }
            i += 1;
        }
        let cache = PersistentCache { cache_lookup, last_inserted_index: cursor, entries: slots };
        proof {
            let m = cache@;
            assert forall|a: int, k: Seq<char>| #[trigger] m.holds(a, k) implies exists|p: int|
                0 <= p < parts.lookup.len() && (#[trigger] parts.lookup[p]).0@ == k
                    && parts.lookup[p].1 == a by {
                assert(keys0[a] is Some);
                let p = choose|p: int|
                    0 <= p < lookup.len() && (#[trigger] lookup[p]).1 == a && lookup[p].0@
                        == keys0[a]->0@;
                assert(parts.lookup[p].0@ == k);
            }
            assert forall|a: int|
                0 <= a < parts.entries.len() implies (#[trigger] parts.entries[a]) == (match m.slots[a] {
                Some(s) => Some(s.entry),
                None => None,
            }) by {
                let _ = slots[a];
            }
            assert forall|p: int| 0 <= p < parts.lookup.len() implies m.holds(
                (#[trigger] parts.lookup[p]).1 as int,
                parts.lookup[p].0@,
            ) by {
                let _ = slots[lookup[p].1 as int];
            }
            assert(parts.describes(m));
            assert forall|a: int, b: int, k: Seq<char>| m.holds(a, k) && m.holds(b, k) implies a
                == b by {
                let _ = slots[a];
                let _ = slots[b];
                let pa = choose|p: int|
                    0 <= p < lookup.len() && (#[trigger] lookup[p]).1 == a && lookup[p].0@
                        == keys0[a]->0@;
                let pb = choose|p: int|
                    0 <= p < lookup.len() && (#[trigger] lookup[p]).1 == b && lookup[p].0@
                        == keys0[b]->0@;
                if pa < pb {
                    assert(lookup[pa].0@ != lookup[pb].0@);
                } else if pb < pa {
                    assert(lookup[pb].0@ != lookup[pa].0@);
                }
            }
            assert forall|k: Seq<char>| #[trigger]
                cache.cache_lookup@.contains_key(k) implies m.holds(
                cache.cache_lookup@[k] as int,
                k,
            ) by {
                let p = choose|p: int| 0 <= p < lookup.len() && (#[trigger] lookup[p]).0@ == k;
                let _ = slots[lookup[p].1 as int];
            }
            assert forall|a: int, k: Seq<char>| #[trigger]
                m.holds(a, k) implies cache.cache_lookup@.contains_key(k) by {
                let p = choose|p: int|
                    0 <= p < parts.lookup.len() && (#[trigger] parts.lookup[p]).0@ == k
                        && parts.lookup[p].1 == a;
                assert(cache_lookup@.contains_key(lookup[p].0@));
            }
        }
        Ok(cache)
    }

    /// Keeps the entries for which `functor` answers true and removes the
    /// others, freeing their slots.
    pub fn retain<F: Fn(&str, Option<&MediaMeta>) -> bool>(&mut self, functor: F)
        requires
            old(self).wf(),
            forall|k: &str, e: Option<&MediaMeta>| call_requires(functor, (k, e)),
        ensures
            final(self).wf(),
            sifted(old(self)@, final(self)@, functor),
    {
        let n = self.entries.len();
        let mut i: usize = 0;
        while i < n
            invariant
                self.wf(),
                i <= n,
                n == self.entries.len(),
                n == old(self).entries.len(),
                self.last_inserted_index == old(self).last_inserted_index,
                forall|k: &str, e: Option<&MediaMeta>| call_requires(functor, (k, e)),
                forall|j: int| i <= j < n ==> self.entries[j] == old(self).entries[j],
                forall|j: int|
                    0 <= j < i ==> match #[trigger] old(self)@.slots[j] {
                        None => self@.slots[j] is None,
                        Some(s) => {
                            ||| self@.slots[j] == Some(s) && crate::util::cache::model::verdict(
                                functor,
                                s.key,
                                s.entry,
                                true,
                            )
                            ||| self@.slots[j] is None && crate::util::cache::model::verdict(
                                functor,
                                s.key,
                                s.entry,
                                false,
                            )
                        },
                    },
            decreases n - i,
        {
            let ghost before = self@;
            let ghost lookup_before = self.cache_lookup@;
            let keep = match &self.entries[i] {
                Some(slot) => functor(slot.key.as_str(), Some(&slot.entry)),
                None => true,
            };
            if !keep {
                let taken = self.entries[i].take();
                if let Some(slot) = taken {
                    self.cache_lookup.remove(slot.key.as_str());
                    proof {
                        let key = slot.key@;
                        assert(before.holds(i as int, key));
                        assert(before.slot_of(key) == i) by {
                            assert(before.holds(before.slot_of(key), key));
                        }
                        assert(self@.slots =~= before.remove(key).slots);
                        before.lemma_remove_holds(key);
                        assert forall|k: Seq<char>| #[trigger]
                            self.cache_lookup@.contains_key(k) implies self@.holds(
                            self.cache_lookup@[k] as int,
                            k,
                        ) by {
                            assert(before.holds(lookup_before[k] as int, k));
                        }
                        assert forall|j: int, k: Seq<char>| #[trigger]
                            self@.holds(j, k) implies self.cache_lookup@.contains_key(k) by {
                            assert(before.holds(j, k));
                        }
                    }
                }
            }
            i += 1;
        }
    }

    /// The entries stored under the keys in `queries`: `None` if none of the
    /// keys is present, else the entries of the present keys, each once, in
    /// the order of their slots.
    pub fn batch_query(&self, queries: &[&str]) -> (r: Option<Vec<&MediaMeta>>)
        requires
            self.wf(),
        ensures
            match r {
                Some(found) => self@.batch_query(key_views(queries@)) == Some(
                    entry_values(found@),
                ),
                None => self@.batch_query(key_views(queries@)) is None,
            },
    {
        let ghost keys = key_views(queries@);
        let mut res_indexes: Vec<usize> = Vec::new();
        let mut q: usize = 0;
        while q < queries.len()
            invariant
                self.wf(),
                q <= queries.len(),
                keys == key_views(queries@),
                forall|j: int|
                    0 <= j < q && self@.contains(#[trigger] keys[j]) ==> res_indexes@.contains(
                        self.cache_lookup@[keys[j]],
                    ),
                forall|x: int|
                    0 <= x < res_indexes.len() ==> self@.hit(keys, #[trigger] res_indexes[x] as int),
            decreases queries.len() - q,
        {
            match self.cache_lookup.get(queries[q]) {
                Some(index) => {
                    let ghost prior = res_indexes@;
                    res_indexes.push(*index);
                    proof {
                        assert(keys[q as int] == queries[q as int]@);
                        assert(self@.holds(*index as int, keys[q as int]));
                        assert(res_indexes[res_indexes.len() - 1] == *index);
                        assert forall|j: int|
                            0 <= j < q + 1 && self@.contains(
                                #[trigger] keys[j],
                            ) implies res_indexes@.contains(self.cache_lookup@[keys[j]]) by {
                            if j < q {
                                let w = choose|w: int|
                                    0 <= w < prior.len() && prior[w] == self.cache_lookup@[keys[j]];
                                assert(res_indexes[w] == self.cache_lookup@[keys[j]]);
                            }
                        }
                    }
                },
                None => {
                    proof {
                        assert(keys[q as int] == queries[q as int]@);
                        assert(!self@.contains(keys[q as int])) by {
                            if self@.contains(keys[q as int]) {
                                let w = choose|w: int| self@.holds(w, keys[q as int]);
                                assert(self@.holds(w, keys[q as int]));
                            }
                        }
                    }
                },
            }
            q += 1;
        }
        if res_indexes.len() == 0 {
            proof {
                assert(!self@.any_present(keys)) by {
                    if self@.any_present(keys) {
                        let j = choose|j: int|
                            0 <= j < keys.len() && self@.contains(#[trigger] keys[j]);
                        assert(res_indexes@.contains(self.cache_lookup@[keys[j]]));
                    }
                }
            }
            return None;
        }
        proof {
            assert(self@.hit(keys, res_indexes[0] as int));
            let j = choose|j: int|
                0 <= j < keys.len() && self@.holds(res_indexes[0] as int, #[trigger] keys[j]);
            assert(self@.contains(keys[j]));
        }
        let n = self.entries.len();
        let mut batch_results: Vec<&MediaMeta> = Vec::new();
        let mut ix: usize = 0;
        while ix < n
            invariant
                self.wf(),
                ix <= n,
                n == self.entries.len(),
                keys == key_views(queries@),
                forall|j: int|
                    0 <= j < keys.len() && self@.contains(#[trigger] keys[j])
                        ==> res_indexes@.contains(self.cache_lookup@[keys[j]]),
                forall|x: int|
                    0 <= x < res_indexes.len() ==> self@.hit(keys, #[trigger] res_indexes[x] as int),
                entry_values(batch_results@) == self@.picked(keys, ix as int),
            decreases n - ix,
        {
            let wanted = contains_index(&res_indexes, ix);
            proof {
                if self@.hit(keys, ix as int) {
                    let j = choose|j: int|
                        0 <= j < keys.len() && self@.holds(ix as int, #[trigger] keys[j]);
                    assert(self@.contains(keys[j]));
                    assert(self@.holds(self.cache_lookup@[keys[j]] as int, keys[j]));
                    assert(wanted);
                }
                if wanted {
                    let x = choose|x: int| 0 <= x < res_indexes.len() && res_indexes[x] == ix;
                    assert(self@.hit(keys, res_indexes[x] as int));
                }
            }
            if wanted {
                match &self.entries[ix] {
                    Some(slot) => {
                        let ghost prior = batch_results@;
                        batch_results.push(&slot.entry);
                        assert(entry_values(batch_results@) =~= entry_values(prior).push(
                            slot.entry,
                        ));
                    },
                    None => {},
                }
            }
            ix += 1;
        }
        Some(batch_results)
    }
}

/// What became of an attempt to decode a stored cache: the stored cache
/// where its parts are sound; a fresh cache, still to be written, where the
/// decoder met a failure after which a store counts as not made yet; the
/// failure in every other case, `CorruptStore` for parts that are not sound.
pub fn retrieve_or_init_cache(
    decoded: Result<CacheParts, StoreFailure>,
) -> (r: Result<Retrieved<PersistentCache>, StoreFailure>)
    ensures
        match decoded {
            Ok(parts) => if parts.is_sound() {
                r matches Ok(Retrieved::Stored(cache)) && cache.wf() && parts.describes(cache@)
            } else {
                r matches Err(e) && e == StoreFailure::CorruptStore
            },
            Err(failure) => if init_candidate(failure) {
                r matches Ok(Retrieved::Fresh(cache)) && cache.wf() && cache@ == empty_cache(
                    MAX_CACHE_SIZE as int,
                )
            } else {
                r matches Err(e) && e == failure
            },
        },
{
    match decoded {
        Ok(parts) => match PersistentCache::from_parts(parts) {
            Ok(cache) => {
                proof {
                    cache.lemma_wf_model();
                }
                Ok(Retrieved::Stored(cache))
            },
            Err(e) => Err(e),
        },
        Err(failure) => if is_init_candidate(&failure) {
            Ok(Retrieved::Fresh(PersistentCache::new()))
        } else {
            Err(failure)
        },
    }
}

/// A cache survives storing: the parts that `into_parts` gives are accepted
/// by `from_parts`, and the cache that comes back has the same slots, the
/// same cursor and the same entries under the same keys.
pub proof fn lemma_store_round_trip(
    cache: PersistentCache,
    parts: CacheParts,
    loaded: Result<PersistentCache, StoreFailure>,
)
    requires
        cache.wf(),
        parts.describes(cache@),
        match loaded {
            Ok(back) => back.wf() && parts.describes(back@),
            Err(e) => !parts.is_sound(),
        },
    ensures
        loaded matches Ok(back) && back@ == cache@ && back@.entries() == cache@.entries(),
{
    cache.lemma_wf_model();
    match loaded {
        Ok(back) => {
            parts.lemma_describes_one(cache@, back@);
        },
        Err(e) => {},
    }
}

/// Whether `x` occurs in `indexes`.
fn contains_index(indexes: &Vec<usize>, x: usize) -> (r: bool)
    ensures
        r == indexes@.contains(x),
{
    let mut i: usize = 0;
    while i < indexes.len()
        invariant
            i <= indexes.len(),
            forall|j: int| 0 <= j < i ==> indexes[j] != x,
        decreases indexes.len() - i,
    {
        if indexes[i] == x {
            return true;
        }
        i += 1;
    }
    false
}

impl Default for PersistentCache {
    fn default() -> (r: Self)
        ensures
            r.wf(),
            r@ == empty_cache(MAX_CACHE_SIZE as int),
    {
        Self::new()
    }
}

} // verus!
