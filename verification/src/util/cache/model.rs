//! The mathematical model of the slot cache: a fixed row of slots, each
//! empty or holding one key with its entry, and a cursor from which the next
//! free slot is searched.

use crate::util::media::meta::MediaMeta;
use vstd::prelude::*;

verus! {

/// Why an insertion was refused.
#[derive(Clone, Copy, Debug, PartialEq, Eq, Structural)]
pub enum CacheError {
    /// The key is already in the cache.
    DuplicateKey,
    /// No slot is free.
    CacheFull,
}

/// What an occupied slot holds.
pub struct SlotModel {
    pub key: Seq<char>,
    pub entry: MediaMeta,
}

/// The state of a slot cache.
pub struct CacheModel {
    /// One element per slot; `None` for a free slot.
    pub slots: Seq<Option<SlotModel>>,
    /// Where the search for a free slot starts.
    pub cursor: int,
}

impl CacheModel {
    /// The number of slots.
    pub open spec fn capacity(self) -> int {
        self.slots.len() as int
    }

    /// Slot `i` exists and holds `key`.
    pub open spec fn holds(self, i: int, key: Seq<char>) -> bool {
        &&& 0 <= i < self.slots.len()
        &&& self.slots[i] matches Some(s)
        &&& s.key == key
    }

    /// Some slot holds `key`.
    pub open spec fn contains(self, key: Seq<char>) -> bool {
        exists|i: int| self.holds(i, key)
    }

    /// The slot that holds `key`, for a key that the cache contains.
    pub open spec fn slot_of(self, key: Seq<char>) -> int {
        choose|i: int| self.holds(i, key)
    }

    /// The entry stored under `key`, if there is one.
    pub open spec fn get(self, key: Seq<char>) -> Option<MediaMeta> {
        if self.contains(key) {
            Some(self.slots[self.slot_of(key)]->0.entry)
        } else {
            None
        }
    }

    /// The cache as a map from keys to entries.
    pub open spec fn entries(self) -> Map<Seq<char>, MediaMeta> {
        Map::new(|k: Seq<char>| self.contains(k), |k: Seq<char>| self.get(k)->0)
    }

    /// The number of occupied slots among the first `n`.
    pub open spec fn occupied(self, n: int) -> int
        decreases n,
    {
        if n <= 0 || n > self.slots.len() {
            0
        } else {
            self.occupied(n - 1) + if self.slots[n - 1] is Some { 1int } else { 0int }
        }
    }

    /// The number of keys in the cache.
    pub open spec fn len(self) -> int {
        self.occupied(self.capacity())
    }

    /// Every slot is occupied.
    pub open spec fn is_full(self) -> bool {
        forall|i: int| 0 <= i < self.slots.len() ==> (#[trigger] self.slots[i]) is Some
    }

    /// The cursor points at a slot, and no key sits in two slots.
    pub open spec fn wf(self) -> bool {
        &&& 0 <= self.cursor
        &&& self.cursor < self.slots.len() || self.cursor == 0
        &&& forall|i: int, j: int, k: Seq<char>|
            self.holds(i, k) && self.holds(j, k) ==> i == j
    }

    /// The slot that lies `d` steps after the cursor, wrapping at the end.
    pub open spec fn probe(self, d: int) -> int {
        if self.slots.len() == 0 {
            0
        } else {
            (self.cursor + d) % (self.slots.len() as int)
        }
    }

    /// The first free slot found by probing from step `d` on, once around.
    pub open spec fn free_from(self, d: int) -> Option<int>
        decreases self.slots.len() - d,
    {
        if d < 0 || d >= self.slots.len() {
            None
        } else if self.slots[self.probe(d)] is None {
            Some(self.probe(d))
        } else {
            self.free_from(d + 1)
        }
    }

    /// The slot that the next insertion uses: the first free one from the
    /// cursor on, wrapping to the start once. `None` if no slot is free.
    pub open spec fn next_free(self) -> Option<int> {
        self.free_from(0)
    }

    /// What an insertion of `key` returns.
    pub open spec fn insert_result(self, key: Seq<char>) -> Result<(), CacheError> {
        if self.contains(key) {
            Err(CacheError::DuplicateKey)
        } else if self.next_free() is None {
            Err(CacheError::CacheFull)
        } else {
            Ok(())
        }
    }

    /// The cache after an insertion of `key` with `entry`: unchanged if the
    /// insertion is refused; else the entry sits in the next free slot and
    /// the cursor points just past that slot.
    pub open spec fn insert(self, key: Seq<char>, entry: MediaMeta) -> CacheModel {
        if self.insert_result(key) is Err {
            self
        } else {
            let i = self.next_free()->0;
            CacheModel {
                slots: self.slots.update(i, Some(SlotModel { key, entry })),
                cursor: (i + 1) % self.capacity(),
            }
        }
    }

    /// The cache after the removal of `key`: its slot is free again.
    pub open spec fn remove(self, key: Seq<char>) -> CacheModel {
        if self.contains(key) {
            CacheModel { slots: self.slots.update(self.slot_of(key), None), cursor: self.cursor }
        } else {
            self
        }
    }

    /// The cache with the slots freed whose key and entry fail `keep`.
    pub open spec fn retain(self, keep: spec_fn(Seq<char>, MediaMeta) -> bool) -> CacheModel {
        CacheModel {
            slots: Seq::new(
                self.slots.len(),
                |i: int|
                    match self.slots[i] {
                        Some(s) => if keep(s.key, s.entry) {
                            Some(s)
                        } else {
                            None
                        },
                        None => None,
                    },
            ),
            cursor: self.cursor,
        }
    }

    /// Slot `i` holds one of `keys`.
    pub open spec fn hit(self, keys: Seq<Seq<char>>, i: int) -> bool {
        exists|j: int| 0 <= j < keys.len() && self.holds(i, #[trigger] keys[j])
    }

    /// The entries of those among the first `n` slots that hold one of
    /// `keys`, in slot order.
    pub open spec fn picked(self, keys: Seq<Seq<char>>, n: int) -> Seq<MediaMeta>
        decreases n,
    {
        if n <= 0 || n > self.slots.len() {
            Seq::empty()
        } else if self.hit(keys, n - 1) {
            self.picked(keys, n - 1).push(self.slots[n - 1]->0.entry)
        } else {
            self.picked(keys, n - 1)
        }
    }

    /// One of `keys` is in the cache.
    pub open spec fn any_present(self, keys: Seq<Seq<char>>) -> bool {
        exists|j: int| 0 <= j < keys.len() && self.contains(#[trigger] keys[j])
    }

    /// The answer to a batch query: nothing if none of `keys` is present,
    /// else the entries of the present ones, each once, in slot order.
    pub open spec fn batch_query(self, keys: Seq<Seq<char>>) -> Option<Seq<MediaMeta>> {
        if self.any_present(keys) {
            Some(self.picked(keys, self.capacity()))
        } else {
            None
        }
    }
}

impl CacheModel {
    /// Probing wraps around the end of the row at most once.
    pub proof fn lemma_probe(self, d: int)
        requires
            self.wf(),
            0 <= d < self.slots.len(),
        ensures
            0 <= self.probe(d) < self.slots.len(),
            self.probe(d) == if self.cursor + d < self.slots.len() {
                self.cursor + d
            } else {
                self.cursor + d - self.slots.len()
            },
    {
        let n = self.slots.len() as int;
        let x = self.cursor + d;
        if x < n {
            assert(x % n == x) by (nonlinear_arith)
                requires
                    0 <= x < n,
            ;
        } else {
            assert(x % n == x - n) by (nonlinear_arith)
                requires
                    n <= x < 2 * n,
            ;
        }
    }

    /// A slot found by probing is a free slot of the row.
    pub proof fn lemma_free_from_is_free(self, d: int)
        requires
            self.wf(),
            0 <= d,
        ensures
            self.free_from(d) matches Some(i) ==> 0 <= i < self.slots.len() && self.slots[i]
                is None,
        decreases self.slots.len() - d,
    {
        if d < self.slots.len() {
            self.lemma_probe(d);
            if self.slots[self.probe(d)] is Some {
                self.lemma_free_from_is_free(d + 1);
            }
        }
    }

    /// An accepted insertion keeps the model well formed, puts the key in
    /// its slot and leaves every other key where it was.
    pub proof fn lemma_insert_holds(self, key: Seq<char>, entry: MediaMeta)
        requires
            self.wf(),
            self.insert_result(key) is Ok,
        ensures
            self.insert(key, entry).wf(),
            self.insert(key, entry).holds(self.next_free()->0, key),
            forall|i: int, k: Seq<char>|
                k != key ==> (#[trigger] self.insert(key, entry).holds(i, k) <==> self.holds(
                    i,
                    k,
                )),
    {
        self.lemma_free_from_is_free(0);
        let i = self.next_free()->0;
        let after = self.insert(key, entry);
        let n = self.slots.len() as int;
        assert(0 <= (i + 1) % n < n) by (nonlinear_arith)
            requires
                0 <= i < n,
        ;
        assert forall|a: int, b: int, k: Seq<char>| after.holds(a, k) && after.holds(b, k) implies a
            == b by {
            if k == key {
                if a != i {
                    assert(self.holds(a, key));
                }
                if b != i {
                    assert(self.holds(b, key));
                }
            } else {
                assert(self.holds(a, k));
                assert(self.holds(b, k));
            }
        }
    }

    /// A removal keeps the model well formed, takes the key out and leaves
    /// every other key where it was.
    pub proof fn lemma_remove_holds(self, key: Seq<char>)
        requires
            self.wf(),
        ensures
            self.remove(key).wf(),
            !self.remove(key).contains(key),
            forall|i: int, k: Seq<char>|
                k != key ==> (#[trigger] self.remove(key).holds(i, k) <==> self.holds(i, k)),
            forall|i: int, k: Seq<char>| #[trigger] self.remove(key).holds(i, k) ==> self.holds(i, k),
    {
        let after = self.remove(key);
        if self.contains(key) {
            let s = self.slot_of(key);
            assert(self.holds(s, key));
            assert forall|a: int, b: int, k: Seq<char>| after.holds(a, k) && after.holds(b, k) implies a
                == b by {
                assert(self.holds(a, k));
                assert(self.holds(b, k));
            }
            assert forall|a: int| !after.holds(a, key) by {
                if after.holds(a, key) {
                    assert(self.holds(a, key));
                }
            }
        }
    }
}

/// An empty cache with `capacity` slots.
pub open spec fn empty_cache(capacity: int) -> CacheModel {
    CacheModel { slots: Seq::new(capacity as nat, |i: int| None), cursor: 0 }
}

/// The answer `keep` is one that `f` may give for `key` with `entry`.
pub open spec fn verdict<F: Fn(&str, Option<&MediaMeta>) -> bool>(
    f: F,
    key: Seq<char>,
    entry: MediaMeta,
    keep: bool,
) -> bool {
    exists|k: &str| k@ == key && #[trigger] call_ensures(f, (k, Some(&entry)), keep)
}

/// `after` is `before` with its slots sifted by `f`: a slot stays as it is
/// where `f` answered true for its key and entry, and is free where `f`
/// answered false. Free slots stay free and the cursor stays in place.
pub open spec fn sifted<F: Fn(&str, Option<&MediaMeta>) -> bool>(
    before: CacheModel,
    after: CacheModel,
    f: F,
) -> bool {
    &&& after.cursor == before.cursor
    &&& after.slots.len() == before.slots.len()
    &&& forall|i: int|
        0 <= i < before.slots.len() ==> match #[trigger] before.slots[i] {
            None => after.slots[i] is None,
            Some(s) => {
                ||| after.slots[i] == Some(s) && verdict(f, s.key, s.entry, true)
                ||| after.slots[i] is None && verdict(f, s.key, s.entry, false)
            },
        }
}

/// The keys that a slice of string slices spells.
pub open spec fn key_views(queries: Seq<&str>) -> Seq<Seq<char>> {
    Seq::new(queries.len(), |i: int| queries[i]@)
}

/// The entries that a row of references points to.
pub open spec fn entry_values(found: Seq<&MediaMeta>) -> Seq<MediaMeta> {
    Seq::new(found.len(), |i: int| *found[i])
}

} // verus!
