//! The stored form of the persistent cache: the lookup pairs, the cursor and
//! the row of optional entries, as plain values; and what to do with a store
//! that could not be read back.

use crate::prelude::IoKind;
use crate::util::cache::model::CacheModel;
use crate::util::media::meta::MediaMeta;
use vstd::prelude::*;

verus! {

/// A cache taken apart for storing.
pub struct CacheParts {
    /// Each key with the index of its slot.
    pub lookup: Vec<(String, usize)>,
    /// Where the search for a free slot starts.
    pub cursor: usize,
    /// One element per slot.
    pub entries: Vec<Option<MediaMeta>>,
}

/// Why a stored cache could not be used.
#[derive(Clone, Copy, Debug, PartialEq, Eq, Structural)]
pub enum StoreFailure {
    /// Decoding met an I/O failure of this kind.
    Io(IoKind),
    /// The bytes decode to nothing, or to parts that describe no cache.
    CorruptStore,
}

/// A cache read back, or made anew.
pub enum Retrieved<C> {
    /// The stored cache.
    Stored(C),
    /// A fresh cache, made because the store was not usable yet. It is still
    /// to be written.
    Fresh(C),
}

impl CacheParts {
    /// The parts are those of the cache `m`: the same cursor, the same
    /// entries slot by slot, and one lookup pair for each key, naming its
    /// slot.
    pub open spec fn describes(&self, m: CacheModel) -> bool {
        &&& self.cursor == m.cursor
        &&& self.entries.len() == m.slots.len()
        &&& forall|i: int|
            0 <= i < self.entries.len() ==> (#[trigger] self.entries[i]) == (match m.slots[i] {
                Some(s) => Some(s.entry),
                None => None,
            })
        &&& forall|j: int|
            0 <= j < self.lookup.len() ==> m.holds(
                (#[trigger] self.lookup[j]).1 as int,
                self.lookup[j].0@,
            )
        &&& forall|i: int, k: Seq<char>| #[trigger]
            m.holds(i, k) ==> exists|j: int|
                0 <= j < self.lookup.len() && (#[trigger] self.lookup[j]).0@ == k
                    && self.lookup[j].1 == i
        &&& forall|a: int, b: int|
            0 <= a < b < self.lookup.len() ==> (#[trigger] self.lookup[a]).0@ != (
            #[trigger] self.lookup[b]).0@
    }

    /// The parts are those of some well-formed cache.
    pub open spec fn is_sound(&self) -> bool {
        exists|m: CacheModel| m.wf() && self.describes(m)
    }

    /// Parts describe at most one cache.
    pub proof fn lemma_describes_one(&self, m1: CacheModel, m2: CacheModel)
        requires
            self.describes(m1),
            self.describes(m2),
        ensures
            m1 == m2,
    {
        assert forall|i: int| 0 <= i < m1.slots.len() implies m1.slots[i] == m2.slots[i] by {
            let _ = self.entries[i];
            if m1.slots[i] is Some {
                let k1 = m1.slots[i]->0.key;
                let k2 = m2.slots[i]->0.key;
                assert(m1.holds(i, k1));
                assert(m2.holds(i, k2));
                let j1 = choose|j: int|
                    0 <= j < self.lookup.len() && (#[trigger] self.lookup[j]).0@ == k1
                        && self.lookup[j].1 == i;
                assert(m2.holds(self.lookup[j1].1 as int, self.lookup[j1].0@));
            }
        }
        assert(m1.slots =~= m2.slots);
    }
}

/// Whether a store that failed to decode counts as not made yet, so that a
/// fresh cache takes its place: an I/O failure of the kinds not found,
/// permission denied, already exists, invalid input and invalid data.
pub fn is_init_candidate(err: &StoreFailure) -> (r: bool)
    ensures
        r == init_candidate(*err),
{
    match err {
        StoreFailure::Io(kind) => matches!(
            kind,
            IoKind::NotFound
                | IoKind::PermissionDenied
                | IoKind::AlreadyExists
                | IoKind::InvalidInput
                | IoKind::InvalidData
        ),
        _ => false,
    }
}

/// A failure after which a fresh cache takes the store's place.
pub open spec fn init_candidate(err: StoreFailure) -> bool {
    err matches StoreFailure::Io(kind) && (kind == IoKind::NotFound || kind
        == IoKind::PermissionDenied || kind == IoKind::AlreadyExists || kind
        == IoKind::InvalidInput || kind == IoKind::InvalidData)
}

} // verus!
