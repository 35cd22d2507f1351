//! The cache of one session: a short row of records. Once the row is full, a
//! new record takes the place under the cursor.

use crate::util::cache::model::entry_values;
use crate::prelude::{surely_other_path, surely_same_path};
use crate::util::media::meta::MediaMeta;
use tinyvec::ArrayVec;
use vstd::prelude::*;

verus! {

/// The number of records that a session cache holds at most.
pub const MIN_CACHE_SIZE: usize = 64;

/// The records that a row of `tinyvec` holds, in order.
pub uninterp spec fn row_entries(row: ArrayVec<[MediaMeta; MIN_CACHE_SIZE]>) -> Seq<MediaMeta>;

/// `ArrayVec::new`: a row without records.
#[verifier::external_body]
fn row_new() -> (r: ArrayVec<[MediaMeta; MIN_CACHE_SIZE]>)
    ensures
        row_entries(r) == Seq::<MediaMeta>::empty(),
{
    ArrayVec::new()
}

/// `ArrayVec::clear`: takes every record out.
#[verifier::external_body]
fn row_clear(row: &mut ArrayVec<[MediaMeta; MIN_CACHE_SIZE]>)
    ensures
        row_entries(*final(row)) == Seq::<MediaMeta>::empty(),
{
    row.clear()
}

/// `ArrayVec::len`: the number of records.
#[verifier::external_body]
fn row_len(row: &ArrayVec<[MediaMeta; MIN_CACHE_SIZE]>) -> (r: usize)
    ensures
        r == row_entries(*row).len(),
{
    row.len()
}

/// `ArrayVec::as_slice`, read at `i`: the record at that place.
#[verifier::external_body]
fn row_get(row: &ArrayVec<[MediaMeta; MIN_CACHE_SIZE]>, i: usize) -> (r: &MediaMeta)
    requires
        i < row_entries(*row).len(),
    ensures
        *r == row_entries(*row)[i as int],
{
    &row.as_slice()[i]
}

/// `ArrayVec::push`: appends `meta`. The row must have room, as the call
/// panics on a full row.
#[verifier::external_body]
fn row_push(row: &mut ArrayVec<[MediaMeta; MIN_CACHE_SIZE]>, meta: MediaMeta)
    requires
        row_entries(*old(row)).len() < MIN_CACHE_SIZE,
    ensures
        row_entries(*final(row)) == row_entries(*old(row)).push(meta),
{
    row.push(meta)
}

/// `ArrayVec::remove`: takes the record at `index` out and moves the
/// following ones down by one place. The index must be that of a record, as
/// the call panics on any other.
#[verifier::external_body]
fn row_remove(row: &mut ArrayVec<[MediaMeta; MIN_CACHE_SIZE]>, index: usize) -> (r: MediaMeta)
    requires
        index < row_entries(*old(row)).len(),
    ensures
        r == row_entries(*old(row))[index as int],
        row_entries(*final(row)) == row_entries(*old(row)).remove(index as int),
{
    row.remove(index)
}

/// `ArrayVec::insert`: puts `meta` at `index` and moves the records from
/// there on up by one place. The index must not lie past the end and the row
/// must have room, as the call panics otherwise.
#[verifier::external_body]
fn row_insert(row: &mut ArrayVec<[MediaMeta; MIN_CACHE_SIZE]>, index: usize, meta: MediaMeta)
    requires
        index <= row_entries(*old(row)).len(),
        row_entries(*old(row)).len() < MIN_CACHE_SIZE,
    ensures
        row_entries(*final(row)) == row_entries(*old(row)).insert(index as int, meta),
{
    row.insert(index, meta)
}

/// The records seen in one session, at most `MIN_CACHE_SIZE` of them.
pub struct LiveCache {
    entries: ArrayVec<[MediaMeta; MIN_CACHE_SIZE]>,
    last_inserted_index: usize,
}

impl View for LiveCache {
    type V = Seq<MediaMeta>;

    closed spec fn view(&self) -> Seq<MediaMeta> {
        row_entries(self.entries)
    }
}

/// `f` answers `answer` when asked about `meta`.
pub open spec fn answers_with<P: Fn(&MediaMeta) -> bool>(f: P, meta: MediaMeta, answer: bool) -> bool {
    call_ensures(f, (&meta,), answer)
}

/// Where the cursor goes from `cursor` after a record took its place in a
/// row of `len` records.
pub open spec fn next_cursor(len: nat, cursor: int) -> int {
    if len < MIN_CACHE_SIZE - 1 {
        cursor + 1
    } else {
        0
    }
}

/// The row after `meta` was added: at the end while there is room, else in
/// the place under the cursor.
pub open spec fn inserted(row: Seq<MediaMeta>, cursor: int, meta: MediaMeta) -> Seq<MediaMeta> {
    if row.len() < MIN_CACHE_SIZE {
        row.push(meta)
    } else {
        row.update(cursor, meta)
    }
}

impl LiveCache {
    /// The place that the next record takes once the row is full.
    pub closed spec fn cursor(&self) -> int {
        self.last_inserted_index as int
    }

    /// The row is not over-full and the cursor points into it.
    pub closed spec fn wf(&self) -> bool {
        &&& self@.len() <= MIN_CACHE_SIZE
        &&& self.last_inserted_index < MIN_CACHE_SIZE
    }

    /// A well-formed cache holds no more records than it has room for.
    pub proof fn lemma_bounded(&self)
        requires
            self.wf(),
        ensures
            self@.len() <= MIN_CACHE_SIZE,
            0 <= self.cursor() < MIN_CACHE_SIZE,
    {
    }

    /// An empty cache.
    pub fn new() -> (r: Self)
        ensures
            r.wf(),
            r@ == Seq::<MediaMeta>::empty(),
            r.cursor() == 0,
    {
        LiveCache { entries: row_new(), last_inserted_index: 0 }
    }

    /// Takes every record out.
    pub fn clear(&mut self)
        requires
            old(self).wf(),
        ensures
            final(self).wf(),
            final(self)@ == Seq::<MediaMeta>::empty(),
            final(self).cursor() == old(self).cursor(),
    {
        row_clear(&mut self.entries)
    }

    /// Whether the cache holds a record of the same file as `meta`, that is,
    /// one whose path has the same components. It does, where a record has
    /// the same path as text, or a path that is surely the same.
    /// It does not, where the path of every record surely differs from that
    /// of `meta`.
    pub fn contains(&self, meta: &MediaMeta) -> (r: bool)
        ensures
            (exists|i: int|
                0 <= i < self@.len() && surely_same_path(
                    (#[trigger] self@[i]).file_path@,
                    meta.file_path@,
                )) ==> r,
            (forall|i: int|
                0 <= i < self@.len() ==> surely_other_path(
                    (#[trigger] self@[i]).file_path@,
                    meta.file_path@,
                )) ==> !r,
    {
        let n = row_len(&self.entries);
        let mut i: usize = 0;
        while i < n
            invariant
                i <= n,
                n == self@.len(),
                forall|j: int|
                    0 <= j < i ==> !surely_same_path(
                        (#[trigger] self@[j]).file_path@,
                        meta.file_path@,
                    ),
            decreases n - i,
        {
            if row_get(&self.entries, i).same_file(meta) {
                return true;
            }
            i += 1;
        }
        false
    }

    /// Whether there is room for one more record.
    pub fn has_capacity(&self) -> (r: bool)
        ensures
            r == (self@.len() < MIN_CACHE_SIZE),
    {
        row_len(&self.entries) < MIN_CACHE_SIZE
    }

    /// Moves the cursor on by one place, or back to the start where the row
    /// is within one record of full.
    fn increment(&mut self)
        requires
            old(self).wf(),
            old(self)@.len() < MIN_CACHE_SIZE - 1 ==> old(self).cursor() + 1 < MIN_CACHE_SIZE,
        ensures
            final(self).wf(),
            final(self)@ == old(self)@,
            final(self).cursor() == next_cursor(old(self)@.len(), old(self).cursor()),
    {
        if row_len(&self.entries) < MIN_CACHE_SIZE - 1 {
            self.last_inserted_index += 1;
        } else {
            self.last_inserted_index = 0;
        }
    }

    /// The first record for which `fun` answers true.
    pub fn find<P: Fn(&MediaMeta) -> bool>(&self, fun: P) -> (r: Option<&MediaMeta>)
        requires
            forall|m: &MediaMeta| call_requires(fun, (m,)),
        ensures
            match r {
                Some(found) => exists|i: int|
                    {
                        &&& 0 <= i < self@.len()
                        &&& #[trigger] self@[i] == *found
                        &&& answers_with(fun, self@[i], true)
                        &&& forall|j: int| 0 <= j < i ==> answers_with(fun, #[trigger] self@[j], false)
                    },
                None => forall|j: int|
                    0 <= j < self@.len() ==> answers_with(fun, #[trigger] self@[j], false),
            },
    {
        let n = row_len(&self.entries);
        let mut i: usize = 0;
        while i < n
            invariant
                i <= n,
                n == self@.len(),
                forall|m: &MediaMeta| call_requires(fun, (m,)),
                forall|j: int| 0 <= j < i ==> answers_with(fun, #[trigger] self@[j], false),
            decreases n - i,
        {
            let entry = row_get(&self.entries, i);
            if fun(entry) {
                assert(self@[i as int] == *entry && answers_with(fun, self@[i as int], true));
                return Some(entry);
            }
            i += 1;
        }
        None
    }

    /// The records, in order.
    pub fn entries(&self) -> (r: Vec<&MediaMeta>)
        ensures
            entry_values(r@) == self@,
    {
        let n = row_len(&self.entries);
        let mut all: Vec<&MediaMeta> = Vec::new();
        let mut i: usize = 0;
        while i < n
            invariant
                i <= n,
                n == self@.len(),
                entry_values(all@) == self@.take(i as int),
            decreases n - i,
        {
            let ghost prior = all@;
            let entry = row_get(&self.entries, i);
            all.push(entry);
            assert(entry_values(all@) =~= entry_values(prior).push(*entry));
            assert(self@.take(i + 1) =~= self@.take(i as int).push(self@[i as int]));
            i += 1;
        }
        assert(self@.take(n as int) =~= self@);
        all
    }

    /// Adds `meta`: at the end while there is room, else in the place under
    /// the cursor, whose record is dropped.
    pub fn insert(&mut self, meta: MediaMeta)
        requires
            old(self).wf(),
        ensures
            final(self).wf(),
            final(self)@ == inserted(old(self)@, old(self).cursor(), meta),
            final(self).cursor() == (if old(self)@.len() < MIN_CACHE_SIZE {
                old(self).cursor()
            } else {
                0
            }),
    {
        if self.has_capacity() {
            row_push(&mut self.entries, meta);
        } else {
            let ghost before = self@;
            let index = self.last_inserted_index;
            let _ = row_remove(&mut self.entries, index);
            row_insert(&mut self.entries, index, meta);
            assert(self@ =~= before.update(index as int, meta));
            self.increment()
        }
    }
}

impl Default for LiveCache {
    fn default() -> (r: Self)
        ensures
            r.wf(),
            r@ == Seq::<MediaMeta>::empty(),
    {
        LiveCache::new()
    }
}

} // verus!
