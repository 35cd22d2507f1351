//! What holds of every slot cache, proved over its model.

use crate::util::cache::model::{empty_cache, sifted, verdict, CacheError, CacheModel};
use crate::util::media::meta::MediaMeta;
use vstd::prelude::*;

verus! {

/// One step in the life of a cache.
pub enum CacheOp {
    Insert { key: Seq<char>, entry: MediaMeta },
    Remove { key: Seq<char> },
    Retain { keep: spec_fn(Seq<char>, MediaMeta) -> bool },
}

/// The cache after one step.
pub open spec fn step(m: CacheModel, op: CacheOp) -> CacheModel {
    match op {
        CacheOp::Insert { key, entry } => m.insert(key, entry),
        CacheOp::Remove { key } => m.remove(key),
        CacheOp::Retain { keep } => m.retain(keep),
    }
}

/// The cache after the steps `ops`, taken in order.
pub open spec fn run(m: CacheModel, ops: Seq<CacheOp>) -> CacheModel
    decreases ops.len(),
{
    if ops.len() == 0 {
        m
    } else {
        step(run(m, ops.drop_last()), ops.last())
    }
}

/// No step of `ops` inserts `key`.
pub open spec fn never_inserted(ops: Seq<CacheOp>, key: Seq<char>) -> bool {
    forall|i: int|
        0 <= i < ops.len() ==> !(#[trigger] ops[i] matches CacheOp::Insert { key: k, .. } && k
            == key)
}

/// Probing from step `d` on finds nothing exactly if every slot probed from
/// there on is occupied.
proof fn lemma_free_from_none(m: CacheModel, d: int)
    requires
        m.wf(),
        0 <= d,
    ensures
        m.free_from(d) is None <==> forall|e: int|
            d <= e < m.slots.len() ==> m.slots[#[trigger] m.probe(e)] is Some,
    decreases m.slots.len() - d,
{
    if d < m.slots.len() {
        lemma_free_from_none(m, d + 1);
        if m.slots[m.probe(d)] is Some {
            assert forall|e: int| d <= e < m.slots.len() && (forall|e: int|
                d + 1 <= e < m.slots.len() ==> m.slots[#[trigger] m.probe(e)] is Some) implies m.slots[#[trigger] m.probe(
                e,
            )] is Some by {
                if e > d {
                } else {
                    assert(e == d);
                }
            }
        }
    }
}

/// Every slot is reached by some probe.
proof fn lemma_probe_reaches(m: CacheModel, i: int)
    requires
        m.wf(),
        0 <= i < m.slots.len(),
    ensures
        ({
            let d = if i >= m.cursor {
                i - m.cursor
            } else {
                i - m.cursor + m.slots.len()
            };
            0 <= d < m.slots.len() && m.probe(d) == i
        }),
{
    let d = if i >= m.cursor {
        i - m.cursor
    } else {
        i - m.cursor + m.slots.len()
    };
    m.lemma_probe(d);
}

/// An insertion finds no free slot exactly if the cache is full.
pub proof fn lemma_no_free_slot_iff_full(m: CacheModel)
    requires
        m.wf(),
    ensures
        m.next_free() is None <==> m.is_full(),
{
    lemma_free_from_none(m, 0);
    if m.next_free() is None {
        assert forall|i: int| 0 <= i < m.slots.len() implies (#[trigger] m.slots[i]) is Some by {
            lemma_probe_reaches(m, i);
            let d = if i >= m.cursor {
                i - m.cursor
            } else {
                i - m.cursor + m.slots.len()
            };
            assert(m.slots[m.probe(d)] is Some);
        }
    }
    if m.is_full() {
        assert forall|e: int| 0 <= e < m.slots.len() implies m.slots[#[trigger] m.probe(e)] is Some by {
            m.lemma_probe(e);
        }
    }
}

/// Every step keeps a well-formed cache well formed, with as many slots.
pub proof fn lemma_step_wf(m: CacheModel, op: CacheOp)
    requires
        m.wf(),
    ensures
        step(m, op).wf(),
        step(m, op).capacity() == m.capacity(),
{
    match op {
        CacheOp::Insert { key, entry } => {
            if m.insert_result(key) is Ok {
                m.lemma_insert_holds(key, entry);
                m.lemma_free_from_is_free(0);
            }
        },
        CacheOp::Remove { key } => {
            m.lemma_remove_holds(key);
            if m.contains(key) {
                assert(m.holds(m.slot_of(key), key));
            }
        },
        CacheOp::Retain { keep } => {
            let after = m.retain(keep);
            assert forall|a: int, b: int, k: Seq<char>|
                after.holds(a, k) && after.holds(b, k) implies a == b by {
                assert(m.holds(a, k));
                assert(m.holds(b, k));
            }
        },
    }
}

/// A key is in a cache after a step only if it was there before, or the
/// step inserted it.
pub proof fn lemma_step_adds_only_inserted(m: CacheModel, op: CacheOp, key: Seq<char>)
    requires
        m.wf(),
        !m.contains(key),
        !(op matches CacheOp::Insert { key: k, .. } && k == key),
    ensures
        !step(m, op).contains(key),
{
    let after = step(m, op);
    if after.contains(key) {
        let i = choose|i: int| after.holds(i, key);
        assert(after.holds(i, key));
        match op {
            CacheOp::Insert { key: k, entry } => {
                if m.insert_result(k) is Ok {
                    m.lemma_insert_holds(k, entry);
                }
                assert(m.holds(i, key));
            },
            CacheOp::Remove { key: k } => {
                m.lemma_remove_holds(k);
                assert(m.holds(i, key));
            },
            CacheOp::Retain { keep } => {
                assert(m.holds(i, key));
            },
        }
    }
}

/// A key that was never inserted is absent: whatever steps a cache that
/// started empty has gone through, `get` finds nothing under a key that none
/// of the steps inserted.
pub proof fn lemma_never_inserted_is_absent(capacity: nat, ops: Seq<CacheOp>, key: Seq<char>)
    requires
        never_inserted(ops, key),
    ensures
        run(empty_cache(capacity as int), ops).wf(),
        run(empty_cache(capacity as int), ops).capacity() == capacity,
        run(empty_cache(capacity as int), ops).get(key) is None,
    decreases ops.len(),
{
    let start = empty_cache(capacity as int);
    if ops.len() == 0 {
        assert(!start.contains(key)) by {
            if start.contains(key) {
                let i = choose|i: int| start.holds(i, key);
                assert(start.holds(i, key));
            }
        }
    } else {
        let before = ops.drop_last();
        assert forall|i: int| 0 <= i < before.len() implies !(#[trigger] before[i] matches CacheOp::Insert {
            key: k,
            ..
        } && k == key) by {
            assert(before[i] == ops[i]);
        }
        lemma_never_inserted_is_absent(capacity, before, key);
        let m = run(start, before);
        assert(ops.last() == ops[ops.len() - 1]);
        lemma_step_wf(m, ops.last());
        lemma_step_adds_only_inserted(m, ops.last(), key);
    }
}

/// After an accepted insertion `get` returns the inserted entry. A full
/// cache refuses a new key and stays as it is.
pub proof fn lemma_insert_then_get(m: CacheModel, key: Seq<char>, entry: MediaMeta)
    requires
        m.wf(),
    ensures
        m.insert_result(key) is Ok ==> m.insert(key, entry).get(key) == Some(entry),
        m.insert_result(key) is Ok <==> !m.contains(key) && !m.is_full(),
        m.is_full() ==> m.insert_result(key) is Err && m.insert(key, entry) == m,
        m.is_full() && !m.contains(key) ==> m.insert_result(key) == Err::<(), CacheError>(
            CacheError::CacheFull,
        ),
{
    lemma_no_free_slot_iff_full(m);
    if m.insert_result(key) is Ok {
        lemma_get_after_insert(m, key, entry);
    }
}

/// After an accepted insertion the key's slot is the next free one and
/// holds the entry.
proof fn lemma_get_after_insert(m: CacheModel, key: Seq<char>, entry: MediaMeta)
    requires
        m.wf(),
        m.insert_result(key) is Ok,
    ensures
        m.insert(key, entry).contains(key),
        m.insert(key, entry).slot_of(key) == m.next_free()->0,
        m.insert(key, entry).get(key) == Some(entry),
{
    m.lemma_insert_holds(key, entry);
    m.lemma_free_from_is_free(0);
    let after = m.insert(key, entry);
    assert(after.holds(m.next_free()->0, key));
    assert(after.holds(after.slot_of(key), key));
}

/// A second insertion under a key is refused as a duplicate, changes
/// nothing, and `get` still returns the first entry.
pub proof fn lemma_second_insert_is_duplicate(
    m: CacheModel,
    key: Seq<char>,
    first: MediaMeta,
    second: MediaMeta,
)
    requires
        m.wf(),
        m.insert_result(key) is Ok,
    ensures
        ({
            let once = m.insert(key, first);
            &&& once.insert_result(key) == Err::<(), CacheError>(CacheError::DuplicateKey)
            &&& once.insert(key, second) == once
            &&& once.insert(key, second).get(key) == Some(first)
        }),
{
    lemma_get_after_insert(m, key, first);
}

/// An insertion under a present key is refused as a duplicate and changes
/// nothing.
pub proof fn lemma_insert_present_key(m: CacheModel, key: Seq<char>, entry: MediaMeta)
    requires
        m.contains(key),
    ensures
        m.insert_result(key) == Err::<(), CacheError>(CacheError::DuplicateKey),
        m.insert(key, entry) == m,
{
}

/// Removing a key right after its insertion hands the entry back, and the
/// key is then absent.
pub proof fn lemma_insert_then_remove(m: CacheModel, key: Seq<char>, entry: MediaMeta)
    requires
        m.wf(),
        m.insert_result(key) is Ok,
    ensures
        m.insert(key, entry).get(key) == Some(entry),
        m.insert(key, entry).remove(key).get(key) is None,
{
    lemma_get_after_insert(m, key, entry);
    m.lemma_insert_holds(key, entry);
    m.insert(key, entry).lemma_remove_holds(key);
}

/// After the removal of a key `get` finds nothing under it, and finds under
/// every other key what it found before.
pub proof fn lemma_remove_then_get(m: CacheModel, key: Seq<char>, other: Seq<char>)
    requires
        m.wf(),
    ensures
        m.remove(key).get(key) is None,
        other != key ==> m.remove(key).get(other) == m.get(other),
{
    m.lemma_remove_holds(key);
    let after = m.remove(key);
    if other != key {
        if m.contains(other) {
            let i = m.slot_of(other);
            assert(m.holds(i, other));
            assert(after.holds(i, other));
            assert(after.holds(after.slot_of(other), other));
            assert(m.holds(after.slot_of(other), other));
        } else if after.contains(other) {
            assert(after.holds(after.slot_of(other), other));
            assert(m.holds(after.slot_of(other), other));
        }
    }
}

/// An accepted insertion leaves every other key with the entry it had.
pub proof fn lemma_insert_keeps_others(
    m: CacheModel,
    key: Seq<char>,
    entry: MediaMeta,
    other: Seq<char>,
)
    requires
        m.wf(),
        other != key,
    ensures
        m.insert(key, entry).get(other) == m.get(other),
{
    if m.insert_result(key) is Ok {
        m.lemma_insert_holds(key, entry);
        m.lemma_free_from_is_free(0);
        let after = m.insert(key, entry);
        if m.contains(other) {
            let i = m.slot_of(other);
            assert(m.holds(i, other));
            assert(after.holds(i, other));
            assert(after.holds(after.slot_of(other), other));
            assert(m.holds(after.slot_of(other), other));
        } else if after.contains(other) {
            assert(after.holds(after.slot_of(other), other));
            assert(m.holds(after.slot_of(other), other));
        }
    }
}

/// The keys that sit in one of the first `n` slots and, if `keys` is given,
/// occur in it.
pub open spec fn keys_in(m: CacheModel, among: Option<Seq<Seq<char>>>, n: int) -> Set<Seq<char>> {
    Set::new(
        |k: Seq<char>|
            exists|i: int|
                0 <= i < n && #[trigger] m.holds(i, k) && (among matches Some(keys)
                    ==> keys.contains(k)),
    )
}

/// The number of occupied slots among the first `n` whose key, if `keys` is
/// given, occurs in it.
pub open spec fn count_in(m: CacheModel, among: Option<Seq<Seq<char>>>, n: int) -> int
    decreases n,
{
    if n <= 0 || n > m.slots.len() {
        0
    } else {
        count_in(m, among, n - 1) + if m.slots[n - 1] matches Some(s) && (among matches Some(keys)
            ==> keys.contains(s.key)) {
            1int
        } else {
            0int
        }
    }
}

/// The keys in the first `n` slots are as many as the slots that hold them.
proof fn lemma_keys_counted(m: CacheModel, among: Option<Seq<Seq<char>>>, n: int)
    requires
        m.wf(),
        0 <= n <= m.slots.len(),
    ensures
        keys_in(m, among, n).finite(),
        keys_in(m, among, n).len() == count_in(m, among, n),
        0 <= count_in(m, among, n) <= n,
    decreases n,
{
    if n == 0 {
        assert(keys_in(m, among, n) =~= Set::<Seq<char>>::empty());
    } else {
        lemma_keys_counted(m, among, n - 1);
        let prev = keys_in(m, among, n - 1);
        let cur = keys_in(m, among, n);
        if m.slots[n - 1] matches Some(s) && (among matches Some(keys) ==> keys.contains(s.key)) {
            let key = m.slots[n - 1]->0.key;
            assert(m.holds(n - 1, key));
            assert(!prev.contains(key)) by {
                if prev.contains(key) {
                    let i = choose|i: int| 0 <= i < n - 1 && #[trigger] m.holds(i, key);
                    assert(m.holds(i, key) && m.holds(n - 1, key));
                }
            }
            assert(cur =~= prev.insert(key)) by {
                assert forall|k: Seq<char>| cur.contains(k) implies prev.insert(key).contains(
                    k,
                ) by {
                    let i = choose|i: int|
                        0 <= i < n && #[trigger] m.holds(i, k) && (among matches Some(keys)
                            ==> keys.contains(k));
                    if i < n - 1 {
                        assert(prev.contains(k));
                    }
                }
            }
        } else {
            assert(cur =~= prev) by {
                assert forall|k: Seq<char>| cur.contains(k) implies prev.contains(k) by {
                    let i = choose|i: int|
                        0 <= i < n && #[trigger] m.holds(i, k) && (among matches Some(keys)
                            ==> keys.contains(k));
                    assert(i < n - 1);
                }
            }
        }
    }
}

/// The cache never holds more keys than it has slots: its keys are finitely
/// many, as many as its occupied slots, and at most its capacity.
pub proof fn lemma_len_within_capacity(m: CacheModel)
    requires
        m.wf(),
    ensures
        m.entries().dom().finite(),
        m.entries().dom().len() == m.len(),
        0 <= m.len() <= m.capacity(),
{
    lemma_keys_counted(m, None, m.capacity());
    lemma_occupied_is_count(m, m.capacity());
    assert(m.entries().dom() =~= keys_in(m, None, m.capacity())) by {
        assert forall|k: Seq<char>| m.entries().dom().contains(k) implies keys_in(
            m,
            None,
            m.capacity(),
        ).contains(k) by {
            assert(m.holds(m.slot_of(k), k));
        }
    }
}

proof fn lemma_occupied_is_count(m: CacheModel, n: int)
    requires
        0 <= n <= m.slots.len(),
    ensures
        m.occupied(n) == count_in(m, None, n),
    decreases n,
{
    if n > 0 {
        lemma_occupied_is_count(m, n - 1);
    }
}

/// `entry` sits in one of the first `n` slots, under one of `keys`.
pub open spec fn sits_under(m: CacheModel, keys: Seq<Seq<char>>, n: int, entry: MediaMeta) -> bool {
    exists|i: int| 0 <= i < n && #[trigger] m.hit(keys, i) && m.slots[i]->0.entry == entry
}

/// What a batch query picks from the first `n` slots: an entry for each
/// slot that holds one of the keys, and nothing else.
proof fn lemma_picked(m: CacheModel, keys: Seq<Seq<char>>, n: int)
    requires
        m.wf(),
        0 <= n <= m.slots.len(),
    ensures
        m.picked(keys, n).len() == count_in(m, Some(keys), n),
        forall|x: int|
            0 <= x < m.picked(keys, n).len() ==> sits_under(
                m,
                keys,
                n,
                #[trigger] m.picked(keys, n)[x],
            ),
        forall|i: int|
            0 <= i < n && #[trigger] m.hit(keys, i) ==> m.picked(keys, n).contains(
                m.slots[i]->0.entry,
            ),
    decreases n,
{
    if n > 0 {
        lemma_picked(m, keys, n - 1);
        let prev = m.picked(keys, n - 1);
        let cur = m.picked(keys, n);
        if m.hit(keys, n - 1) {
            let j = choose|j: int| 0 <= j < keys.len() && m.holds(n - 1, #[trigger] keys[j]);
            assert(keys.contains(m.slots[n - 1]->0.key));
            assert(cur[cur.len() - 1] == m.slots[n - 1]->0.entry);
            assert forall|i: int| 0 <= i < n && #[trigger] m.hit(keys, i) implies cur.contains(
                m.slots[i]->0.entry,
            ) by {
                if i < n - 1 {
                    let x = choose|x: int|
                        0 <= x < prev.len() && prev[x] == m.slots[i]->0.entry;
                    assert(cur[x] == m.slots[i]->0.entry);
                }
            }
            assert forall|x: int| 0 <= x < cur.len() implies sits_under(
                m,
                keys,
                n,
                #[trigger] cur[x],
            ) by {
                if x < prev.len() {
                    assert(sits_under(m, keys, n - 1, prev[x]));
                    let i = choose|i: int|
                        0 <= i < n - 1 && #[trigger] m.hit(keys, i) && m.slots[i]->0.entry
                            == prev[x];
                    assert(m.hit(keys, i) && m.slots[i]->0.entry == cur[x]);
                } else {
                    assert(m.hit(keys, n - 1) && m.slots[n - 1]->0.entry == cur[x]);
                }
            }
        } else {
            if m.slots[n - 1] matches Some(s) && keys.contains(s.key) {
                let key = m.slots[n - 1]->0.key;
                let j = choose|j: int| 0 <= j < keys.len() && keys[j] == key;
                assert(m.holds(n - 1, keys[j]));
                assert(false);
            }
            assert forall|x: int| 0 <= x < cur.len() implies sits_under(
                m,
                keys,
                n,
                #[trigger] cur[x],
            ) by {
                assert(sits_under(m, keys, n - 1, prev[x]));
                let i = choose|i: int|
                    0 <= i < n - 1 && #[trigger] m.hit(keys, i) && m.slots[i]->0.entry == prev[x];
                assert(m.hit(keys, i) && m.slots[i]->0.entry == cur[x]);
            }
        }
    }
}

/// `entry` is stored under one of `keys`.
pub open spec fn answers(m: CacheModel, keys: Seq<Seq<char>>, entry: MediaMeta) -> bool {
    exists|j: int| 0 <= j < keys.len() && m.get(#[trigger] keys[j]) == Some(entry)
}

/// The keys of a query that are in the cache.
pub open spec fn present_keys(m: CacheModel, keys: Seq<Seq<char>>) -> Set<Seq<char>> {
    Set::new(|k: Seq<char>| keys.contains(k) && m.contains(k))
}

/// A batch query finds nothing exactly if none of its keys is present.
/// Otherwise it returns the present subset and nothing else: the entry of
/// every present key, only entries of present keys, and as many entries as
/// there are distinct present keys.
pub proof fn lemma_batch_query(m: CacheModel, keys: Seq<Seq<char>>)
    requires
        m.wf(),
    ensures
        m.batch_query(keys) is None <==> forall|j: int|
            0 <= j < keys.len() ==> !m.contains(#[trigger] keys[j]),
        m.batch_query(keys) matches Some(found) ==> {
            &&& forall|j: int|
                0 <= j < keys.len() && m.contains(#[trigger] keys[j]) ==> found.contains(
                    m.get(keys[j])->0,
                )
            &&& forall|x: int| 0 <= x < found.len() ==> answers(m, keys, #[trigger] found[x])
            &&& present_keys(m, keys).finite()
            &&& found.len() == present_keys(m, keys).len()
        },
{
    let n = m.capacity();
    if m.batch_query(keys) is Some {
        let found = m.batch_query(keys)->0;
        lemma_picked(m, keys, n);
        lemma_keys_counted(m, Some(keys), n);
        assert(present_keys(m, keys) =~= keys_in(m, Some(keys), n)) by {
            assert forall|k: Seq<char>| present_keys(m, keys).contains(k) implies keys_in(
                m,
                Some(keys),
                n,
            ).contains(k) by {
                assert(m.holds(m.slot_of(k), k));
            }
        }
        assert forall|j: int|
            0 <= j < keys.len() && m.contains(#[trigger] keys[j]) implies found.contains(
            m.get(keys[j])->0,
        ) by {
            let i = m.slot_of(keys[j]);
            assert(m.holds(i, keys[j]));
            assert(m.hit(keys, i));
        }
        assert forall|x: int| 0 <= x < found.len() implies answers(
            m,
            keys,
            #[trigger] found[x],
        ) by {
            assert(sits_under(m, keys, n, found[x]));
            let i = choose|i: int|
                0 <= i < n && #[trigger] m.hit(keys, i) && m.slots[i]->0.entry == found[x];
            let j = choose|j: int| 0 <= j < keys.len() && m.holds(i, #[trigger] keys[j]);
            assert(m.holds(m.slot_of(keys[j]), keys[j]));
            assert(m.get(keys[j]) == Some(found[x]));
        }
    }
}

/// Where the answers of `f` are those of the predicate `keep`, sifting by
/// `f` is retaining by `keep`.
pub proof fn lemma_sifted_by_predicate<F: Fn(&str, Option<&MediaMeta>) -> bool>(
    before: CacheModel,
    after: CacheModel,
    f: F,
    keep: spec_fn(Seq<char>, MediaMeta) -> bool,
)
    requires
        sifted(before, after, f),
        forall|key: Seq<char>, entry: MediaMeta, b: bool| #[trigger]
            verdict(f, key, entry, b) ==> b == keep(key, entry),
    ensures
        after == before.retain(keep),
{
    assert(after.slots =~= before.retain(keep).slots) by {
        assert forall|i: int| 0 <= i < before.slots.len() implies after.slots[i]
            == before.retain(keep).slots[i] by {
            let _ = before.slots[i];
        }
    }
}

/// After `retain`, `get` finds under a key the entry it found before if
/// `keep` holds of the key and that entry, and nothing otherwise.
pub proof fn lemma_retain_then_get(
    m: CacheModel,
    keep: spec_fn(Seq<char>, MediaMeta) -> bool,
    key: Seq<char>,
)
    requires
        m.wf(),
    ensures
        m.retain(keep).wf(),
        m.retain(keep).get(key) == match m.get(key) {
            Some(entry) => if keep(key, entry) {
                Some(entry)
            } else {
                None
            },
            None => None,
        },
{
    lemma_step_wf(m, CacheOp::Retain { keep });
    let after = m.retain(keep);
    if after.contains(key) {
        let i = after.slot_of(key);
        assert(after.holds(i, key));
        assert(m.holds(i, key));
        assert(m.holds(m.slot_of(key), key));
    } else if m.contains(key) {
        let i = m.slot_of(key);
        assert(m.holds(i, key));
        if keep(key, m.slots[i]->0.entry) {
            assert(after.holds(i, key));
        }
    }
}

/// An accepted insertion adds one pair to the map from keys to entries, and
/// a removal takes the key's pair out of it.
pub proof fn lemma_entries_follow(m: CacheModel, key: Seq<char>, entry: MediaMeta)
    requires
        m.wf(),
    ensures
        m.insert_result(key) is Ok ==> m.insert(key, entry).entries() == m.entries().insert(
            key,
            entry,
        ),
        m.insert_result(key) is Err ==> m.insert(key, entry).entries() == m.entries(),
        m.remove(key).entries() == m.entries().remove(key),
{
    if m.insert_result(key) is Ok {
        let after = m.insert(key, entry);
        lemma_get_after_insert(m, key, entry);
        assert forall|k: Seq<char>|
            #![trigger after.contains(k)]
            #![trigger m.contains(k)]
            after.get(k) == (if k == key {
                Some(entry)
            } else {
                m.get(k)
            }) by {
            if k != key {
                lemma_insert_keeps_others(m, key, entry, k);
            }
        }
        assert(after.entries() =~= m.entries().insert(key, entry));
    }
    let gone = m.remove(key);
    assert forall|k: Seq<char>|
        #![trigger gone.contains(k)]
        #![trigger m.contains(k)]
        gone.get(k) == (if k == key {
            None
        } else {
            m.get(k)
        }) by {
        lemma_remove_then_get(m, key, k);
    }
    assert(gone.entries() =~= m.entries().remove(key));
}

} // verus!
