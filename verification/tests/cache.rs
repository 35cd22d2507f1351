use buo::prelude::IoKind;
use buo::util::cache::local::{retrieve_or_init_cache, PersistentCache, MAX_CACHE_SIZE};
use buo::util::cache::model::CacheError;
use buo::util::cache::store::{is_init_candidate, CacheParts, Retrieved, StoreFailure};
use buo::util::media::meta::MediaMeta;

fn meta(name: &str) -> MediaMeta {
    MediaMeta::with_file_name(name.to_string())
}

fn name_of(found: Option<&MediaMeta>) -> Option<String> {
    found.map(|m| m.file_name.clone())
}

#[test]
fn full_cache_refuses_then_reuses_freed_slot() {
    let mut cache = PersistentCache::with_capacity(3);
    assert_eq!(cache.insert("a", meta("a")), Ok(()));
    assert_eq!(cache.insert("b", meta("b")), Ok(()));
    assert_eq!(cache.insert("c", meta("c")), Ok(()));
    assert_eq!(cache.insert("d", meta("d")), Err(CacheError::CacheFull));
    assert_eq!(name_of(cache.get("d")), None);
    assert_eq!(cache.remove("a").map(|m| m.file_name), Some("a".to_string()));
    assert_eq!(cache.insert("d", meta("d")), Ok(()));
    assert_eq!(name_of(cache.get("d")), Some("d".to_string()));
    let parts = cache.into_parts();
    assert_eq!(parts.entries[0].as_ref().map(|m| m.file_name.clone()), Some("d".to_string()));
    assert!(parts.lookup.contains(&("d".to_string(), 0)));
}

#[test]
fn retain_removes_rejected_key() {
    let mut cache = PersistentCache::with_capacity(2);
    assert_eq!(cache.insert("x", meta("e1")), Ok(()));
    cache.retain(|k, _| k != "x");
    assert!(cache.get("x").is_none());
    assert_eq!(cache.insert("x", meta("e2")), Ok(()));
    assert_eq!(name_of(cache.get("x")), Some("e2".to_string()));
}

#[test]
fn retain_keeps_accepted_keys_and_hands_the_entry_to_the_predicate() {
    let mut cache = PersistentCache::with_capacity(4);
    cache.insert("a", meta("keep")).unwrap();
    cache.insert("b", meta("drop")).unwrap();
    cache.insert("c", meta("keep")).unwrap();
    cache.retain(|_, e| e.map(|m| m.file_name == "keep").unwrap_or(false));
    assert_eq!(name_of(cache.get("a")), Some("keep".to_string()));
    assert!(cache.get("b").is_none());
    assert_eq!(name_of(cache.get("c")), Some("keep".to_string()));
}

#[test]
fn get_of_a_key_never_inserted_is_none() {
    let mut cache = PersistentCache::with_capacity(4);
    assert!(cache.get("k").is_none());
    cache.insert("other", meta("o")).unwrap();
    cache.remove("other");
    assert!(cache.get("k").is_none());
    assert!(cache.remove("k").is_none());
}

#[test]
fn insert_then_get_returns_the_entry() {
    let mut cache = PersistentCache::new();
    assert_eq!(cache.capacity(), MAX_CACHE_SIZE);
    assert_eq!(cache.capacity(), 1200);
    assert_eq!(cache.insert("k", meta("e")), Ok(()));
    assert_eq!(name_of(cache.get("k")), Some("e".to_string()));
}

#[test]
fn second_insert_is_a_duplicate_and_keeps_the_first_entry() {
    let mut cache = PersistentCache::with_capacity(4);
    assert_eq!(cache.insert("k", meta("e1")), Ok(()));
    assert_eq!(cache.insert("k", meta("e2")), Err(CacheError::DuplicateKey));
    assert_eq!(name_of(cache.get("k")), Some("e1".to_string()));
}

#[test]
fn duplicate_is_reported_before_full() {
    let mut cache = PersistentCache::with_capacity(1);
    assert_eq!(cache.insert("k", meta("e1")), Ok(()));
    assert_eq!(cache.insert("k", meta("e2")), Err(CacheError::DuplicateKey));
    assert_eq!(cache.insert("l", meta("e3")), Err(CacheError::CacheFull));
}

#[test]
fn cache_without_slots_is_always_full() {
    let mut cache = PersistentCache::with_capacity(0);
    assert_eq!(cache.insert("k", meta("e")), Err(CacheError::CacheFull));
    assert!(cache.get("k").is_none());
}

#[test]
fn remove_after_insert_returns_the_entry() {
    let mut cache = PersistentCache::with_capacity(4);
    cache.insert("k", meta("e")).unwrap();
    assert_eq!(cache.remove("k").map(|m| m.file_name), Some("e".to_string()));
    assert!(cache.get("k").is_none());
    assert!(cache.remove("k").is_none());
}

#[test]
fn cursor_wraps_to_the_start() {
    let mut cache = PersistentCache::with_capacity(3);
    cache.insert("a", meta("a")).unwrap();
    cache.insert("b", meta("b")).unwrap();
    cache.remove("a");
    // The cursor stands at slot 2: "c" goes there, then "d" wraps to slot 0.
    cache.insert("c", meta("c")).unwrap();
    cache.insert("d", meta("d")).unwrap();
    let parts = cache.into_parts();
    let names: Vec<Option<String>> =
        parts.entries.iter().map(|e| e.as_ref().map(|m| m.file_name.clone())).collect();
    assert_eq!(names, vec![Some("d".to_string()), Some("b".to_string()), Some("c".to_string())]);
    assert_eq!(parts.cursor, 1);
}

#[test]
fn batch_query_returns_the_present_subset() {
    let mut cache = PersistentCache::with_capacity(4);
    cache.insert("a", meta("ea")).unwrap();
    cache.insert("b", meta("eb")).unwrap();
    cache.insert("c", meta("ec")).unwrap();
    assert!(cache.batch_query(&["x", "y"]).is_none());
    assert!(cache.batch_query(&[]).is_none());
    let found = cache.batch_query(&["c", "x", "a", "c"]).unwrap();
    let names: Vec<&str> = found.iter().map(|m| m.file_name.as_str()).collect();
    assert_eq!(names, vec!["ea", "ec"]);
}

#[test]
fn stored_cache_comes_back_the_same() {
    let mut cache = PersistentCache::with_capacity(3);
    cache.insert("a", meta("ea")).unwrap();
    cache.insert("b", meta("eb")).unwrap();
    cache.remove("a");
    let parts = cache.into_parts();
    assert_eq!(parts.cursor, 2);
    assert_eq!(parts.lookup, vec![("b".to_string(), 1)]);
    let back = PersistentCache::from_parts(parts).ok().unwrap();
    assert_eq!(back.capacity(), 3);
    assert!(back.get("a").is_none());
    assert_eq!(name_of(back.get("b")), Some("eb".to_string()));
}

fn parts(lookup: Vec<(&str, usize)>, cursor: usize, entries: Vec<Option<&str>>) -> CacheParts {
    CacheParts {
        lookup: lookup.into_iter().map(|(k, i)| (k.to_string(), i)).collect(),
        cursor,
        entries: entries.into_iter().map(|e| e.map(meta)).collect(),
    }
}

#[test]
fn unsound_parts_are_a_corrupt_store() {
    let corrupt = |p: CacheParts| match PersistentCache::from_parts(p) {
        Err(e) => e == StoreFailure::CorruptStore,
        Ok(_) => false,
    };
    // the cursor lies past the last slot
    assert!(corrupt(parts(vec![], 2, vec![None, None])));
    // a pair names a slot that is not there
    assert!(corrupt(parts(vec![("a", 5)], 0, vec![None, None])));
    // a pair names a free slot
    assert!(corrupt(parts(vec![("a", 1)], 0, vec![Some("ea"), None])));
    // an entry that no pair names
    assert!(corrupt(parts(vec![], 0, vec![Some("ea"), None])));
    // two keys for one slot
    assert!(corrupt(parts(vec![("a", 0), ("b", 0)], 0, vec![Some("ea"), None])));
    // one key for two slots
    assert!(corrupt(parts(vec![("a", 0), ("a", 1)], 0, vec![Some("ea"), Some("eb")])));
    assert!(PersistentCache::from_parts(parts(vec![("a", 1)], 0, vec![None, Some("ea")])).is_ok());
    assert!(PersistentCache::from_parts(parts(vec![], 0, vec![])).is_ok());
}

#[test]
fn unusable_store_is_replaced_or_reported() {
    for kind in [
        IoKind::NotFound,
        IoKind::PermissionDenied,
        IoKind::AlreadyExists,
        IoKind::InvalidInput,
        IoKind::InvalidData,
    ] {
        assert!(is_init_candidate(&StoreFailure::Io(kind)));
        match retrieve_or_init_cache(Err(StoreFailure::Io(kind))) {
            Ok(Retrieved::Fresh(cache)) => {
                assert_eq!(cache.capacity(), MAX_CACHE_SIZE);
                assert!(cache.get("a").is_none());
            }
            _ => panic!("a fresh cache takes the store's place"),
        }
    }
    assert!(!is_init_candidate(&StoreFailure::Io(IoKind::Other)));
    assert!(!is_init_candidate(&StoreFailure::CorruptStore));
    assert!(matches!(
        retrieve_or_init_cache(Err(StoreFailure::Io(IoKind::Other))),
        Err(StoreFailure::Io(IoKind::Other))
    ));
    assert!(matches!(
        retrieve_or_init_cache(Err(StoreFailure::CorruptStore)),
        Err(StoreFailure::CorruptStore)
    ));
    assert!(matches!(
        retrieve_or_init_cache(Ok(parts(vec![("a", 0)], 0, vec![None]))),
        Err(StoreFailure::CorruptStore)
    ));
    match retrieve_or_init_cache(Ok(parts(vec![("a", 0)], 0, vec![Some("ea")]))) {
        Ok(Retrieved::Stored(cache)) => assert_eq!(name_of(cache.get("a")), Some("ea".to_string())),
        _ => panic!("sound parts are the stored cache"),
    }
}
