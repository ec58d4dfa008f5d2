use fo_data::crawler::{local_batch, Files};
use fo_data::dirs::{DirEntry, Dirs};
use fo_data::registry::{CacheMetadata, DataInitError, FoRegistry};
use fo_data::registry_cache::{FoRegistryCache, CACHE_VERSION};
use fo_data::{ChangeTime, FoArchive, FoMetadata};

fn time(secs: u64, nanos: u32) -> ChangeTime {
    ChangeTime { secs, nanos }
}

fn registry(built: ChangeTime, archive_changed: ChangeTime) -> FoRegistry {
    let local = local_batch(&vec![("a.txt".to_string(), "/r/a.txt".to_string())]);
    let meta = CacheMetadata::new(&local, built);
    FoRegistry::build(
        vec![FoArchive { changed: archive_changed, path: "a.zip".to_string() }],
        vec![],
        local,
        meta,
    )
    .unwrap()
}

#[test]
fn cache_round_trip() {
    let payload = vec![1u8, 2, 3, 250];
    let bytes = FoRegistryCache::new(payload.clone()).to_bytes();
    assert_eq!(&bytes[..10], b"FoRegistry");
    assert_eq!(&bytes[10..14], &CACHE_VERSION.to_le_bytes());
    assert_eq!(bytes.len(), 18);
    let read = FoRegistryCache::from_bytes(&bytes).unwrap();
    assert_eq!(read.header.version, CACHE_VERSION);
    assert_eq!(read.into_data().unwrap(), payload);
}

#[test]
fn cache_rejects_schema_drift() {
    let mut bytes = FoRegistryCache::new(vec![9, 9, 9]).to_bytes();
    bytes[10] = 2;
    let read = FoRegistryCache::from_bytes(&bytes).unwrap();
    assert_eq!(read.header.version, 2);
    assert!(matches!(read.into_data(), Err(DataInitError::CacheIncompatible)));

    let mut bytes = FoRegistryCache::new(vec![]).to_bytes();
    bytes[0] = b'X';
    let read = FoRegistryCache::from_bytes(&bytes).unwrap();
    assert!(matches!(read.into_data(), Err(DataInitError::CacheIncompatible)));
}

#[test]
fn cache_too_short_is_refused() {
    assert!(matches!(
        FoRegistryCache::from_bytes(b"FoRegistry\x01"),
        Err(DataInitError::CacheDeserialize)
    ));
    assert!(FoRegistryCache::from_bytes(b"FoRegistry\x01\0\0\0").unwrap().into_data().unwrap().is_empty());
}

#[test]
fn fresh_cache_is_kept() {
    let reg = registry(time(100, 0), time(50, 0));
    let current = CacheMetadata::new(&local_batch(&vec![("a.txt".to_string(), "/r/a.txt".to_string())]), time(999, 0));
    let kept = reg.validate_cache(time(120, 0), time(90, 0), &current).unwrap();
    assert_eq!(kept.count_archives(), 1);
}

#[test]
fn newer_config_makes_cache_stale() {
    let reg = registry(time(100, 0), time(50, 0));
    let current = CacheMetadata::new(&local_batch(&vec![("a.txt".to_string(), "/r/a.txt".to_string())]), time(0, 0));
    // the floor is the earlier of the cache file's time and the build time
    let r = reg.validate_cache(time(80, 0), time(90, 0), &current);
    assert!(matches!(r, Err(DataInitError::CacheStale)));
    let reg = registry(time(100, 0), time(50, 0));
    let r = reg.validate_cache(time(200, 0), time(100, 1), &current);
    assert!(matches!(r, Err(DataInitError::CacheStale)));
}

#[test]
fn changed_local_tree_makes_cache_stale() {
    let reg = registry(time(100, 0), time(50, 0));
    let other = CacheMetadata::new(&local_batch(&vec![("b.txt".to_string(), "/r/b.txt".to_string())]), time(0, 0));
    assert!(matches!(reg.validate_cache(time(200, 0), time(10, 0), &other), Err(DataInitError::CacheStale)));
    let reg = registry(time(100, 0), time(50, 0));
    let none = CacheMetadata::new(&vec![], time(0, 0));
    assert!(matches!(reg.validate_cache(time(200, 0), time(10, 0), &none), Err(DataInitError::CacheStale)));
}

#[test]
fn newer_archive_makes_cache_stale() {
    let reg = registry(time(100, 0), time(150, 0));
    let current = CacheMetadata::new(&local_batch(&vec![("a.txt".to_string(), "/r/a.txt".to_string())]), time(0, 0));
    assert!(matches!(reg.validate_cache(time(200, 0), time(10, 0), &current), Err(DataInitError::CacheStale)));
}

#[test]
fn fingerprint_depends_on_keys_and_order() {
    let a = local_batch(&vec![("a".to_string(), "/a".to_string()), ("b".to_string(), "/b".to_string())]);
    let b = local_batch(&vec![("b".to_string(), "/b".to_string()), ("a".to_string(), "/a".to_string())]);
    let m1 = CacheMetadata::new(&a, time(1, 0));
    let m2 = CacheMetadata::new(&a, time(2, 0));
    let m3 = CacheMetadata::new(&b, time(1, 0));
    assert_eq!(m1.local_paths_len, 2);
    assert_eq!(m1.local_paths_hash, m2.local_paths_hash);
    assert_ne!(m1.local_paths_hash, m3.local_paths_hash);
}

#[test]
fn change_time_order() {
    assert!(time(1, 5).not_after(&time(1, 5)));
    assert!(time(1, 5).not_after(&time(2, 0)));
    assert!(!time(2, 0).not_after(&time(1, 999)));
    assert_eq!(time(3, 1).min(&time(3, 0)), time(3, 0));
}

#[test]
fn indexes_rebuild_from_entries() {
    let entries = vec![
        DirEntry { parent: String::new(), name: "a".to_string(), kind: FoMetadata::Dir },
        DirEntry { parent: "a".to_string(), name: "b.txt".to_string(), kind: FoMetadata::File },
    ];
    let dirs = Dirs::from_entries(&entries).unwrap();
    assert!(dirs.is_dir("a"));
    assert_eq!(dirs.list("a").unwrap(), vec![("b.txt".to_string(), FoMetadata::File)]);
    let dup = vec![
        DirEntry { parent: "a".to_string(), name: "b".to_string(), kind: FoMetadata::Dir },
        DirEntry { parent: "a".to_string(), name: "b".to_string(), kind: FoMetadata::File },
    ];
    assert!(Dirs::from_entries(&dup).is_none());
    assert!(Files::from_pairs(vec![]).unwrap().count_files() == 0);
}
