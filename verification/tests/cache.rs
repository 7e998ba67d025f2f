use si_registry_rs::cache::FileCache;
use std::time::Duration;

fn new_cache() -> FileCache {
    FileCache::empty("cache.json")
}

#[test]
fn test_cache_set_get() {
    let mut cache = new_cache();
    cache.set("key1", "value1", Duration::from_secs(60));
    assert_eq!(cache.get("key1"), Some("value1".to_string()));
}

#[test]
fn test_cache_miss() {
    let mut cache = new_cache();
    assert_eq!(cache.get("nonexistent"), None);
}

#[test]
fn test_cache_ttl_expired() {
    let mut cache = new_cache();
    // 10 ms is zero whole seconds: the entry has expired by the next read
    cache.set("short", "data", Duration::from_millis(10));
    assert_eq!(cache.get("short"), None);
}

#[test]
fn test_cache_overwrite() {
    let mut cache = new_cache();
    cache.set("key", "v1", Duration::from_secs(60));
    cache.set("key", "v2", Duration::from_secs(60));
    assert_eq!(cache.get("key"), Some("v2".to_string()));
}

#[test]
fn test_cache_remove() {
    let mut cache = new_cache();
    cache.set("key", "val", Duration::from_secs(60));
    cache.remove("key");
    assert_eq!(cache.get("key"), None);
}

#[test]
fn test_cache_clear() {
    let mut cache = new_cache();
    cache.set("a", "1", Duration::from_secs(60));
    cache.set("b", "2", Duration::from_secs(60));
    cache.clear();
    assert!(cache.is_empty());
}

#[test]
fn test_cache_len() {
    let mut cache = new_cache();
    assert!(cache.is_empty());
    cache.set("a", "1", Duration::from_secs(60));
    cache.set("b", "2", Duration::from_secs(60));
    assert_eq!(cache.len(), 2);
}

#[test]
fn test_cache_contains_key() {
    let mut cache = new_cache();
    cache.set("key", "val", Duration::from_secs(60));
    assert!(cache.contains_key("key"));
    assert!(!cache.contains_key("other"));
}

#[test]
fn test_cache_purge_expired() {
    let mut cache = new_cache();
    cache.set("expire_me", "gone", Duration::from_millis(10));
    cache.set("keep_me", "here", Duration::from_secs(300));
    cache.purge_expired();
    assert_eq!(cache.len(), 1);
    assert_eq!(cache.get("keep_me"), Some("here".to_string()));
}

/// Writes `cache` out and reads it back, as the cache file does.
fn reload(cache: &FileCache) -> FileCache {
    let mut reloaded = FileCache::empty(cache.path());
    for (key, value, expires_at) in cache.entries() {
        reloaded.restore(&key, &value, expires_at);
    }
    reloaded
}

#[test]
fn test_cache_persist_and_reload() {
    // Write
    let mut cache = new_cache();
    cache.set("persisted", "yes", Duration::from_secs(300));

    // Reload
    let mut cache2 = reload(&cache);
    assert_eq!(cache2.get("persisted"), Some("yes".to_string()));
}

#[test]
fn test_cache_creates_parent_dirs() {
    // a cache for a file in nested directories works as any other; creating the
    // directories belongs to opening the cache file
    let mut cache = FileCache::empty("a/b/c/cache.json");
    cache.set("x", "y", Duration::from_secs(10));
    assert_eq!(cache.get("x"), Some("y".to_string()));
}

#[test]
fn cache_get_at_serves_until_expiry() {
    let mut cache = new_cache();
    cache.set_at("k", "v", 10, 1000);
    assert_eq!(cache.get_at("k", 1000), Some("v".to_string()));
    assert_eq!(cache.get_at("k", 1009), Some("v".to_string()));
    assert_eq!(cache.raw_len(), 1);
    assert_eq!(cache.get_at("k", 1010), None);
    // the expired entry was dropped by the lookup
    assert_eq!(cache.raw_len(), 0);
}

#[test]
fn cache_zero_ttl_expires_at_once() {
    let mut cache = new_cache();
    cache.set_at("k", "v", 0, 500);
    assert_eq!(cache.get_at("k", 500), None);
}

#[test]
fn cache_set_leaves_other_keys() {
    let mut cache = new_cache();
    cache.set_at("a", "1", 100, 0);
    cache.set_at("b", "2", 100, 0);
    cache.set_at("a", "3", 100, 0);
    assert_eq!(cache.get_at("b", 50), Some("2".to_string()));
    assert_eq!(cache.get_at("a", 50), Some("3".to_string()));
}

#[test]
fn cache_len_at_counts_live_entries() {
    let mut cache = new_cache();
    cache.set_at("old", "x", 5, 0);
    cache.set_at("new", "y", 50, 0);
    assert_eq!(cache.raw_len(), 2);
    assert_eq!(cache.len_at(10), 1);
    assert_eq!(cache.raw_len(), 1);
    assert_eq!(cache.get_at("new", 10), Some("y".to_string()));
}

#[test]
fn cache_purge_expired_at_keeps_live() {
    let mut cache = new_cache();
    cache.set_at("a", "1", 5, 0);
    cache.set_at("b", "2", 10, 0);
    cache.set_at("c", "3", 20, 0);
    cache.purge_expired_at(10);
    assert_eq!(cache.raw_len(), 1);
    assert_eq!(cache.get_at("c", 10), Some("3".to_string()));
}

#[test]
fn cache_restore_and_entries_round_trip() {
    let mut cache = new_cache();
    cache.restore("x", "1", 77);
    cache.restore("y", "2", 88);
    cache.restore("x", "3", 99);
    let mut entries = cache.entries();
    entries.sort();
    assert_eq!(
        entries,
        vec![
            ("x".to_string(), "3".to_string(), 99),
            ("y".to_string(), "2".to_string(), 88)
        ]
    );
    assert_eq!(cache.path(), "cache.json");
}

#[test]
fn cache_remove_missing_key_is_noop() {
    let mut cache = new_cache();
    cache.set_at("a", "1", 5, 0);
    cache.remove("b");
    assert_eq!(cache.raw_len(), 1);
}

#[test]
fn cache_set_with_huge_ttl_leaves_cache_unchanged() {
    let mut cache = new_cache();
    cache.set("k", "v", Duration::from_secs(u64::MAX));
    assert_eq!(cache.raw_len(), 0);
}

#[test]
fn cache_set_uses_whole_seconds_of_ttl() {
    let mut cache = new_cache();
    cache.set("k", "v", Duration::from_secs(3600));
    let entries = cache.entries();
    assert_eq!(entries.len(), 1);
    let (key, value, expires_at) = &entries[0];
    assert_eq!((key.as_str(), value.as_str()), ("k", "v"));
    let now = std::time::SystemTime::now()
        .duration_since(std::time::UNIX_EPOCH)
        .unwrap()
        .as_secs();
    assert!(*expires_at >= now + 3599 && *expires_at <= now + 3600);
}

#[test]
fn cache_set_with_ttl_at_uses_whole_seconds() {
    let mut cache = new_cache();
    cache.set_with_ttl_at("k", "v", Duration::from_millis(2500), 100);
    assert_eq!(cache.entries(), vec![("k".to_string(), "v".to_string(), 102)]);
    cache.set_with_ttl_at("big", "v", Duration::from_secs(u64::MAX), 1);
    assert_eq!(cache.raw_len(), 1);
}
