use dex_mcp_server::cache::timed_cache::CacheState;
use dex_mcp_server::TimedCache;

#[test]
fn test_insert_and_get() {
    let cache = TimedCache::new(60);
    cache.insert("key1", "value1");

    assert_eq!(cache.get(&"key1"), Some("value1"));
    assert_eq!(cache.get(&"key2"), None);
}

#[test]
fn test_contains_key() {
    let cache = TimedCache::new(60);
    cache.insert("key1", "value1");

    assert!(cache.contains_key(&"key1"));
    assert!(!cache.contains_key(&"key2"));
}

#[test]
fn test_remove() {
    let cache = TimedCache::new(60);
    cache.insert("key1", "value1");
    cache.insert("key2", "value2");

    assert_eq!(cache.len(), 2);

    cache.remove(&"key1");

    assert_eq!(cache.get(&"key1"), None);
    assert_eq!(cache.get(&"key2"), Some("value2"));
    assert_eq!(cache.len(), 1);
}

#[test]
fn test_clear() {
    let cache = TimedCache::new(60);
    cache.insert("key1", "value1");
    cache.insert("key2", "value2");

    assert_eq!(cache.len(), 2);

    cache.clear();

    assert_eq!(cache.len(), 0);
    assert!(cache.is_empty());
}

#[test]
fn test_update_value() {
    let cache = TimedCache::new(60);
    cache.insert("key1", "value1");
    assert_eq!(cache.get(&"key1"), Some("value1"));

    cache.insert("key1", "value2");
    assert_eq!(cache.get(&"key1"), Some("value2"));
}

#[test]
fn test_clone_cache() {
    let cache1 = TimedCache::new(60);
    cache1.insert("key1", "value1");

    let cache2 = cache1.clone();
    assert_eq!(cache2.get(&"key1"), Some("value1"));

    cache2.insert("key2", "value2");
    assert_eq!(cache1.get(&"key2"), Some("value2"));
}

#[test]
fn test_debug_format() {
    let cache: TimedCache<&str, &str> = TimedCache::new(60);
    cache.insert("key1", "value1");

    let debug_str = cache.describe();
    assert!(debug_str.contains("TimedCache"));
    assert!(debug_str.contains("ttl"));
}

#[test]
fn ttl_expiry_with_explicit_clock() {
    // the functional core takes the time as an argument, so expiry needs no
    // real waiting: insert at t=0 with a 1000 ms ttl, read before and after
    let mut state: CacheState<String, u64> = CacheState::new(1000);
    state.insert_at("k".to_string(), 7, 0);
    assert_eq!(state.get_at(&"k".to_string(), 999).copied(), Some(7));
    assert_eq!(state.get_at(&"k".to_string(), 1000).copied(), None);
    assert_eq!(state.len(), 1);
    state.cleanup_expired_at(1000);
    assert_eq!(state.len(), 0);
}

#[test]
fn cleanup_keeps_fresh_entries() {
    let mut state: CacheState<String, u64> = CacheState::new(1000);
    state.insert_at("old".to_string(), 1, 0);
    state.insert_at("new".to_string(), 2, 900);
    state.cleanup_expired_at(1100);
    assert_eq!(state.len(), 1);
    assert_eq!(state.get_at(&"new".to_string(), 1100).copied(), Some(2));
}

#[test]
fn reinsert_resets_timestamp() {
    let mut state: CacheState<String, u64> = CacheState::new(1000);
    state.insert_at("k".to_string(), 1, 0);
    state.insert_at("k".to_string(), 2, 800);
    assert_eq!(state.get_at(&"k".to_string(), 1500).copied(), Some(2));
    assert_eq!(state.len(), 1);
}
