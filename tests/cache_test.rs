use nnoe_agent::cache::{CacheError, CacheManager};
use nnoe_agent::config::CacheConfig;

fn open(path: &str, ttl: u64, max_mb: u64) -> CacheManager {
    let config = CacheConfig { path: path.to_string(), default_ttl_secs: ttl, max_size_mb: max_mb };
    let mut cache = CacheManager::new(&config).unwrap();
    cache.clear().unwrap();
    cache
}

#[test]
fn cache_test_test_cache_put_get() {
    let mut cache = open("/tmp/test-cache-put-get", 60, 10);
    cache.put("test-key", b"test-value", 1000).unwrap();
    let value = cache.get("test-key", 1000).unwrap();
    assert_eq!(value, Some(b"test-value".to_vec()));
}

#[test]
fn test_cache_ttl_expiry() {
    let mut cache = open("/tmp/test-cache-ttl", 1, 10);
    cache.put("test-key", b"test-value", 1000).unwrap();
    assert!(cache.get("test-key", 1000).unwrap().is_some());
    assert!(cache.get("test-key", 1002).unwrap().is_none());
}

#[test]
fn cache_test_test_cache_delete() {
    let mut cache = open("/tmp/test-cache-delete", 60, 10);
    cache.put("test-key", b"test-value", 1000).unwrap();
    cache.delete("test-key").unwrap();
    assert_eq!(cache.get("test-key", 1000).unwrap(), None);
}

#[test]
fn test_cache_list_prefix() {
    let mut cache = open("/tmp/test-cache-list", 60, 10);
    cache.put("prefix/key1", b"value1", 1000).unwrap();
    cache.put("prefix/key2", b"value2", 1000).unwrap();
    cache.put("other/key3", b"value3", 1000).unwrap();
    let results = cache.list_prefix("prefix/", 1000).unwrap();
    assert_eq!(results.len(), 2);
}

#[test]
fn test_cache_prefix_list() {
    let mut cache = open("/tmp/nnoe-test-cache-prefix", 300, 10);
    cache.put("prefix/key1", b"value1", 1000).unwrap();
    cache.put("prefix/key2", b"value2", 1000).unwrap();
    cache.put("other/key", b"value3", 1000).unwrap();
    let results = cache.list_prefix("prefix/", 1000).unwrap();
    assert_eq!(results.len(), 2);
}

#[test]
fn cache_test_test_cache_clear() {
    let mut cache = open("/tmp/test-cache-clear", 60, 10);
    cache.put("key1", b"value1", 1000).unwrap();
    cache.put("key2", b"value2", 1000).unwrap();
    cache.clear().unwrap();
    assert_eq!(cache.size(), 0);
}

#[test]
fn cache_ttl_scenario_one_second() {
    let mut cache = open("/tmp/nnoe-test-cache-s5", 1, 10);
    cache.put("k", b"v", 0).unwrap();
    assert_eq!(cache.get("k", 0).unwrap(), Some(b"v".to_vec()));
    assert_eq!(cache.get("k", 1).unwrap(), Some(b"v".to_vec()));
    assert_eq!(cache.get("k", 2).unwrap(), None);
    // The expired entry was removed on the way.
    assert_eq!(cache.size(), 0);
}

#[test]
fn cache_sweep_removes_only_expired() {
    let mut cache = open("/tmp/nnoe-test-cache-sweep", 10, 10);
    cache.put("old", b"1", 100).unwrap();
    cache.put("new", b"2", 195).unwrap();
    cache.sweep_expired(200).unwrap();
    assert_eq!(cache.size(), 1);
    assert_eq!(cache.get("new", 200).unwrap(), Some(b"2".to_vec()));
    assert_eq!(cache.get("old", 200).unwrap(), None);
}

#[test]
fn cache_size_limit_evicts_oldest_first() {
    // A zero cap evicts everything; entries of 16 + value + key bytes each.
    let mut cache = open("/tmp/nnoe-test-cache-cap0", 1000, 0);
    cache.put("a", b"x", 1).unwrap();
    cache.put("b", b"y", 2).unwrap();
    cache.enforce_size_limit().unwrap();
    assert_eq!(cache.size(), 0);
    let mut roomy = open("/tmp/nnoe-test-cache-cap1", 1000, 1);
    roomy.put("a", b"x", 1).unwrap();
    roomy.put("b", b"y", 2).unwrap();
    roomy.enforce_size_limit().unwrap();
    assert_eq!(roomy.size(), 2);
    let _ = CacheError::Store;
}
