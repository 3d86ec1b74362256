use road47::cache::{Cache, CacheEntry};

#[test]
fn cache_entry_fields_and_expiry() {
    let e = CacheEntry::new(vec![1, 2, 3], 100, 50);
    assert!(!e.is_expired(50));
    assert!(!e.is_expired(150));
    assert!(e.is_expired(151));
}

#[test]
fn cache_entry_update_last_accessed() {
    let mut e = CacheEntry::new(vec![9], 10, 0);
    e.update_last_accessed(7);
    assert!(!e.is_expired(10));
    assert!(e.is_expired(11));
}

#[test]
fn get_on_missing_key_misses() {
    let mut c = Cache::new(1000, 4);
    assert_eq!(c.get("nothing", 0), None);
}

#[test]
fn put_then_get_within_ttl_hits() {
    let mut c = Cache::new(1000, 4);
    c.put("k".to_string(), vec![1, 2], 0);
    assert_eq!(c.get("k", 500), Some(vec![1, 2]));
    assert_eq!(c.get("k", 1000), Some(vec![1, 2]));
}

#[test]
fn get_after_ttl_misses_and_removes() {
    let mut c = Cache::new(1000, 4);
    c.put("k".to_string(), vec![1, 2], 0);
    assert_eq!(c.get("k", 1001), None);
    assert_eq!(c.len(), 0);
    assert_eq!(c.get("k", 500), None);
}

#[test]
fn zero_ttl_every_get_misses() {
    let mut c = Cache::new(0, 4);
    c.put("k".to_string(), vec![1], 10);
    assert_eq!(c.get("k", 11), None);
    c.put("k".to_string(), vec![1], 20);
    assert_eq!(c.get("k", 999), None);
}

#[test]
fn overwrite_updates_value() {
    let mut c = Cache::new(1000, 2);
    c.put("k".to_string(), vec![1], 0);
    c.put("k".to_string(), vec![2], 1);
    assert_eq!(c.len(), 1);
    assert_eq!(c.get("k", 2), Some(vec![2]));
}

#[test]
fn size_never_exceeds_capacity() {
    let mut c = Cache::new(10_000, 2);
    c.put("a".to_string(), vec![1], 0);
    c.put("b".to_string(), vec![2], 1);
    c.put("c".to_string(), vec![3], 2);
    c.put("d".to_string(), vec![4], 3);
    assert!(c.len() <= 2);
}

#[test]
fn lru_eviction_scenario() {
    let mut c = Cache::new(10_000, 2);
    c.put("a".to_string(), vec![1], 0);
    c.put("b".to_string(), vec![2], 1);
    assert_eq!(c.get("a", 2), Some(vec![1]));
    c.put("c".to_string(), vec![3], 3);
    assert_eq!(c.get("a", 4), Some(vec![1]));
    assert_eq!(c.get("b", 5), None);
    assert_eq!(c.get("c", 6), Some(vec![3]));
}

#[test]
fn expired_entries_are_purged_on_put() {
    let mut c = Cache::new(10, 3);
    c.put("a".to_string(), vec![1], 0);
    c.put("b".to_string(), vec![2], 0);
    c.put("c".to_string(), vec![3], 100);
    assert_eq!(c.len(), 1);
    assert_eq!(c.get("c", 101), Some(vec![3]));
}
