use danse::cache::is_expired;
use danse::cache::rewrite_ttls;
use danse::cache::ResponseCache;
use danse::cache::StoredEntry;
use danse::cache::NANOS_PER_SEC;

fn entry(tag: u8, ttl: u32, stored_at: i64) -> StoredEntry {
    StoredEntry { bytes: vec![tag], ttls: vec![ttl], stored_at }
}

#[test]
fn lru_eviction_prefers_promoted_key() {
    let mut cache = ResponseCache::new(2);
    cache.store("k1".to_string(), entry(1, 60, 0));
    cache.store("k2".to_string(), entry(2, 60, 0));
    assert!(cache.lookup(&"k1".to_string()).is_some());
    cache.store("k3".to_string(), entry(3, 60, 0));
    assert!(cache.lookup(&"k2".to_string()).is_none());
    assert!(cache.lookup(&"k1".to_string()).is_some());
    assert!(cache.lookup(&"k3".to_string()).is_some());
    assert_eq!(cache.len(), 2);
}

#[test]
fn size_never_exceeds_capacity() {
    let mut cache = ResponseCache::new(2);
    for i in 0..5u8 {
        cache.store(format!("key-{}", i), entry(i, 60, 0));
        assert!(cache.len() <= 2);
    }
}

#[test]
fn store_replaces_existing_key() {
    let mut cache = ResponseCache::new(2);
    cache.store("k".to_string(), entry(1, 60, 0));
    cache.store("k".to_string(), entry(2, 90, 5));
    assert_eq!(cache.len(), 1);
    let got = cache.lookup(&"k".to_string()).unwrap();
    assert_eq!(got.bytes, vec![2]);
    assert_eq!(got.ttls, vec![90]);
    assert_eq!(got.stored_at, 5);
}

#[test]
fn evict_removes_and_is_idempotent() {
    let mut cache = ResponseCache::new(2);
    cache.store("k".to_string(), entry(1, 60, 0));
    cache.evict(&"k".to_string());
    assert!(cache.lookup(&"k".to_string()).is_none());
    cache.evict(&"k".to_string());
    assert_eq!(cache.len(), 0);
}

#[test]
fn ttl_rewrite_counts_down() {
    let t0: i64 = 1_000 * NANOS_PER_SEC;
    let now: i64 = t0 + 100 * NANOS_PER_SEC;
    let rewritten = rewrite_ttls(&vec![300], t0, now);
    assert_eq!(rewritten, vec![200]);
}

#[test]
fn ttl_rewrite_truncates_to_whole_seconds() {
    let t0: i64 = 0;
    let now: i64 = 100 * NANOS_PER_SEC + NANOS_PER_SEC / 2;
    let rewritten = rewrite_ttls(&vec![300], t0, now);
    assert_eq!(rewritten, vec![199]);
}

#[test]
fn expiry_is_strict() {
    let t0: i64 = 1_000 * NANOS_PER_SEC;
    assert!(!is_expired(&vec![300], t0, t0 + 300 * NANOS_PER_SEC));
    assert!(is_expired(&vec![300], t0, t0 + 301 * NANOS_PER_SEC));
}

#[test]
fn any_lapsed_answer_expires_the_entry() {
    let t0: i64 = 0;
    let now: i64 = 61 * NANOS_PER_SEC;
    assert!(is_expired(&vec![300, 60], t0, now));
    assert!(!is_expired(&vec![300, 61], t0, now));
}
