use chestlog::token::UnverifiedTokenCache;

#[test]
fn unverified_token_cache() {
    let mut cache = UnverifiedTokenCache::new(10);
    let token = cache.generate(1000, "username".into(), 0);
    assert_eq!(cache.verify(1000, token, 0), Some("username".into()));
    assert!(cache.is_empty());
}

#[test]
fn unverified_token_cache_timeout() {
    let mut cache = UnverifiedTokenCache::new(1);
    let token = cache.generate(1000, "username".into(), 0);
    assert_eq!(cache.verify(1000, token, 100), None);
    assert!(cache.is_empty());
}

#[test]
fn token_is_single_use() {
    let mut cache = UnverifiedTokenCache::new(10_000);
    let token = cache.generate(7, "alice".into(), 0);
    assert_eq!(cache.verify(7, token, 1), Some("alice".into()));
    assert_eq!(cache.verify(7, token, 2), None);
}

#[test]
fn token_live_at_ttl_boundary() {
    // An entry is evicted once created + ttl < now: at now == created + ttl
    // it still verifies, one tick later it does not.
    let mut cache = UnverifiedTokenCache::new(10);
    let token = cache.generate(1, "bob".into(), 0);
    assert_eq!(cache.verify(1, token, 10), Some("bob".into()));
    let token = cache.generate(1, "bob".into(), 10);
    assert_eq!(cache.verify(1, token, 21), None);
}

#[test]
fn wrong_pair_is_rejected() {
    let mut cache = UnverifiedTokenCache::new(100);
    let token = cache.generate(1, "carol".into(), 0);
    assert_eq!(cache.verify(2, token, 0), None);
    assert_eq!(cache.verify(1, token.wrapping_add(1), 0), None);
    // The real pair is still there after the failed lookups.
    assert_eq!(cache.verify(1, token, 0), Some("carol".into()));
}

#[test]
fn multiple_tokens_per_user() {
    let mut cache = UnverifiedTokenCache::new(1000);
    let t1 = cache.generate(5, "dave".into(), 0);
    let t2 = cache.generate(5, "dave".into(), 1);
    if t1 != t2 {
        assert_eq!(cache.verify(5, t2, 2), Some("dave".into()));
        assert_eq!(cache.verify(5, t1, 3), Some("dave".into()));
    }
}

#[test]
fn cleanup_evicts_only_stale_entries() {
    // Entries created at 0, 5 and 10 with a ttl of 10: at now == 14 the
    // first is stale (0 + 10 < 14), the later two are still live.
    let mut cache = UnverifiedTokenCache::new(10);
    let t0 = cache.generate(1, "a".into(), 0);
    let t5 = cache.generate(2, "b".into(), 5);
    let t10 = cache.generate(3, "c".into(), 10);
    cache.clean_up(14);
    assert_eq!(cache.len(), 2);
    assert_eq!(cache.verify(1, t0, 14), None);
    assert_eq!(cache.verify(2, t5, 14), Some("b".into()));
    assert_eq!(cache.verify(3, t10, 14), Some("c".into()));
}
