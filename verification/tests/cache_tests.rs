use donations::cache::{cached_snapshot, refresh_snapshot, CacheEntry, CacheStore, CACHE_TTL_MILLIS};
use donations::money::Money;
use donations::snapshot::build_snapshot;

#[test]
fn empty_store_has_nothing() {
    let store = CacheStore::new();
    assert!(store.lookup("org").is_none());
    assert!(cached_snapshot(&store, "org", 0).is_none());
}

#[test]
fn fresh_hit_returns_identical_snapshot() {
    let mut store = CacheStore::new();
    let first = refresh_snapshot(&mut store, "org", "Raised: $250 of $1,000 goal", 1_000);
    // A second request 30 seconds later is answered from the store:
    // the very same snapshot, its fetched_at stamp included.
    let second = cached_snapshot(&store, "org", 31_000).expect("entry should still be fresh");
    assert_eq!(second.fetched_at, first.fetched_at);
    assert_eq!(second.raised_text, first.raised_text);
    assert_eq!(second.goal_text, first.goal_text);
    assert_eq!(second.raised, first.raised);
    assert_eq!(second.goal, first.goal);
    assert_eq!(second.progress_percent, first.progress_percent);
    assert_eq!(second.source_url, first.source_url);
}

#[test]
fn entry_goes_stale_after_ttl() {
    let mut store = CacheStore::new();
    refresh_snapshot(&mut store, "org", "$250 of $1,000", 1_000);
    // One millisecond before the window closes: still fresh.
    assert!(cached_snapshot(&store, "org", 1_000 + CACHE_TTL_MILLIS - 1).is_some());
    // The moment the window closes: stale, so the caller must refetch.
    assert!(cached_snapshot(&store, "org", 1_000 + CACHE_TTL_MILLIS).is_none());
}

#[test]
fn refetch_after_ttl_stores_new_stamp() {
    let mut store = CacheStore::new();
    refresh_snapshot(&mut store, "org", "$250 of $1,000", 1_000);
    let later = 1_000 + CACHE_TTL_MILLIS + 5;
    assert!(cached_snapshot(&store, "org", later).is_none());
    refresh_snapshot(&mut store, "org", "$300 of $1,000", later);
    let entry = store.lookup("org").expect("entry should exist");
    assert_eq!(entry.stamp_millis, later);
    assert_eq!(entry.snapshot.raised, Money { mantissa: 300, scale: 0 });
    assert!(cached_snapshot(&store, "org", later + 1).is_some());
}

#[test]
fn distinct_keys_do_not_interfere() {
    let mut store = CacheStore::new();
    refresh_snapshot(&mut store, "alpha", "$100 of $400", 1_000);
    refresh_snapshot(&mut store, "beta", "$9 of $10", 2_000);
    let alpha = store.lookup("alpha").expect("alpha should be stored");
    let beta = store.lookup("beta").expect("beta should be stored");
    assert_eq!(alpha.stamp_millis, 1_000);
    assert_eq!(beta.stamp_millis, 2_000);
    assert_eq!(alpha.snapshot.raised, Money { mantissa: 100, scale: 0 });
    assert_eq!(beta.snapshot.raised, Money { mantissa: 9, scale: 0 });
    // Overwriting one key leaves the other exactly as it was.
    refresh_snapshot(&mut store, "alpha", "$200 of $400", 3_000);
    let beta_after = store.lookup("beta").expect("beta should be untouched");
    assert_eq!(beta_after.stamp_millis, 2_000);
    assert_eq!(beta_after.snapshot.raised, Money { mantissa: 9, scale: 0 });
}

#[test]
fn put_supersedes_older_entry() {
    let mut store = CacheStore::new();
    let old_snap = build_snapshot("$1", String::from("t1"), String::from("u"));
    let new_snap = build_snapshot("$2", String::from("t2"), String::from("u"));
    store.put("org", CacheEntry { stamp_millis: 10, snapshot: old_snap });
    store.put("org", CacheEntry { stamp_millis: 20, snapshot: new_snap });
    let entry = store.lookup("org").expect("entry should exist");
    assert_eq!(entry.stamp_millis, 20);
    assert_eq!(entry.snapshot.raised, Money { mantissa: 2, scale: 0 });
    assert_eq!(entry.snapshot.fetched_at, "t2");
}
