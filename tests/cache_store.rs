use std::cell::Cell;

use public_appservice::cache::{cache_key, should_refresh, CacheError, CacheKey, TtlCache};
use public_appservice::proxy::proxy_cache_key;

#[test]
fn stored_value_reads_back_until_expiry() {
    let mut c = TtlCache::new();
    c.cache_data("k", &vec![1, 2, 3], 10, 100);
    assert_eq!(c.get_cached_data("k", 100), Some(vec![1, 2, 3]));
    assert_eq!(c.get_cached_data("k", 109), Some(vec![1, 2, 3]));
    assert_eq!(c.get_cached_data("k", 110), None);
    assert_eq!(c.get_cached_data("other", 100), None);
}

#[test]
fn set_replaces_and_delete_removes() {
    let mut c = TtlCache::new();
    c.cache_data("k", &vec![1], 10, 0);
    c.cache_data("k", &vec![2], 10, 0);
    c.cache_data("j", &vec![3], 10, 0);
    assert_eq!(c.get_cached_data("k", 1), Some(vec![2]));
    c.delete_cached_data("k");
    assert_eq!(c.get_cached_data("k", 1), None);
    assert_eq!(c.get_cached_data("j", 1), Some(vec![3]));
    c.delete_cached_data("absent");
    assert_eq!(c.get_cached_data("j", 1), Some(vec![3]));
}

#[test]
fn ttl_remaining_reports_minus_two_when_missing() {
    let mut c = TtlCache::new();
    assert_eq!(c.ttl_remaining("k", 5), -2);
    c.cache_data("k", &vec![1], 10, 5);
    assert_eq!(c.ttl_remaining("k", 7), 8);
    assert_eq!(c.ttl_remaining("k", 15), -2);
    c.cache_data("big", &vec![1], u64::MAX, 5);
    assert_eq!(c.ttl_remaining("big", 5), i64::MAX);
}

#[test]
fn threshold_write_only_when_nearly_expired() {
    let mut c = TtlCache::new();
    assert_eq!(c.cache_with_ttl_threshold("k", &vec![1], 100, 30, 0), Ok(()));
    assert_eq!(c.cache_with_ttl_threshold("k", &vec![2], 100, 30, 10), Err(CacheError::NotExpiring));
    assert_eq!(c.get_cached_data("k", 10), Some(vec![1]));
    assert_eq!(c.cache_with_ttl_threshold("k", &vec![3], 100, 30, 80), Ok(()));
    assert_eq!(c.get_cached_data("k", 80), Some(vec![3]));
    assert!(should_refresh(-2, 0));
    assert!(should_refresh(5, 6));
    assert!(!should_refresh(6, 6));
}

#[test]
fn cached_route_fetches_once_until_deleted() {
    let mut c = TtlCache::new();
    let calls = Cell::new(0);
    let key = proxy_cache_key("https://hs.example.org/_matrix/client/v3/rooms/!r:example.org/state");
    let fetch = || {
        calls.set(calls.get() + 1);
        Ok::<Vec<u8>, ()>(b"[]".to_vec())
    };
    assert_eq!(c.cache_or_fetch(&key, 60, 0, fetch), Ok(b"[]".to_vec()));
    assert_eq!(c.cache_or_fetch(&key, 60, 5, fetch), Ok(b"[]".to_vec()));
    assert_eq!(calls.get(), 1);
    c.delete_cached_data(&key);
    assert_eq!(c.cache_or_fetch(&key, 60, 6, fetch), Ok(b"[]".to_vec()));
    assert_eq!(calls.get(), 2);
}

#[test]
fn failed_fetch_is_not_cached() {
    let mut c = TtlCache::new();
    assert_eq!(c.cache_or_fetch("k", 60, 0, || Err::<Vec<u8>, &str>("down")), Err("down"));
    assert_eq!(c.get_cached_data("k", 0), None);
}

#[test]
fn cold_concurrent_misses_each_fetch() {
    // Two requests for the directory arrive before either has written the
    // cache: both miss, both fetch, both write.
    let mut c = TtlCache::new();
    let mut fetches = 0;
    let first_sees = c.get_cached_data("public_rooms", 0);
    let second_sees = c.get_cached_data("public_rooms", 0);
    for seen in [first_sees, second_sees] {
        if seen.is_none() {
            fetches += 1;
            c.cache_data("public_rooms", &b"{\"rooms\":[]}".to_vec(), 60, 0);
        }
    }
    assert_eq!(fetches, 2);
    assert_eq!(c.get_cached_data("public_rooms", 1), Some(b"{\"rooms\":[]}".to_vec()));
}

#[test]
fn cache_keys_are_namespaced() {
    assert_eq!(cache_key("appservice:joined", "!r:example.org"), "appservice:joined:!r:example.org");
    assert_eq!(("space_summary", "lobby").cache_key(), "space_summary:lobby");
    assert_eq!(("space_rooms", "lobby".to_string()).cache_key(), "space_rooms:lobby");
    assert_eq!("public_rooms".cache_key(), "public_rooms");
    assert_eq!("public_spaces".to_string().cache_key(), "public_spaces");
}
