use public_appservice::proxy::{cors_origins, messages_url};
use public_appservice::config::{Cache, CacheOptions};
use public_appservice::error::AppserviceError;
use public_appservice::ids::alias_candidate;
use public_appservice::ping::TransactionStore;
use public_appservice::proxy::{
    caching_enabled, extract_token, forwarded_headers, is_hop_by_hop_header, join_path,
    membership_check, parse_request_type, path_segments, relayed_headers, rewrite_room_path,
    search_cache_key, search_cache_key_with_digest, store_membership, target_url, token_matches,
    Data, MembershipCheck, ProxyRequestType,
};

fn on(enabled: bool) -> CacheOptions {
    CacheOptions { enabled, expire_after: 300 }
}

fn cache(requests: bool, room_state: bool, messages: bool) -> Cache {
    Cache {
        requests: on(requests),
        public_rooms: on(false),
        room_state: on(room_state),
        messages: on(messages),
        media: on(true),
        search: on(false),
        joined_rooms: on(false),
    }
}

#[test]
fn request_kinds_follow_the_path() {
    assert_eq!(parse_request_type("/_matrix/client/v3/rooms/!r:x/state"), ProxyRequestType::RoomState);
    assert_eq!(parse_request_type("/_matrix/client/v3/rooms/!r:x/messages"), ProxyRequestType::Messages);
    assert_eq!(parse_request_type("/_matrix/client/v1/media/download/x/y"), ProxyRequestType::Media);
    assert_eq!(parse_request_type("/_matrix/client/v3/rooms/!r:x/members"), ProxyRequestType::Other);
    let d = Data::for_path("/_matrix/client/v1/media/thumbnail/a");
    assert!(d.is_media_request);
    assert!(d.modified_path.is_none());
}

#[test]
fn hop_by_hop_headers_in_any_case() {
    assert!(is_hop_by_hop_header("Connection"));
    assert!(is_hop_by_hop_header("TRANSFER-ENCODING"));
    assert!(is_hop_by_hop_header("te"));
    assert!(!is_hop_by_hop_header("content-type"));
    assert!(!is_hop_by_hop_header("authorization"));
}

#[test]
fn headers_are_filtered_both_ways() {
    let h = vec![
        ("content-type".to_string(), "application/json".to_string()),
        ("connection".to_string(), "keep-alive".to_string()),
        ("authorization".to_string(), "Bearer client".to_string()),
        ("Upgrade".to_string(), "h2c".to_string()),
    ];
    assert_eq!(forwarded_headers(&h), vec![("content-type".to_string(), "application/json".to_string())]);
    assert_eq!(
        relayed_headers(&h),
        vec![
            ("content-type".to_string(), "application/json".to_string()),
            ("authorization".to_string(), "Bearer client".to_string()),
        ]
    );
}

#[test]
fn target_url_keeps_query_unless_rewritten() {
    assert_eq!(target_url("https://hs", "/a/b", Some("x=1"), false), "https://hs/a/b?x=1");
    assert_eq!(target_url("https://hs", "/a/b?x=1", Some("x=1"), true), "https://hs/a/b?x=1");
    assert_eq!(target_url("https://hs", "/a/b", None, false), "https://hs/a/b");
}

#[test]
fn caching_needs_both_switches_and_never_media() {
    assert!(caching_enabled(&cache(true, true, false), ProxyRequestType::RoomState));
    assert!(!caching_enabled(&cache(false, true, true), ProxyRequestType::RoomState));
    assert!(!caching_enabled(&cache(true, false, true), ProxyRequestType::RoomState));
    assert!(!caching_enabled(&cache(true, true, false), ProxyRequestType::Messages));
    assert!(!caching_enabled(&cache(true, true, true), ProxyRequestType::Media));
    assert!(caching_enabled(&cache(true, false, false), ProxyRequestType::Other));
}

#[test]
fn search_keys_hash_the_body() {
    let url = "https://hs/_matrix/client/v3/search";
    let a = search_cache_key(url, &b"{\"q\":1}".to_vec());
    let b = search_cache_key(url, &b"{\"q\":2}".to_vec());
    assert_ne!(a, b);
    assert_eq!(
        search_cache_key(url, &Vec::new()),
        format!("proxy_post_request:{url}:e3b0c44298fc1c149afbf4c8996fb92427ae41e4649b934ca495991b7852b855")
    );
    assert_eq!(search_cache_key_with_digest("u", "d"), "proxy_post_request:u:d");
}

#[test]
fn bearer_tokens_are_extracted_and_compared() {
    assert_eq!(extract_token("Bearer abc"), Some("abc".to_string()));
    assert_eq!(extract_token("Bearer   abc  "), Some("abc".to_string()));
    assert_eq!(extract_token("Basic abc"), None);
    assert!(token_matches(Some("Bearer hs_token"), "hs_token"));
    assert!(!token_matches(Some("Bearer other"), "hs_token"));
    assert!(!token_matches(None, "hs_token"));
}

#[test]
fn alias_path_is_rewritten_to_the_resolved_id() {
    let alias = alias_candidate("myroom", "example.org");
    assert_eq!(alias, "#myroom:example.org");
    let rewritten = rewrite_room_path(
        "/_matrix/client/v3/rooms/{room_id}/state",
        "/_matrix/client/v3/rooms/myroom/state",
        None,
        "!id:example.org",
    );
    assert_eq!(rewritten, Some("/_matrix/client/v3/rooms/!id:example.org/state".to_string()));
    let with_query = rewrite_room_path(
        "/_matrix/client/v3/rooms/{room_id}/messages",
        "/_matrix/client/v3/rooms/myroom/messages",
        Some("dir=b&limit=10"),
        "!id:example.org",
    );
    assert_eq!(with_query, Some("/_matrix/client/v3/rooms/!id:example.org/messages?dir=b&limit=10".to_string()));
    assert_eq!(rewrite_room_path("/version", "/version", None, "!id:example.org"), None);
}

#[test]
fn paths_split_and_join() {
    assert_eq!(path_segments("/a//b/c/"), vec!["a".to_string(), "b".to_string(), "c".to_string()]);
    assert_eq!(join_path(&vec!["a".to_string(), "b".to_string()]), "/a/b");
    assert_eq!(join_path(&vec![]), "/");
}

#[test]
fn membership_gate_caches_only_affirmative_misses() {
    assert_eq!(membership_check(false, Some(true)), MembershipCheck::AskHomeserver { store_if_joined: false });
    assert_eq!(membership_check(true, Some(false)), MembershipCheck::Known(false));
    let miss = membership_check(true, None);
    assert_eq!(miss, MembershipCheck::AskHomeserver { store_if_joined: true });
    assert!(store_membership(miss, true));
    assert!(!store_membership(miss, false));
    assert!(!store_membership(MembershipCheck::AskHomeserver { store_if_joined: false }, true));
}

#[test]
fn errors_map_to_status_and_message() {
    let e = AppserviceError::HomeserverError("down".to_string());
    assert_eq!(e.status_code(), 502);
    assert_eq!(e.message(), "Homeserver error: down");
    let e = AppserviceError::MatrixError("Room not found".to_string());
    assert_eq!(e.status_code(), 404);
    assert_eq!(e.message(), "Matrix API error: Room not found");
    let e = AppserviceError::AppserviceError("Not a public room".to_string());
    assert_eq!(e.status_code(), 404);
    assert_eq!(e.message(), "Not a public room");
}

#[test]
fn ping_transaction_is_consumed_once() {
    let mut store = TransactionStore::new();
    assert!(!store.verify_and_remove_transaction("nope"));
    let id = store.generate_transaction_id();
    assert!(!id.is_empty());
    assert!(!store.verify_and_remove_transaction("other"));
    assert!(store.verify_and_remove_transaction(&id));
    assert!(!store.verify_and_remove_transaction(&id));
    let again = store.generate_transaction_id();
    assert_ne!(id, again);
}

#[test]
fn message_refresh_url_and_cors_origins() {
    assert_eq!(
        messages_url("https://hs", "!r:example.org"),
        "https://hs/_matrix/client/v3/rooms/!r:example.org/messages?limit=100&dir=b"
    );
    assert_eq!(cors_origins(&None), None);
    assert_eq!(cors_origins(&Some(vec![])), None);
    assert_eq!(cors_origins(&Some(vec!["https://a".to_string(), "*".to_string()])), None);
    assert_eq!(cors_origins(&Some(vec!["https://a".to_string(), String::new()])), None);
    assert_eq!(cors_origins(&Some(vec!["https://a".to_string()])), Some(vec!["https://a".to_string()]));
}

#[test]
fn bearer_prefix_is_stripped_untrimmed() {
    assert_eq!(public_appservice::proxy::strip_bearer("Bearer  x "), Some(" x "));
    assert_eq!(public_appservice::proxy::strip_bearer("bearer x"), None);
}
