use public_appservice::ids::{bot_user_id, space_aliases};
use public_appservice::ids::{
    alias_candidate, configured_alias, is_valid_domain, is_valid_hostname, is_valid_localpart,
    is_valid_room_id, parse_u16, room_alias_like, room_id_valid, room_server_name, slugify,
    checked_alias,
};

#[test]
fn slugify_dashes_runs_and_lowercases() {
    assert_eq!(slugify("Hello World!"), "hello-world-");
    assert_eq!(slugify("General   Chat"), "general-chat");
    assert_eq!(slugify("Ünïcode Room"), "-n-code-room");
    assert_eq!(slugify(""), "");
}

#[test]
fn alias_like_needs_one_colon_and_no_bang() {
    assert!(room_alias_like("room:example.org"));
    assert!(!room_alias_like("room"));
    assert!(!room_alias_like(":example.org"));
    assert!(!room_alias_like("room:"));
    assert!(!room_alias_like("a:b:c"));
    assert!(!room_alias_like("!room:example.org"));
}

#[test]
fn room_ids_are_checked_at_the_last_colon() {
    assert!(is_valid_room_id("!abc:example.org"));
    assert!(is_valid_room_id("!a.b_c=d-e:matrix.example.org"));
    assert!(!is_valid_room_id("abc:example.org"));
    assert!(!is_valid_room_id("!abc"));
    assert!(!is_valid_room_id("!:example.org"));
    assert!(!is_valid_room_id("!ab c:example.org"));
    assert!(!is_valid_room_id("!abc:example.org:8448"));
}

#[test]
fn localparts_are_limited_in_length_and_alphabet() {
    assert!(is_valid_localpart("abc.DEF_1=2-3"));
    assert!(!is_valid_localpart(""));
    assert!(!is_valid_localpart(&"a".repeat(256)));
    assert!(is_valid_localpart(&"a".repeat(255)));
    assert!(!is_valid_localpart("a/b"));
}

#[test]
fn domains_take_an_optional_nonzero_port() {
    assert!(is_valid_domain("example.org"));
    assert!(is_valid_domain("example.org:8448"));
    assert!(is_valid_domain("example.org:+80"));
    assert!(!is_valid_domain("example.org:0"));
    assert!(!is_valid_domain("example.org:65536"));
    assert!(!is_valid_domain("example.org:"));
    assert!(!is_valid_domain(""));
}

#[test]
fn hostnames_follow_label_rules() {
    assert!(is_valid_hostname("a-b.example.org"));
    assert!(!is_valid_hostname("-a.example.org"));
    assert!(!is_valid_hostname("a..b"));
    assert!(!is_valid_hostname("a.-b.org"));
    assert!(!is_valid_hostname(".a.org"));
    assert!(!is_valid_hostname(&format!("{}.org", "a".repeat(64))));
    assert!(is_valid_hostname(&format!("{}.org", "a".repeat(63))));
}

#[test]
fn ports_parse_like_u16() {
    assert_eq!(parse_u16("8448"), Some(8448));
    assert_eq!(parse_u16("+80"), Some(80));
    assert_eq!(parse_u16("0065535"), Some(65535));
    assert_eq!(parse_u16("65536"), None);
    assert_eq!(parse_u16("-1"), None);
    assert_eq!(parse_u16("+"), None);
    assert_eq!(parse_u16(""), None);
}

#[test]
fn alias_candidates_add_sigil_and_server() {
    assert_eq!(alias_candidate("myroom", "example.org"), "#myroom:example.org");
    assert_eq!(alias_candidate("myroom:other.org", "example.org"), "#myroom:other.org");
    assert_eq!(configured_alias("space", "example.org"), "#space:example.org");
    assert_eq!(configured_alias("space:other.org", "example.org"), "#space:other.org");
    assert_eq!(configured_alias("#space:other.org", "example.org"), "#space:other.org");
}

#[test]
fn aliases_are_checked_by_ruma() {
    assert_eq!(checked_alias("#room:example.org".to_string()), Some("#room:example.org".to_string()));
    assert_eq!(checked_alias("room:example.org".to_string()), None);
}

#[test]
fn room_servers_and_local_ids() {
    assert_eq!(room_server_name("!r:example.org"), Some("example.org".to_string()));
    assert_eq!(room_server_name("!r"), None);
    assert!(room_id_valid("!r:example.org", "example.org"));
    assert!(!room_id_valid("!r:other.org", "example.org"));
}

#[test]
fn bot_user_and_space_aliases() {
    assert_eq!(bot_user_id("bot", "example.org"), "@bot:example.org");
    let names = vec!["lobby".to_string(), "team:other.org".to_string(), "bad name:x".to_string()];
    assert_eq!(
        space_aliases(&names, "example.org"),
        vec!["#lobby:example.org".to_string(), "#team:other.org".to_string()]
    );
}
