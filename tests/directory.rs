use public_appservice::directory::{room_by_slug, HierarchyRoom};
use public_appservice::config::PublicRooms;
use public_appservice::directory::{
    build_room_summary, hierarchy_is_space, is_joined_membership, process_rooms, unique_room_ids,
    EventContent, JoinedRoomState, RoomType, StateEvent,
};

fn content() -> EventContent {
    EventContent {
        name: None,
        alias: None,
        url: None,
        topic: None,
        history_visibility: None,
        join_rule: None,
        room_type: None,
        via: None,
    }
}

fn ev(event_type: &str, c: EventContent) -> StateEvent {
    StateEvent { event_type: event_type.to_string(), state_key: Some(String::new()), sender: None, origin_server_ts: None, content: c }
}

fn named(name: &str) -> StateEvent {
    ev("m.room.name", EventContent { name: Some(name.to_string()), ..content() })
}

fn aliased(alias: &str) -> StateEvent {
    ev("m.room.canonical_alias", EventContent { alias: Some(alias.to_string()), ..content() })
}

fn room(id: &str, events: Vec<StateEvent>) -> JoinedRoomState {
    JoinedRoomState { room_id: id.to_string(), state: Some(events) }
}

fn plain() -> PublicRooms {
    PublicRooms { curated: false, include_rooms: vec![] }
}

#[test]
fn fold_reads_fields_from_state() {
    let mut create = ev("m.room.create", EventContent { room_type: Some("m.space".to_string()), ..content() });
    create.sender = Some("@alice:example.org".to_string());
    create.origin_server_ts = Some(1234);
    let events = vec![
        create,
        named("Lobby"),
        aliased("#lobby:example.org"),
        ev("m.room.topic", EventContent { topic: Some("Say hi".to_string()), ..content() }),
        ev("m.room.join_rules", EventContent { join_rule: Some("public".to_string()), ..content() }),
        ev("m.room.history_visibility", EventContent { history_visibility: Some("world_readable".to_string()), ..content() }),
        ev("m.room.avatar", EventContent { url: Some("mxc://a/b".to_string()), ..content() }),
    ];
    let out = process_rooms(&vec![room("!r:example.org", events)], &plain(), "example.org");
    assert_eq!(out.len(), 1);
    let r = &out[0];
    assert_eq!(r.room_id, "!r:example.org");
    assert_eq!(r.sender.as_deref(), Some("@alice:example.org"));
    assert_eq!(r.origin_server_ts, Some(1234));
    assert_eq!(r.room_type.as_deref(), Some("m.space"));
    assert_eq!(r.name.as_deref(), Some("Lobby"));
    assert_eq!(r.canonical_alias.as_deref(), Some("#lobby:example.org"));
    assert_eq!(r.topic.as_deref(), Some("Say hi"));
    assert_eq!(r.join_rule.as_deref(), Some("public"));
    assert_eq!(r.history_visibility, "world_readable");
    assert_eq!(r.avatar_url.as_deref(), Some("mxc://a/b"));
    assert!(r.children.is_none());
    assert!(!r.is_bridge);
}

#[test]
fn custom_name_overrides_standard_name() {
    let custom = ev("commune.room.name", EventContent { name: Some("Custom".to_string()), ..content() });
    let a = process_rooms(&vec![room("!a:example.org", vec![custom, named("Standard")])], &plain(), "example.org");
    assert_eq!(a[0].name.as_deref(), Some("Custom"));
    let custom = ev("commune.room.name", EventContent { name: Some("Custom".to_string()), ..content() });
    let b = process_rooms(&vec![room("!b:example.org", vec![named("Standard"), custom])], &plain(), "example.org");
    assert_eq!(b[0].name.as_deref(), Some("Custom"));
    let c = process_rooms(&vec![room("!c:example.org", vec![named("First"), named("Second")])], &plain(), "example.org");
    assert_eq!(c[0].name.as_deref(), Some("First"));
}

#[test]
fn bridge_flag_is_sticky() {
    let events = vec![ev("m.bridge", content()), named("Bridged")];
    let out = process_rooms(&vec![room("!r:example.org", events)], &plain(), "example.org");
    assert!(out[0].is_bridge);
}

#[test]
fn children_need_routing_servers() {
    let mut with_via = ev("m.space.child", EventContent { via: Some(vec!["example.org".to_string()]), ..content() });
    with_via.state_key = Some("!child:example.org".to_string());
    let mut no_via = ev("m.space.child", EventContent { via: Some(vec![]), ..content() });
    no_via.state_key = Some("!gone:example.org".to_string());
    let out = process_rooms(&vec![room("!s:example.org", vec![with_via, no_via]), room("!t:example.org", vec![])], &plain(), "example.org");
    assert_eq!(out[0].children, Some(vec!["!child:example.org".to_string()]));
    assert_eq!(out[1].children, None);
}

#[test]
fn marked_rooms_are_hidden() {
    let rooms = vec![
        room("!a:example.org", vec![named("Visible")]),
        room("!b:example.org", vec![named("Hidden [\u{26d3}\u{fe0f}] room"), aliased("#b:example.org")]),
        room("!c:example.org", vec![]),
    ];
    let out = process_rooms(&rooms, &plain(), "example.org");
    let ids: Vec<&str> = out.iter().map(|r| r.room_id.as_str()).collect();
    assert_eq!(ids, vec!["!a:example.org", "!c:example.org"]);
}

#[test]
fn directory_is_repeatable() {
    let rooms = vec![
        room("!a:example.org", vec![named("A"), aliased("#a:example.org")]),
        room("!b:example.org", vec![named("B"), aliased("#b:example.org")]),
    ];
    let curation = PublicRooms { curated: true, include_rooms: vec!["b".to_string(), "a".to_string()] };
    let first: Vec<String> = process_rooms(&rooms, &curation, "example.org").into_iter().map(|r| r.room_id).collect();
    let second: Vec<String> = process_rooms(&rooms, &curation, "example.org").into_iter().map(|r| r.room_id).collect();
    assert_eq!(first, second);
}

#[test]
fn curated_order_puts_listed_rooms_first() {
    let rooms = vec![
        room("!x:example.org", vec![named("X")]),
        room("!a:example.org", vec![aliased("#a:example.org")]),
        room("!y:example.org", vec![aliased("#other:example.org")]),
        room("!b:example.org", vec![aliased("#b:example.org")]),
    ];
    let curation = PublicRooms { curated: true, include_rooms: vec!["b".to_string(), "a".to_string()] };
    let ids: Vec<String> = process_rooms(&rooms, &curation, "example.org").into_iter().map(|r| r.room_id).collect();
    assert_eq!(ids, vec!["!b:example.org", "!a:example.org", "!x:example.org", "!y:example.org"]);
    let uncurated: Vec<String> = process_rooms(&rooms, &plain(), "example.org").into_iter().map(|r| r.room_id).collect();
    assert_eq!(uncurated, vec!["!x:example.org", "!a:example.org", "!y:example.org", "!b:example.org"]);
}

#[test]
fn summary_reads_its_fields() {
    let events = vec![
        named(""),
        ev("m.room.topic", EventContent { topic: Some("About".to_string()), ..content() }),
        ev("m.room.avatar", EventContent { url: Some(String::new()), ..content() }),
        ev("commune.room.banner", EventContent { url: Some("mxc://banner".to_string()), ..content() }),
        ev("commune.room.type", EventContent { room_type: Some("forum".to_string()), ..content() }),
        aliased("#s:example.org"),
    ];
    let s = build_room_summary("!s:example.org", &events);
    assert_eq!(s.room_id, "!s:example.org");
    assert_eq!(s.name, None);
    assert_eq!(s.topic.as_deref(), Some("About"));
    assert_eq!(s.avatar_url, None);
    assert_eq!(s.banner_url.as_deref(), Some("mxc://banner"));
    assert_eq!(s.canonical_alias.as_deref(), Some("#s:example.org"));
    assert_eq!(s.room_type, RoomType::Forum);
    assert_eq!(s.room_type.as_str(), "forum");
    let other = build_room_summary("!t:example.org", &vec![ev("commune.room.type", EventContent { room_type: Some("wiki".to_string()), ..content() })]);
    assert_eq!(other.room_type, RoomType::Chat);
}

#[test]
fn helpers_for_spaces_and_membership() {
    assert!(is_joined_membership(&Some("join".to_string())));
    assert!(!is_joined_membership(&Some("leave".to_string())));
    assert!(!is_joined_membership(&None));
    assert!(hierarchy_is_space(&vec!["!s:x".to_string(), "!c:x".to_string()]));
    assert!(!hierarchy_is_space(&vec!["!s:x".to_string()]));
    let ids = unique_room_ids(&vec![
        vec!["!a:x".to_string(), "!b:x".to_string()],
        vec!["!b:x".to_string(), "!c:x".to_string()],
    ]);
    assert_eq!(ids, vec!["!a:x".to_string(), "!b:x".to_string(), "!c:x".to_string()]);
}

#[test]
fn hierarchy_rooms_are_found_by_slug() {
    let rooms = vec![
        HierarchyRoom { room_id: "!a:x".to_string(), name: None },
        HierarchyRoom { room_id: "!b:x".to_string(), name: Some("General Chat".to_string()) },
        HierarchyRoom { room_id: "!c:x".to_string(), name: Some("general chat".to_string()) },
    ];
    assert_eq!(room_by_slug(&rooms, "general-chat"), Some(1));
    assert_eq!(room_by_slug(&rooms, "random"), None);
}
