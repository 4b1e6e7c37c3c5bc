use public_appservice::config::AppServiceRules;
use public_appservice::events::{
    classify_event, leave_order, parse_membership, Action, EventKind, Membership, Policy, RawEvent,
    Synchronizer,
};

fn policy(auto_join: bool, local_only: bool, whitelist: &[&str]) -> Policy {
    Policy {
        rules: AppServiceRules {
            auto_join,
            invite_by_local_user: local_only,
            federation_domain_whitelist: whitelist.iter().map(|s| s.to_string()).collect(),
        },
        server_name: "example.org".to_string(),
        user_id: "@bot:example.org".to_string(),
    }
}

fn member(room: &str, user: &str, membership: &str) -> RawEvent {
    RawEvent {
        event_type: "m.room.member".to_string(),
        room_id: Some(room.to_string()),
        state_key: Some(user.to_string()),
        membership: Some(membership.to_string()),
        history_visibility: None,
        public: None,
    }
}

fn other(event_type: &str, room: &str) -> RawEvent {
    RawEvent {
        event_type: event_type.to_string(),
        room_id: Some(room.to_string()),
        state_key: None,
        membership: None,
        history_visibility: None,
        public: None,
    }
}

fn joins(actions: &[Action]) -> Vec<String> {
    actions
        .iter()
        .filter_map(|a| match a {
            Action::Join { room_id } => Some(room_id.clone()),
            _ => None,
        })
        .collect()
}

#[test]
fn invite_for_bot_joins_and_records_room() {
    let mut s = Synchronizer::new(policy(false, false, &[]), &vec![]);
    let actions = s.handle_transaction(&vec![member("!r:example.org", "@bot:example.org", "invite")]);
    assert_eq!(joins(&actions), vec!["!r:example.org".to_string()]);
    assert_eq!(s.joined.snapshot(), vec!["!r:example.org".to_string()]);
}

#[test]
fn invite_for_other_user_is_ignored() {
    let mut s = Synchronizer::new(policy(false, false, &[]), &vec![]);
    let actions = s.handle_transaction(&vec![member("!r:example.org", "@alice:example.org", "invite")]);
    assert!(actions.is_empty());
    assert_eq!(s.joined.len(), 0);
}

#[test]
fn foreign_unlisted_rooms_are_ignored_under_local_rule() {
    let mut s = Synchronizer::new(policy(false, true, &["friendly.org"]), &vec!["!a:example.org".to_string()]);
    let actions = s.handle_transaction(&vec![
        member("!r:elsewhere.net", "@bot:example.org", "invite"),
        member("!a:elsewhere.net", "@bot:example.org", "leave"),
    ]);
    assert!(actions.is_empty());
    assert_eq!(s.joined.snapshot(), vec!["!a:example.org".to_string()]);
}

#[test]
fn whitelisted_rooms_are_honoured_when_rule_is_off() {
    let mut s = Synchronizer::new(policy(false, false, &["friendly.org"]), &vec![]);
    let actions = s.handle_transaction(&vec![
        member("!r:chat.friendly.org", "@bot:example.org", "invite"),
        member("!x:elsewhere.net", "@bot:example.org", "invite"),
    ]);
    assert_eq!(joins(&actions), vec!["!r:chat.friendly.org".to_string()]);
    assert!(s.joined.contains("!r:chat.friendly.org"));
    assert!(!s.joined.contains("!x:elsewhere.net"));
}

#[test]
fn leave_and_ban_remove_the_room() {
    let mut s = Synchronizer::new(
        policy(false, false, &[]),
        &vec!["!a:example.org".to_string(), "!b:example.org".to_string()],
    );
    let actions = s.handle_transaction(&vec![
        member("!a:example.org", "@bot:example.org", "leave"),
        member("!b:example.org", "@bot:example.org", "ban"),
    ]);
    assert_eq!(actions.len(), 1);
    assert!(matches!(&actions[0], Action::Leave { room_id } if room_id == "!a:example.org"));
    assert_eq!(s.joined.len(), 0);
}

#[test]
fn leave_visits_children_before_parent() {
    let hierarchy = vec![
        "!space:example.org".to_string(),
        "!c1:example.org".to_string(),
        "!c2:example.org".to_string(),
    ];
    let order = leave_order("!space:example.org", &hierarchy);
    assert_eq!(
        order,
        vec!["!c1:example.org".to_string(), "!c2:example.org".to_string(), "!space:example.org".to_string()]
    );
    assert_eq!(leave_order("!solo:example.org", &vec![]), vec!["!solo:example.org".to_string()]);
}

#[test]
fn leave_removes_exactly_that_room() {
    let mut s = Synchronizer::new(
        policy(false, false, &[]),
        &vec!["!space:example.org".to_string(), "!other:example.org".to_string()],
    );
    s.handle_transaction(&vec![member("!space:example.org", "@bot:example.org", "leave")]);
    assert_eq!(s.joined.snapshot(), vec!["!other:example.org".to_string()]);
}

#[test]
fn world_readable_rooms_join_after_delay_when_auto_join() {
    let mut e = other("m.room.history_visibility", "!r:example.org");
    e.history_visibility = Some("world_readable".to_string());
    let mut s = Synchronizer::new(policy(true, false, &[]), &vec![]);
    let actions = s.handle_transaction(&vec![e]);
    assert!(matches!(&actions[..], [Action::JoinAfterDelay { room_id }] if room_id == "!r:example.org"));

    let mut e = other("m.room.history_visibility", "!r:example.org");
    e.history_visibility = Some("shared".to_string());
    assert!(s.handle_transaction(&vec![e]).is_empty());
}

#[test]
fn space_children_are_joined_when_auto_join() {
    let mut e = other("m.space.child", "!space:example.org");
    e.state_key = Some("!child:example.org".to_string());
    let mut on = Synchronizer::new(policy(true, false, &[]), &vec![]);
    assert_eq!(joins(&on.handle_transaction(&vec![e])), vec!["!child:example.org".to_string()]);

    let mut e = other("m.space.child", "!space:example.org");
    e.state_key = Some("!child:example.org".to_string());
    let mut off = Synchronizer::new(policy(false, false, &[]), &vec![]);
    assert!(off.handle_transaction(&vec![e]).is_empty());
}

#[test]
fn public_marker_toggles_membership() {
    let mut yes = other("commune.public.room", "!r:example.org");
    yes.public = Some(true);
    let mut no = other("commune.public.room", "!r:example.org");
    no.public = Some(false);
    let mut s = Synchronizer::new(policy(false, false, &[]), &vec![]);
    let actions = s.handle_transaction(&vec![yes, no]);
    assert!(matches!(&actions[0], Action::JoinAndMarkJoined { room_id } if room_id == "!r:example.org"));
    assert!(matches!(&actions[1], Action::LeaveAndUnmark { room_id } if room_id == "!r:example.org"));
    assert_eq!(s.joined.len(), 0);
}

#[test]
fn messages_trigger_recache_and_unknown_events_nothing() {
    let mut s = Synchronizer::new(policy(false, false, &[]), &vec![]);
    let actions = s.handle_transaction(&vec![other("m.room.message", "!r:example.org"), other("m.room.topic", "!r:example.org")]);
    assert_eq!(actions.len(), 1);
    assert!(matches!(&actions[0], Action::RecacheMessages { room_id } if room_id == "!r:example.org"));
}

#[test]
fn classification_and_membership_names() {
    assert!(matches!(classify_event(&member("!r:example.org", "@u:example.org", "join")), EventKind::Member { membership: Membership::Join, .. }));
    assert!(matches!(classify_event(&other("m.room.member", "!r:example.org")), EventKind::Unrecognized));
    assert_eq!(parse_membership("invite"), Membership::Invite);
    assert_eq!(parse_membership("knock"), Membership::Knock);
    assert_eq!(parse_membership("something"), Membership::Other);
}

#[test]
fn redelivered_invite_is_idempotent() {
    let mut s = Synchronizer::new(policy(false, false, &[]), &vec![]);
    let batch = vec![member("!r:example.org", "@bot:example.org", "invite")];
    s.handle_transaction(&batch);
    let again = s.handle_transaction(&batch);
    assert_eq!(joins(&again), vec!["!r:example.org".to_string()]);
    assert_eq!(s.joined.len(), 1);
}

#[test]
fn servers_are_accepted_by_rule() {
    use_server_rules();
}

fn use_server_rules() {
    let open = policy(false, false, &["friendly.org"]);
    assert!(public_appservice::events::server_accepted(&open, "example.org"));
    assert!(public_appservice::events::server_accepted(&open, "chat.friendly.org"));
    assert!(!public_appservice::events::server_accepted(&open, "elsewhere.net"));
    let closed = policy(false, true, &["friendly.org"]);
    assert!(public_appservice::events::server_accepted(&closed, "example.org"));
    assert!(!public_appservice::events::server_accepted(&closed, "chat.friendly.org"));
    assert!(public_appservice::events::is_room_accepted(&open, "!r:example.org"));
    assert!(!public_appservice::events::is_room_accepted(&open, "!r"));
}
