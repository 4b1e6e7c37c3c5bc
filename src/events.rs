//! The membership synchronizer: what the bot does for each event that the
//! homeserver pushes, and how its joined-room set follows.
use vstd::prelude::*;
use crate::config::AppServiceRules;
use crate::ids::{room_server, room_server_name};
use crate::joined::JoinedRooms;
use crate::text::{ends_with, has_suffix, str_eq, views};

verus! {

/// A room membership state.
#[derive(PartialEq, Eq, Structural, Clone, Copy, Debug)]
pub enum Membership {
    Invite,
    Join,
    Leave,
    Ban,
    Knock,
    Other,
}

/// The membership state named by `s`.
pub open spec fn membership_of(s: Seq<char>) -> Membership {
    if s == "invite"@ {
        Membership::Invite
    } else if s == "join"@ {
        Membership::Join
    } else if s == "leave"@ {
        Membership::Leave
    } else if s == "ban"@ {
        Membership::Ban
    } else if s == "knock"@ {
        Membership::Knock
    } else {
        Membership::Other
    }
}

/// Reads a membership state.
pub fn parse_membership(s: &str) -> (r: Membership)
    ensures
        r == membership_of(s@),
{
    if str_eq(s, "invite") {
        Membership::Invite
    } else if str_eq(s, "join") {
        Membership::Join
    } else if str_eq(s, "leave") {
        Membership::Leave
    } else if str_eq(s, "ban") {
        Membership::Ban
    } else if str_eq(s, "knock") {
        Membership::Knock
    } else {
        Membership::Other
    }
}

/// A pushed event, reduced to the fields the synchronizer reads.
pub struct RawEvent {
    pub event_type: String,
    pub room_id: Option<String>,
    pub state_key: Option<String>,
    /// `content.membership`
    pub membership: Option<String>,
    /// `content.history_visibility`
    pub history_visibility: Option<String>,
    /// `content.public`
    pub public: Option<bool>,
}

/// The recognised kinds of pushed events.
pub enum EventKind {
    HistoryVisibility { room_id: String, world_readable: bool },
    SpaceChild { room_id: String, child_id: String },
    PublicMarker { room_id: String, public: bool },
    Message { room_id: String },
    Member { room_id: String, user_id: String, membership: Membership },
    Unrecognized,
}

/// The kind of a pushed event, by its type and the fields that kind needs.
pub open spec fn kind_of(e: RawEvent) -> EventKind {
    let t = e.event_type@;
    if t == "m.room.history_visibility"@ && e.room_id is Some && e.history_visibility is Some {
        EventKind::HistoryVisibility {
            room_id: e.room_id->0,
            world_readable: e.history_visibility->0@ == "world_readable"@,
        }
    } else if t == "m.space.child"@ && e.room_id is Some && e.state_key is Some {
        EventKind::SpaceChild { room_id: e.room_id->0, child_id: e.state_key->0 }
    } else if t == "commune.public.room"@ && e.room_id is Some && e.public is Some {
        EventKind::PublicMarker { room_id: e.room_id->0, public: e.public->0 }
    } else if t == "m.room.message"@ && e.room_id is Some {
        EventKind::Message { room_id: e.room_id->0 }
    } else if t == "m.room.member"@ && e.room_id is Some && e.state_key is Some && e.membership is Some {
        EventKind::Member {
            room_id: e.room_id->0,
            user_id: e.state_key->0,
            membership: membership_of(e.membership->0@),
        }
    } else {
        EventKind::Unrecognized
    }
}

/// Classifies a pushed event.
pub fn classify_event(e: &RawEvent) -> (r: EventKind)
    ensures
        r == kind_of(*e),
{
    let t = e.event_type.as_str();
    if str_eq(t, "m.room.history_visibility") {
        if let (Some(room), Some(hv)) = (&e.room_id, &e.history_visibility) {
            return EventKind::HistoryVisibility {
                room_id: room.clone(),
                world_readable: str_eq(hv.as_str(), "world_readable"),
            };
        }
    }
    if str_eq(t, "m.space.child") {
        if let (Some(room), Some(key)) = (&e.room_id, &e.state_key) {
            return EventKind::SpaceChild { room_id: room.clone(), child_id: key.clone() };
        }
    }
    if str_eq(t, "commune.public.room") {
        if let (Some(room), Some(public)) = (&e.room_id, e.public) {
            return EventKind::PublicMarker { room_id: room.clone(), public };
        }
    }
    if str_eq(t, "m.room.message") {
        if let Some(room) = &e.room_id {
            return EventKind::Message { room_id: room.clone() };
        }
    }
    if str_eq(t, "m.room.member") {
        if let (Some(room), Some(key), Some(m)) = (&e.room_id, &e.state_key, &e.membership) {
            return EventKind::Member {
                room_id: room.clone(),
                user_id: key.clone(),
                membership: parse_membership(m.as_str()),
            };
        }
    }
    EventKind::Unrecognized
}

/// Work for the caller to carry out against the homeserver and the cache.
pub enum Action {
    /// Join the room after a short delay, in the background.
    JoinAfterDelay { room_id: String },
    /// Join the room.
    Join { room_id: String },
    /// Join the room, then cache its joined flag.
    JoinAndMarkJoined { room_id: String },
    /// Leave the room and its children, then evict its joined flag.
    LeaveAndUnmark { room_id: String },
    /// Refresh the cached recent messages of the room.
    RecacheMessages { room_id: String },
    /// Leave the room and its children.
    Leave { room_id: String },
}

/// What the synchronizer acts on besides the events: its rules, the local
/// server name and the bot's own user identifier.
pub struct Policy {
    pub rules: AppServiceRules,
    pub server_name: String,
    pub user_id: String,
}

/// `server` ends with one of the whitelisted domains.
pub open spec fn whitelisted(server: Seq<char>, whitelist: Seq<Seq<char>>) -> bool {
    exists|k: int| 0 <= k < whitelist.len() && has_suffix(server, whitelist[k])
}

/// Membership events of `room` are honoured: its server is the local one, or a
/// whitelisted one while the local-invite rule is off.
pub open spec fn room_accepted(p: Policy, room: Seq<char>) -> bool {
    match room_server(room) {
        Some(server) => server_accepted_spec(p, server),
        None => false,
    }
}

/// A membership event that the synchronizer honours: an accepted room, and
/// the bot as the affected user.
pub open spec fn honoured(p: Policy, room: Seq<char>, user: Seq<char>) -> bool {
    room_accepted(p, room) && user == p.user_id@
}

/// The actions for one event.
pub open spec fn event_actions(p: Policy, k: EventKind) -> Seq<Action> {
    match k {
        EventKind::HistoryVisibility { room_id, world_readable } => if p.rules.auto_join
            && world_readable {
            seq![Action::JoinAfterDelay { room_id }]
        } else {
            seq![]
        },
        EventKind::SpaceChild { room_id, child_id } => if p.rules.auto_join {
            seq![Action::Join { room_id: child_id }]
        } else {
            seq![]
        },
        EventKind::PublicMarker { room_id, public } => if public {
            seq![Action::JoinAndMarkJoined { room_id }]
        } else {
            seq![Action::LeaveAndUnmark { room_id }]
        },
        EventKind::Message { room_id } => seq![Action::RecacheMessages { room_id }],
        EventKind::Member { room_id, user_id, membership } => if honoured(p, room_id@, user_id@) {
            match membership {
                Membership::Invite => seq![Action::Join { room_id }],
                Membership::Leave => seq![Action::Leave { room_id }],
                _ => seq![],
            }
        } else {
            seq![]
        },
        EventKind::Unrecognized => seq![],
    }
}

/// The joined-room set after one event.
pub open spec fn joined_after_event(p: Policy, joined: Set<Seq<char>>, k: EventKind) -> Set<
    Seq<char>,
> {
    match k {
        EventKind::Member { room_id, user_id, membership } => if honoured(p, room_id@, user_id@) {
            match membership {
                Membership::Invite => joined.insert(room_id@),
                Membership::Leave | Membership::Ban => joined.remove(room_id@),
                _ => joined,
            }
        } else {
            joined
        },
        _ => joined,
    }
}

/// The actions for a batch of events, in order.
pub open spec fn batch_actions(p: Policy, events: Seq<RawEvent>) -> Seq<Action>
    decreases events.len(),
{
    if events.len() == 0 {
        seq![]
    } else {
        batch_actions(p, events.drop_last()) + event_actions(p, kind_of(events.last()))
    }
}

/// The joined-room set after a batch of events.
pub open spec fn joined_after(p: Policy, joined: Set<Seq<char>>, events: Seq<RawEvent>) -> Set<
    Seq<char>,
>
    decreases events.len(),
{
    if events.len() == 0 {
        joined
    } else {
        joined_after_event(p, joined_after(p, joined, events.drop_last()), kind_of(events.last()))
    }
}

/// Whether membership events of rooms on `server` are honoured: the local
/// server, or a whitelisted one while the local-invite rule is off.
pub open spec fn server_accepted_spec(p: Policy, server: Seq<char>) -> bool {
    server == p.server_name@ || (!p.rules.invite_by_local_user
        && whitelisted(server, views(p.rules.federation_domain_whitelist@)))
}

/// Whether membership events of rooms on `server` are honoured.
pub fn server_accepted(p: &Policy, server: &str) -> (r: bool)
    ensures
        r == server_accepted_spec(*p, server@),
{
    if str_eq(server, p.server_name.as_str()) {
        return true;
    }
    if p.rules.invite_by_local_user {
        return false;
    }
    let wl = &p.rules.federation_domain_whitelist;
    let mut i: usize = 0;
    while i < wl.len()
        invariant
            i <= wl@.len(),
            wl == &p.rules.federation_domain_whitelist,
            server@ != p.server_name@,
            !p.rules.invite_by_local_user,
            forall|k: int| 0 <= k < i ==> !has_suffix(server@, (#[trigger] wl@[k])@),
        decreases wl@.len() - i,
    {
        if ends_with(server, wl[i].as_str()) {
            assert(views(wl@)[i as int] == wl@[i as int]@);
            assert(has_suffix(server@, views(wl@)[i as int]));
            assert(whitelisted(server@, views(wl@)));
            return true;
        }
        i = i + 1;
    }
    assert forall|k: int| 0 <= k < wl@.len() implies !has_suffix(server@, #[trigger] views(wl@)[k]) by {
        assert(views(wl@)[k] == wl@[k]@);
    }
    false
}

/// Whether membership events of `room` are honoured.
pub fn is_room_accepted(p: &Policy, room: &str) -> (r: bool)
    ensures
        r == room_accepted(*p, room@),
{
    match room_server_name(room) {
        None => false,
        Some(server) => server_accepted(p, server.as_str()),
    }
}

/// `hierarchy` without `room`, in order.
pub open spec fn children_of(hierarchy: Seq<Seq<char>>, room: Seq<char>) -> Seq<Seq<char>>
    decreases hierarchy.len(),
{
    if hierarchy.len() == 0 {
        hierarchy
    } else {
        let p = children_of(hierarchy.drop_last(), room);
        if hierarchy.last() != room {
            p.push(hierarchy.last())
        } else {
            p
        }
    }
}

/// The rooms of a space's hierarchy other than the space itself, in order.
pub fn space_children(room_id: &str, hierarchy: &Vec<String>) -> (r: Vec<String>)
    ensures
        views(r@) == children_of(views(hierarchy@), room_id@),
{
    let mut out: Vec<String> = Vec::new();
    let mut i: usize = 0;
    while i < hierarchy.len()
        invariant
            i <= hierarchy@.len(),
            views(out@) == children_of(views(hierarchy@.subrange(0, i as int)), room_id@),
        decreases hierarchy@.len() - i,
    {
        let ghost before = out@;
        proof {
            let t = views(hierarchy@.subrange(0, i + 1));
            assert(t.drop_last() =~= views(hierarchy@.subrange(0, i as int)));
            assert(t.last() == hierarchy@[i as int]@);
        }
        if !str_eq(hierarchy[i].as_str(), room_id) {
            out.push(hierarchy[i].clone());
            assert(views(out@) =~= views(before).push(hierarchy@[i as int]@));
        }
        i = i + 1;
    }
    assert(hierarchy@.subrange(0, hierarchy@.len() as int) =~= hierarchy@);
    out
}

/// The rooms to leave, in order, so as to leave `room_id` whose hierarchy
/// lists `hierarchy`: every child first, then the room itself.
pub fn leave_order(room_id: &str, hierarchy: &Vec<String>) -> (r: Vec<String>)
    ensures
        views(r@) == children_of(views(hierarchy@), room_id@).push(room_id@),
{
    let mut out = space_children(room_id, hierarchy);
    let ghost before = out@;
    out.push(room_id.to_owned());
    assert(views(out@) =~= views(before).push(room_id@));
    out
}

proof fn lemma_children_of_members(hierarchy: Seq<Seq<char>>, room: Seq<char>)
    ensures
        forall|i: int| 0 <= i < children_of(hierarchy, room).len()
            ==> #[trigger] children_of(hierarchy, room)[i] != room
                && hierarchy.contains(children_of(hierarchy, room)[i]),
    decreases hierarchy.len(),
{
    if hierarchy.len() > 0 {
        let h = hierarchy.drop_last();
        lemma_children_of_members(h, room);
        assert forall|i: int| 0 <= i < children_of(hierarchy, room).len()
            implies #[trigger] children_of(hierarchy, room)[i] != room
                && hierarchy.contains(children_of(hierarchy, room)[i]) by {
            if i < children_of(h, room).len() {
                let j = choose|j: int| 0 <= j < h.len() && h[j] == children_of(h, room)[i];
                assert(hierarchy[j] == h[j]);
            } else {
                assert(hierarchy[hierarchy.len() - 1] == hierarchy.last());
            }
        }
    }
}

/// Leaving a room whose hierarchy holds `n` other rooms makes `n + 1` leave
/// calls, the children first and the room last, and a leave event for the bot
/// takes exactly that room out of the joined set.
pub proof fn lemma_leave_children_then_room(
    p: Policy,
    joined: Set<Seq<char>>,
    room: String,
    user: String,
    hierarchy: Seq<Seq<char>>,
    n: nat,
)
    requires
        children_of(hierarchy, room@).len() == n,
        honoured(p, room@, user@),
    ensures
        children_of(hierarchy, room@).push(room@).len() == n + 1,
        children_of(hierarchy, room@).push(room@)[n as int] == room@,
        forall|i: int| 0 <= i < n ==> #[trigger] children_of(hierarchy, room@).push(room@)[i] != room@
            && hierarchy.contains(children_of(hierarchy, room@)[i]),
        event_actions(p, EventKind::Member { room_id: room, user_id: user, membership: Membership::Leave })
            == seq![Action::Leave { room_id: room }],
        joined_after_event(p, joined, EventKind::Member { room_id: room, user_id: user, membership: Membership::Leave })
            == joined.remove(room@),
{
    lemma_children_of_members(hierarchy, room@);
    assert forall|i: int| 0 <= i < n implies #[trigger] children_of(hierarchy, room@).push(room@)[i] != room@
        && hierarchy.contains(children_of(hierarchy, room@)[i]) by {
        assert(children_of(hierarchy, room@).push(room@)[i] == children_of(hierarchy, room@)[i]);
    }
}

/// An invitation of the bot to an accepted room puts the room in the joined
/// set, unless a later membership event of the same room comes in the batch.
pub proof fn lemma_invite_joins(p: Policy, joined: Set<Seq<char>>, events: Seq<RawEvent>, k: int)
    requires
        0 <= k < events.len(),
        kind_of(events[k]) is Member,
        kind_of(events[k])->Member_membership == Membership::Invite,
        honoured(p, kind_of(events[k])->Member_room_id@, kind_of(events[k])->Member_user_id@),
        forall|j: int| k < j < events.len() ==> !(kind_of(#[trigger] events[j]) is Member
            && kind_of(events[j])->Member_room_id@ == kind_of(events[k])->Member_room_id@),
    ensures
        joined_after(p, joined, events).contains(kind_of(events[k])->Member_room_id@),
    decreases events.len(),
{
    let prev = events.drop_last();
    if events.len() == k + 1 {
        assert(events.last() == events[k]);
    } else {
        assert forall|j: int| k < j < prev.len() implies !(kind_of(#[trigger] prev[j]) is Member
            && kind_of(prev[j])->Member_room_id@ == kind_of(prev[k])->Member_room_id@) by {
            assert(prev[j] == events[j]);
        }
        assert(prev[k] == events[k]);
        lemma_invite_joins(p, joined, prev, k);
        assert(events.last() == events[events.len() - 1]);
    }
}

/// A membership event of a room whose server is neither the local one nor
/// whitelisted.
pub open spec fn foreign_unlisted_member(p: Policy, e: RawEvent) -> bool {
    &&& kind_of(e) is Member
    &&& room_server(kind_of(e)->Member_room_id@) matches Some(s)
    &&& s != p.server_name@
    &&& !whitelisted(s, views(p.rules.federation_domain_whitelist@))
}

/// With the local-invite rule on, a batch of membership events for rooms on
/// foreign, non-whitelisted servers makes no call and leaves the joined set as
/// it was.
pub proof fn lemma_foreign_rooms_ignored(p: Policy, joined: Set<Seq<char>>, events: Seq<RawEvent>)
    requires
        p.rules.invite_by_local_user,
        forall|j: int| 0 <= j < events.len() ==> foreign_unlisted_member(p, #[trigger] events[j]),
    ensures
        batch_actions(p, events) == Seq::<Action>::empty(),
        joined_after(p, joined, events) == joined,
    decreases events.len(),
{
    if events.len() > 0 {
        let prev = events.drop_last();
        assert forall|j: int| 0 <= j < prev.len() implies foreign_unlisted_member(p, #[trigger] prev[j]) by {
            assert(prev[j] == events[j]);
        }
        lemma_foreign_rooms_ignored(p, joined, prev);
        assert(events.last() == events[events.len() - 1]);
        assert(batch_actions(p, events) =~= Seq::<Action>::empty());
    }
}

/// The membership synchronizer: its policy and the bot's joined rooms.
pub struct Synchronizer {
    pub policy: Policy,
    pub joined: JoinedRooms,
}

impl Synchronizer {
    /// A synchronizer seeded with the rooms the homeserver reports as joined.
    pub fn new(policy: Policy, joined_rooms: &Vec<String>) -> (r: Self)
        ensures
            r.policy == policy,
            r.joined.wf(),
            forall|s: Seq<char>| r.joined@.contains(s) <==> exists|i: int| 0 <= i < joined_rooms@.len() && joined_rooms@[i]@ == s,
    {
        Synchronizer { policy, joined: JoinedRooms::from_rooms(joined_rooms) }
    }

    /// Handles one event: appends its actions and updates the joined rooms.
    pub fn handle_event(&mut self, e: &RawEvent, actions: &mut Vec<Action>)
        requires
            old(self).joined.wf(),
        ensures
            final(self).policy == old(self).policy,
            final(self).joined.wf(),
            final(self).joined@ == joined_after_event(old(self).policy, old(self).joined@, kind_of(*e)),
            final(actions)@ == old(actions)@ + event_actions(old(self).policy, kind_of(*e)),
    {
        let kind = classify_event(e);
        let ghost acts = event_actions(self.policy, kind);
        match kind {
            EventKind::HistoryVisibility { room_id, world_readable } => {
                if self.policy.rules.auto_join && world_readable {
                    actions.push(Action::JoinAfterDelay { room_id });
                }
            },
            EventKind::SpaceChild { room_id, child_id } => {
                if self.policy.rules.auto_join {
                    actions.push(Action::Join { room_id: child_id });
                }
            },
            EventKind::PublicMarker { room_id, public } => {
                if public {
                    actions.push(Action::JoinAndMarkJoined { room_id });
                } else {
                    actions.push(Action::LeaveAndUnmark { room_id });
                }
            },
            EventKind::Message { room_id } => {
                actions.push(Action::RecacheMessages { room_id });
            },
            EventKind::Member { room_id, user_id, membership } => {
                if is_room_accepted(&self.policy, room_id.as_str()) && str_eq(
                    user_id.as_str(),
                    self.policy.user_id.as_str(),
                ) {
                    match membership {
                        Membership::Invite => {
                            self.joined.add(room_id.as_str());
                            actions.push(Action::Join { room_id });
                        },
                        Membership::Leave => {
                            self.joined.remove(room_id.as_str());
                            actions.push(Action::Leave { room_id });
                        },
                        Membership::Ban => {
                            self.joined.remove(room_id.as_str());
                        },
                        _ => {},
                    }
                }
            },
            EventKind::Unrecognized => {},
        }
        assert(actions@ =~= old(actions)@ + acts);
    }

    /// Handles a pushed batch of events in order. Every event is handled on its
    /// own: none stops the others, and the batch is always acknowledged.
    pub fn handle_transaction(&mut self, events: &Vec<RawEvent>) -> (r: Vec<Action>)
        requires
            old(self).joined.wf(),
        ensures
            final(self).policy == old(self).policy,
            final(self).joined.wf(),
            final(self).joined@ == joined_after(old(self).policy, old(self).joined@, events@),
            r@ == batch_actions(old(self).policy, events@),
    {
        let mut actions: Vec<Action> = Vec::new();
        let mut i: usize = 0;
        while i < events.len()
            invariant
                i <= events@.len(),
                self.policy == old(self).policy,
                self.joined.wf(),
                self.joined@ == joined_after(old(self).policy, old(self).joined@, events@.subrange(0, i as int)),
                actions@ == batch_actions(old(self).policy, events@.subrange(0, i as int)),
            decreases events@.len() - i,
        {
            self.handle_event(&events[i], &mut actions);
            proof {
                let t = events@.subrange(0, i + 1);
                assert(t.drop_last() =~= events@.subrange(0, i as int));
                assert(t.last() == events@[i as int]);
            }
            i = i + 1;
        }
        assert(events@.subrange(0, events@.len() as int) =~= events@);
        actions
    }
}

} // verus!
