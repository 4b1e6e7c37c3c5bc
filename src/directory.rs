//! The directory aggregator: folds each room's state events into a directory
//! entry or a summary, and orders the public directory.
use vstd::prelude::*;
use crate::config::PublicRooms;
use crate::joined::JoinedRooms;
use crate::text::{owned, str_eq, views};

verus! {

/// The `content` fields of a state event that the directory reads.
pub struct EventContent {
    pub name: Option<String>,
    pub alias: Option<String>,
    pub url: Option<String>,
    pub topic: Option<String>,
    pub history_visibility: Option<String>,
    pub join_rule: Option<String>,
    /// `content.type`
    pub room_type: Option<String>,
    pub via: Option<Vec<String>>,
}

/// A room state event, reduced to what the directory reads.
pub struct StateEvent {
    pub event_type: String,
    pub state_key: Option<String>,
    pub sender: Option<String>,
    pub origin_server_ts: Option<u64>,
    pub content: EventContent,
}

/// A room and its state, when it could be fetched.
pub struct JoinedRoomState {
    pub room_id: String,
    pub state: Option<Vec<StateEvent>>,
}

/// One entry of the public directory.
pub struct PublicRoom {
    pub room_id: String,
    pub room_type: Option<String>,
    pub origin_server_ts: Option<u64>,
    pub commune_room_type: Option<String>,
    pub name: Option<String>,
    pub canonical_alias: Option<String>,
    pub commune_alias: Option<String>,
    pub sender: Option<String>,
    pub avatar_url: Option<String>,
    pub banner_url: Option<String>,
    pub topic: Option<String>,
    pub join_rule: Option<String>,
    pub history_visibility: String,
    /// Absent when the room declares no child; never an empty list.
    pub children: Option<Vec<String>>,
    pub is_bridge: bool,
}

/// The characters of an optional string.
pub open spec fn ov(o: Option<String>) -> Option<Seq<char>> {
    match o {
        Some(s) => Some(s@),
        None => None,
    }
}

/// A directory entry as values.
pub struct RoomView {
    pub room_id: Seq<char>,
    pub room_type: Option<Seq<char>>,
    pub origin_server_ts: Option<u64>,
    pub commune_room_type: Option<Seq<char>>,
    pub name: Option<Seq<char>>,
    pub canonical_alias: Option<Seq<char>>,
    pub commune_alias: Option<Seq<char>>,
    pub sender: Option<Seq<char>>,
    pub avatar_url: Option<Seq<char>>,
    pub banner_url: Option<Seq<char>>,
    pub topic: Option<Seq<char>>,
    pub join_rule: Option<Seq<char>>,
    pub history_visibility: Seq<char>,
    pub children: Option<Seq<Seq<char>>>,
    pub is_bridge: bool,
}

impl View for PublicRoom {
    type V = RoomView;

    open spec fn view(&self) -> RoomView {
        RoomView {
            room_id: self.room_id@,
            room_type: ov(self.room_type),
            origin_server_ts: self.origin_server_ts,
            commune_room_type: ov(self.commune_room_type),
            name: ov(self.name),
            canonical_alias: ov(self.canonical_alias),
            commune_alias: ov(self.commune_alias),
            sender: ov(self.sender),
            avatar_url: ov(self.avatar_url),
            banner_url: ov(self.banner_url),
            topic: ov(self.topic),
            join_rule: ov(self.join_rule),
            history_visibility: self.history_visibility@,
            children: match self.children {
                Some(v) => Some(views(v@)),
                None => None,
            },
            is_bridge: self.is_bridge,
        }
    }
}

/// State event types that mark a bridged room.
pub open spec fn is_bridge_type(t: Seq<char>) -> bool {
    t == "m.bridge"@ || t == "m.room.bridged"@ || t == "m.room.discord"@ || t == "m.room.irc"@
        || t == "uk.half-shot.bridge"@
}

/// The entry of a room before any of its events is read.
pub open spec fn empty_entry(room_id: Seq<char>) -> RoomView {
    RoomView {
        room_id,
        room_type: None,
        origin_server_ts: None,
        commune_room_type: None,
        name: None,
        canonical_alias: None,
        commune_alias: None,
        sender: None,
        avatar_url: None,
        banner_url: None,
        topic: None,
        join_rule: None,
        history_visibility: Seq::empty(),
        children: None,
        is_bridge: false,
    }
}

/// The child list with `k` appended.
pub open spec fn add_child(c: Option<Seq<Seq<char>>>, k: Seq<char>) -> Option<Seq<Seq<char>>> {
    match c {
        Some(s) => Some(s.push(k)),
        None => Some(seq![k]),
    }
}

/// The fields that one state event sets, other than the bridge flag.
pub open spec fn apply_fields(r: RoomView, e: StateEvent) -> RoomView {
    let t = e.event_type@;
    let c = e.content;
    if t == "m.room.create"@ {
        let r0 = if e.sender is Some && e.origin_server_ts is Some {
            RoomView { origin_server_ts: e.origin_server_ts, sender: ov(e.sender), ..r }
        } else {
            r
        };
        if c.room_type is Some {
            RoomView { room_type: ov(c.room_type), ..r0 }
        } else {
            r0
        }
    } else if t == "m.room.name"@ {
        if r.name is None && c.name is Some {
            RoomView { name: ov(c.name), ..r }
        } else {
            r
        }
    } else if t == "commune.room.name"@ {
        if c.name is Some {
            RoomView { name: ov(c.name), ..r }
        } else {
            r
        }
    } else if t == "m.room.canonical_alias"@ {
        RoomView { canonical_alias: ov(c.alias), ..r }
    } else if t == "m.room.avatar"@ {
        RoomView { avatar_url: ov(c.url), ..r }
    } else if t == "m.room.topic"@ {
        if c.topic is Some {
            RoomView { topic: ov(c.topic), ..r }
        } else {
            r
        }
    } else if t == "m.room.history_visibility"@ {
        if c.history_visibility is Some {
            RoomView { history_visibility: c.history_visibility->0@, ..r }
        } else {
            r
        }
    } else if t == "commune.room.banner"@ {
        RoomView { banner_url: ov(c.url), ..r }
    } else if t == "commune.room.type"@ {
        RoomView { room_type: ov(c.room_type), ..r }
    } else if t == "m.room.join_rules"@ {
        if c.join_rule is Some {
            RoomView { join_rule: ov(c.join_rule), ..r }
        } else {
            r
        }
    } else if t == "m.space.child"@ {
        if c.via is Some && c.via->0@.len() > 0 && e.state_key is Some {
            RoomView { children: add_child(r.children, e.state_key->0@), ..r }
        } else {
            r
        }
    } else {
        r
    }
}

/// The entry after one more state event.
pub open spec fn apply_event(r: RoomView, e: StateEvent) -> RoomView {
    let r1 = apply_fields(r, e);
    if is_bridge_type(e.event_type@) {
        RoomView { is_bridge: true, ..r1 }
    } else {
        r1
    }
}

/// The entry after reading `events` in order.
pub open spec fn fold_events(r: RoomView, events: Seq<StateEvent>) -> RoomView
    decreases events.len(),
{
    if events.len() == 0 {
        r
    } else {
        apply_event(fold_events(r, events.drop_last()), events.last())
    }
}

/// The state events of a room; none when its state could not be fetched.
pub open spec fn events_of(j: JoinedRoomState) -> Seq<StateEvent> {
    match j.state {
        Some(v) => v@,
        None => Seq::empty(),
    }
}

/// The directory entry of a room.
pub open spec fn room_entry(j: JoinedRoomState) -> RoomView {
    fold_events(empty_entry(j.room_id@), events_of(j))
}

fn copy_opt(o: &Option<String>) -> (r: Option<String>)
    ensures
        ov(r) == ov(*o),
{
    match o {
        Some(s) => Some(s.clone()),
        None => None,
    }
}

fn copy_strings(v: &Vec<String>) -> (r: Vec<String>)
    ensures
        views(r@) == views(v@),
{
    let mut out: Vec<String> = Vec::new();
    let mut i: usize = 0;
    while i < v.len()
        invariant
            i <= v@.len(),
            views(out@) == views(v@.subrange(0, i as int)),
        decreases v@.len() - i,
    {
        let ghost before = out@;
        out.push(v[i].clone());
        assert(views(out@) =~= views(before).push(v@[i as int]@));
        assert(views(v@.subrange(0, i + 1)) =~= views(v@.subrange(0, i as int)).push(v@[i as int]@));
        i = i + 1;
    }
    assert(v@.subrange(0, v@.len() as int) =~= v@);
    out
}

/// A copy of a directory entry.
pub fn copy_room(p: &PublicRoom) -> (r: PublicRoom)
    ensures
        r@ == p@,
{
    PublicRoom {
        room_id: p.room_id.clone(),
        room_type: copy_opt(&p.room_type),
        origin_server_ts: p.origin_server_ts,
        commune_room_type: copy_opt(&p.commune_room_type),
        name: copy_opt(&p.name),
        canonical_alias: copy_opt(&p.canonical_alias),
        commune_alias: copy_opt(&p.commune_alias),
        sender: copy_opt(&p.sender),
        avatar_url: copy_opt(&p.avatar_url),
        banner_url: copy_opt(&p.banner_url),
        topic: copy_opt(&p.topic),
        join_rule: copy_opt(&p.join_rule),
        history_visibility: p.history_visibility.clone(),
        children: match &p.children {
            Some(v) => Some(copy_strings(v)),
            None => None,
        },
        is_bridge: p.is_bridge,
    }
}

fn is_bridge_event_type(t: &str) -> (r: bool)
    ensures
        r == is_bridge_type(t@),
{
    str_eq(t, "m.bridge") || str_eq(t, "m.room.bridged") || str_eq(t, "m.room.discord")
        || str_eq(t, "m.room.irc") || str_eq(t, "uk.half-shot.bridge")
}

/// The child list held apart while folding.
pub open spec fn kids_view(kids: Seq<String>) -> Option<Seq<Seq<char>>> {
    if kids.len() == 0 {
        None
    } else {
        Some(views(kids))
    }
}

/// The entry `r` with the child list held in `kids`.
pub open spec fn with_kids(r: RoomView, kids: Seq<String>) -> RoomView {
    RoomView { children: kids_view(kids), ..r }
}

/// Applies one state event to `room`, whose children are held in `kids`.
fn apply_state_event(room: &mut PublicRoom, kids: &mut Vec<String>, e: &StateEvent)
    requires
        old(room).children is None,
    ensures
        final(room).children is None,
        with_kids(final(room)@, final(kids)@) == apply_event(with_kids(old(room)@, old(kids)@), *e),
{
    let ghost r0 = with_kids(room@, kids@);
    let t = e.event_type.as_str();
    let c = &e.content;
    if str_eq(t, "m.room.create") {
        if e.sender.is_some() && e.origin_server_ts.is_some() {
            room.origin_server_ts = e.origin_server_ts;
            room.sender = copy_opt(&e.sender);
        }
        if c.room_type.is_some() {
            room.room_type = copy_opt(&c.room_type);
        }
    } else if str_eq(t, "m.room.name") {
        if room.name.is_none() && c.name.is_some() {
            room.name = copy_opt(&c.name);
        }
    } else if str_eq(t, "commune.room.name") {
        if c.name.is_some() {
            room.name = copy_opt(&c.name);
        }
    } else if str_eq(t, "m.room.canonical_alias") {
        room.canonical_alias = copy_opt(&c.alias);
    } else if str_eq(t, "m.room.avatar") {
        room.avatar_url = copy_opt(&c.url);
    } else if str_eq(t, "m.room.topic") {
        if c.topic.is_some() {
            room.topic = copy_opt(&c.topic);
        }
    } else if str_eq(t, "m.room.history_visibility") {
        if let Some(hv) = &c.history_visibility {
            room.history_visibility = hv.clone();
        }
    } else if str_eq(t, "commune.room.banner") {
        room.banner_url = copy_opt(&c.url);
    } else if str_eq(t, "commune.room.type") {
        room.room_type = copy_opt(&c.room_type);
    } else if str_eq(t, "m.room.join_rules") {
        if c.join_rule.is_some() {
            room.join_rule = copy_opt(&c.join_rule);
        }
    } else if str_eq(t, "m.space.child") {
        if let (Some(via), Some(key)) = (&c.via, &e.state_key) {
            if via.len() > 0 {
                let ghost before = kids@;
                kids.push(key.clone());
                assert(views(kids@) =~= views(before).push(key@));
                assert(kids_view(kids@) == add_child(kids_view(before), key@));
            }
        }
    }
    if is_bridge_event_type(t) {
        room.is_bridge = true;
    }
    assert(with_kids(room@, kids@) == apply_event(r0, *e));
}

/// Folds a room's state events into its directory entry.
pub fn build_public_room(j: &JoinedRoomState) -> (r: PublicRoom)
    ensures
        r@ == room_entry(*j),
{
    let mut room = PublicRoom {
        room_id: j.room_id.clone(),
        room_type: None,
        origin_server_ts: None,
        commune_room_type: None,
        name: None,
        canonical_alias: None,
        commune_alias: None,
        sender: None,
        avatar_url: None,
        banner_url: None,
        topic: None,
        join_rule: None,
        history_visibility: String::new(),
        children: None,
        is_bridge: false,
    };
    let mut kids: Vec<String> = Vec::new();
    match &j.state {
        Some(events) => {
            let mut i: usize = 0;
            assert(with_kids(room@, kids@) == empty_entry(j.room_id@));
            while i < events.len()
                invariant
                    i <= events@.len(),
                    room.children is None,
                    with_kids(room@, kids@) == fold_events(empty_entry(j.room_id@), events@.subrange(0, i as int)),
                decreases events@.len() - i,
            {
                apply_state_event(&mut room, &mut kids, &events[i]);
                proof {
                    let t = events@.subrange(0, i + 1);
                    assert(t.drop_last() =~= events@.subrange(0, i as int));
                    assert(t.last() == events@[i as int]);
                }
                i = i + 1;
            }
            assert(events@.subrange(0, events@.len() as int) =~= events@);
        },
        None => {
            assert(with_kids(room@, kids@) == empty_entry(j.room_id@));
        },
    }
    let ghost folded = with_kids(room@, kids@);
    if kids.len() > 0 {
        room.children = Some(kids);
    }
    assert(room@ == folded);
    room
}

/// `n` holds the marker `[⛓️]`, which hides a room from the directory.
pub open spec fn excluded_name(n: Seq<char>) -> bool {
    exists|i: int|
        0 <= i && i + 4 <= n.len() && n[i] == '[' && n[i + 1] == '\u{26d3}' && n[i + 2] == '\u{fe0f}'
            && #[trigger] n[i + 3] == ']'
}

/// An entry whose name holds the exclusion marker.
pub open spec fn excluded(r: RoomView) -> bool {
    r.name matches Some(n) && excluded_name(n)
}

/// Whether `name` holds the exclusion marker.
pub fn has_exclusion_marker(name: &str) -> (r: bool)
    ensures
        r == excluded_name(name@),
{
    let n = name.unicode_len();
    if n < 4 {
        return false;
    }
    let mut i: usize = 0;
    while i <= n - 4
        invariant
            n == name@.len(),
            4 <= n,
            i <= n - 3,
            forall|k: int| 0 <= k < i ==> !(name@[k] == '[' && name@[k + 1] == '\u{26d3}'
                && name@[k + 2] == '\u{fe0f}' && #[trigger] name@[k + 3] == ']'),
        decreases n - i,
    {
        if name.get_char(i) == '[' && name.get_char(i + 1) == '\u{26d3}' && name.get_char(i + 2)
            == '\u{fe0f}' && name.get_char(i + 3) == ']' {
            return true;
        }
        i = i + 1;
    }
    false
}

/// The entries of `rooms` in order, without the excluded ones.
pub open spec fn listed_entries(rooms: Seq<JoinedRoomState>) -> Seq<RoomView>
    decreases rooms.len(),
{
    if rooms.len() == 0 {
        Seq::empty()
    } else {
        let p = listed_entries(rooms.drop_last());
        let e = room_entry(rooms.last());
        if excluded(e) {
            p
        } else {
            p.push(e)
        }
    }
}

/// The alias `#local_part:server`.
pub open spec fn local_alias(local_part: Seq<char>, server: Seq<char>) -> Seq<char> {
    seq!['#'] + local_part + seq![':'] + server
}

/// The aliases of the curated rooms, in display order.
pub open spec fn curated_aliases(local_parts: Seq<Seq<char>>, server: Seq<char>) -> Seq<Seq<char>> {
    local_parts.map_values(|lp: Seq<char>| local_alias(lp, server))
}

/// The first position of `a` in `al`.
pub open spec fn index_in(al: Seq<Seq<char>>, a: Seq<char>) -> Option<int>
    decreases al.len(),
{
    if al.len() == 0 {
        None
    } else if al[0] == a {
        Some(0)
    } else {
        match index_in(al.drop_first(), a) {
            Some(i) => Some(i + 1),
            None => None,
        }
    }
}

/// The display position of an entry: that of its canonical alias among the
/// curated ones, or none.
pub open spec fn rank(r: RoomView, al: Seq<Seq<char>>) -> Option<int> {
    index_in(
        al,
        match r.canonical_alias {
            Some(a) => a,
            None => Seq::empty(),
        },
    )
}

/// The entries of `rooms` with rank `k`, in order.
pub open spec fn with_rank(rooms: Seq<RoomView>, al: Seq<Seq<char>>, k: Option<int>) -> Seq<RoomView>
    decreases rooms.len(),
{
    if rooms.len() == 0 {
        Seq::empty()
    } else {
        let p = with_rank(rooms.drop_last(), al, k);
        if rank(rooms.last(), al) == k {
            p.push(rooms.last())
        } else {
            p
        }
    }
}

/// The entries of rank below `k`, by rank, each rank in input order.
pub open spec fn ranked_below(rooms: Seq<RoomView>, al: Seq<Seq<char>>, k: nat) -> Seq<RoomView>
    decreases k,
{
    if k == 0 {
        Seq::empty()
    } else {
        ranked_below(rooms, al, (k - 1) as nat) + with_rank(rooms, al, Some(k - 1))
    }
}

/// `rooms` stably ordered by rank, the unranked ones last.
pub open spec fn curated_order(rooms: Seq<RoomView>, al: Seq<Seq<char>>) -> Seq<RoomView> {
    ranked_below(rooms, al, al.len()) + with_rank(rooms, al, None)
}

/// The public directory of `rooms`: their entries without the excluded ones,
/// in curated order when curation is configured.
pub open spec fn public_directory(rooms: Seq<JoinedRoomState>, curation: PublicRooms, server: Seq<char>) -> Seq<RoomView> {
    let kept = listed_entries(rooms);
    if curation.curated && curation.include_rooms@.len() > 0 {
        curated_order(kept, curated_aliases(views(curation.include_rooms@), server))
    } else {
        kept
    }
}

/// The views of a list of entries.
pub open spec fn room_views(v: Seq<PublicRoom>) -> Seq<RoomView> {
    v.map_values(|p: PublicRoom| p@)
}

proof fn lemma_index_in_at(al: Seq<Seq<char>>, a: Seq<char>, i: int)
    requires
        0 <= i < al.len(),
        al[i] == a,
        forall|j: int| 0 <= j < i ==> al[j] != a,
    ensures
        index_in(al, a) == Some(i),
    decreases i,
{
    if i > 0 {
        lemma_index_in_at(al.drop_first(), a, i - 1);
    }
}

proof fn lemma_index_in_none(al: Seq<Seq<char>>, a: Seq<char>)
    requires
        forall|j: int| 0 <= j < al.len() ==> al[j] != a,
    ensures
        index_in(al, a) is None,
    decreases al.len(),
{
    if al.len() > 0 {
        lemma_index_in_none(al.drop_first(), a);
    }
}

/// An optional position as an integer.
pub open spec fn opt_int(o: Option<usize>) -> Option<int> {
    match o {
        Some(x) => Some(x as int),
        None => None,
    }
}

/// The characters of an optional alias; none reads as empty.
pub open spec fn alias_key(o: Option<String>) -> Seq<char> {
    match o {
        Some(a) => a@,
        None => Seq::empty(),
    }
}

fn same_rank(a: Option<usize>, b: Option<usize>) -> (r: bool)
    ensures
        r == (opt_int(a) == opt_int(b)),
{
    match a {
        Some(x) => match b {
            Some(y) => x == y,
            None => false,
        },
        None => b.is_none(),
    }
}

/// `index_in` finds the first occurrence.
pub proof fn lemma_index_in_at_pub(al: Seq<Seq<char>>, a: Seq<char>, i: int)
    requires
        0 <= i < al.len(),
        al[i] == a,
        forall|j: int| 0 <= j < i ==> al[j] != a,
    ensures
        index_in(al, a) == Some(i),
{
    lemma_index_in_at(al, a, i);
}

/// `index_in` finds nothing where there is nothing.
pub proof fn lemma_index_in_none_pub(al: Seq<Seq<char>>, a: Seq<char>)
    requires
        forall|j: int| 0 <= j < al.len() ==> al[j] != a,
    ensures
        index_in(al, a) is None,
{
    lemma_index_in_none(al, a);
}

/// The display position of `alias` among `aliases`.
fn alias_rank(alias: &Option<String>, aliases: &Vec<String>) -> (r: Option<usize>)
    ensures
        opt_int(r) == index_in(views(aliases@), alias_key(*alias)),
{
    let a: &str = match alias {
        Some(s) => s.as_str(),
        None => "",
    };
    let ghost av = alias_key(*alias);
    proof {
        reveal_strlit("");
    }
    assert(a@ =~= av);
    let mut i: usize = 0;
    while i < aliases.len()
        invariant
            i <= aliases@.len(),
            a@ == av,
            av == alias_key(*alias),
            forall|j: int| 0 <= j < i ==> views(aliases@)[j] != av,
        decreases aliases@.len() - i,
    {
        assert(views(aliases@)[i as int] == aliases@[i as int]@);
        if str_eq(aliases[i].as_str(), a) {
            proof {
                lemma_index_in_at(views(aliases@), av, i as int);
            }
            return Some(i);
        }
        i = i + 1;
    }
    proof {
        lemma_index_in_none(views(aliases@), av);
    }
    None
}

/// The aliases `#local_part:server` of the curated rooms.
fn build_curated_aliases(local_parts: &Vec<String>, server_name: &str) -> (r: Vec<String>)
    ensures
        views(r@) == curated_aliases(views(local_parts@), server_name@),
{
    let mut out: Vec<String> = Vec::new();
    let mut i: usize = 0;
    while i < local_parts.len()
        invariant
            i <= local_parts@.len(),
            views(out@) == curated_aliases(views(local_parts@.subrange(0, i as int)), server_name@),
        decreases local_parts@.len() - i,
    {
        proof {
            reveal_strlit("#");
            reveal_strlit(":");
        }
        let mut a = owned("#");
        a.append(local_parts[i].as_str());
        a.append(":");
        a.append(server_name);
        assert(a@ =~= local_alias(local_parts@[i as int]@, server_name@));
        let ghost before = out@;
        out.push(a);
        proof {
            assert(views(out@) =~= views(before).push(local_alias(local_parts@[i as int]@, server_name@)));
            assert(curated_aliases(views(local_parts@.subrange(0, i + 1)), server_name@) =~= curated_aliases(
                views(local_parts@.subrange(0, i as int)),
                server_name@,
            ).push(local_alias(local_parts@[i as int]@, server_name@)));
        }
        i = i + 1;
    }
    assert(local_parts@.subrange(0, local_parts@.len() as int) =~= local_parts@);
    out
}

/// The entries of `rooms` whose rank is `k`, copied in order.
fn collect_rank(rooms: &Vec<PublicRoom>, ranks: &Vec<Option<usize>>, k: Option<usize>, out: &mut Vec<PublicRoom>, al: Ghost<Seq<Seq<char>>>)
    requires
        ranks@.len() == rooms@.len(),
        forall|i: int| 0 <= i < rooms@.len() ==> opt_int(#[trigger] ranks@[i]) == rank(rooms@[i]@, al@),
    ensures
        room_views(final(out)@) == room_views(old(out)@) + with_rank(room_views(rooms@), al@, opt_int(k)),
{
    let ghost kk = opt_int(k);
    let ghost start = room_views(out@);
    let mut i: usize = 0;
    while i < rooms.len()
        invariant
            i <= rooms@.len(),
            kk == opt_int(k),
            ranks@.len() == rooms@.len(),
            forall|i: int| 0 <= i < rooms@.len() ==> opt_int(#[trigger] ranks@[i]) == rank(rooms@[i]@, al@),
            room_views(out@) == start + with_rank(room_views(rooms@.subrange(0, i as int)), al@, kk),
        decreases rooms@.len() - i,
    {
        proof {
            let t = room_views(rooms@.subrange(0, i + 1));
            assert(t.drop_last() =~= room_views(rooms@.subrange(0, i as int)));
            assert(t.last() == rooms@[i as int]@);
        }
        let same = same_rank(ranks[i], k);
        let ghost ri = opt_int(ranks@[i as int]);
        assert(ri == rank(rooms@[i as int]@, al@));
        assert(same == (ri == kk));
        let ghost w = with_rank(room_views(rooms@.subrange(0, i as int)), al@, kk);
        if same {
            let ghost before = room_views(out@);
            out.push(copy_room(&rooms[i]));
            assert(room_views(out@) =~= before.push(rooms@[i as int]@));
            assert(start + w.push(rooms@[i as int]@) =~= (start + w).push(rooms@[i as int]@));
        }
        i = i + 1;
    }
    assert(rooms@.subrange(0, rooms@.len() as int) =~= rooms@);
}

/// Orders entries by curated rank, stably, the unranked ones last.
fn order_curated(rooms: &Vec<PublicRoom>, aliases: &Vec<String>) -> (r: Vec<PublicRoom>)
    ensures
        room_views(r@) == curated_order(room_views(rooms@), views(aliases@)),
{
    let ghost al = views(aliases@);
    let mut ranks: Vec<Option<usize>> = Vec::new();
    let mut i: usize = 0;
    while i < rooms.len()
        invariant
            i <= rooms@.len(),
            al == views(aliases@),
            ranks@.len() == i,
            forall|j: int| 0 <= j < i ==> opt_int(#[trigger] ranks@[j]) == rank(rooms@[j]@, al),
        decreases rooms@.len() - i,
    {
        ranks.push(alias_rank(&rooms[i].canonical_alias, aliases));
        i = i + 1;
    }
    let mut out: Vec<PublicRoom> = Vec::new();
    let mut k: usize = 0;
    while k < aliases.len()
        invariant
            k <= aliases@.len(),
            al == views(aliases@),
            ranks@.len() == rooms@.len(),
            forall|j: int| 0 <= j < rooms@.len() ==> opt_int(#[trigger] ranks@[j]) == rank(rooms@[j]@, al),
            room_views(out@) == ranked_below(room_views(rooms@), al, k as nat),
        decreases aliases@.len() - k,
    {
        collect_rank(rooms, &ranks, Some(k), &mut out, Ghost(al));
        k = k + 1;
    }
    collect_rank(rooms, &ranks, None, &mut out, Ghost(al));
    out
}

/// The public directory: each room's entry, without those whose name holds
/// the exclusion marker, in curated order when curation is configured.
pub fn process_rooms(rooms: &Vec<JoinedRoomState>, curation: &PublicRooms, server_name: &str) -> (r: Vec<PublicRoom>)
    ensures
        room_views(r@) == public_directory(rooms@, *curation, server_name@),
{
    let mut kept: Vec<PublicRoom> = Vec::new();
    let mut i: usize = 0;
    while i < rooms.len()
        invariant
            i <= rooms@.len(),
            room_views(kept@) == listed_entries(rooms@.subrange(0, i as int)),
        decreases rooms@.len() - i,
    {
        let entry = build_public_room(&rooms[i]);
        proof {
            let t = rooms@.subrange(0, i + 1);
            assert(t.drop_last() =~= rooms@.subrange(0, i as int));
            assert(t.last() == rooms@[i as int]);
        }
        let hidden = match &entry.name {
            Some(n) => has_exclusion_marker(n.as_str()),
            None => false,
        };
        if !hidden {
            let ghost before = room_views(kept@);
            kept.push(entry);
            assert(room_views(kept@) =~= before.push(room_entry(rooms@[i as int])));
        }
        i = i + 1;
    }
    assert(rooms@.subrange(0, rooms@.len() as int) =~= rooms@);
    if curation.curated && curation.include_rooms.len() > 0 {
        let aliases = build_curated_aliases(&curation.include_rooms, server_name);
        order_curated(&kept, &aliases)
    } else {
        kept
    }
}

/// No entry of `s` is excluded.
pub open spec fn none_excluded(s: Seq<RoomView>) -> bool {
    forall|i: int| 0 <= i < s.len() ==> !excluded(#[trigger] s[i])
}

proof fn lemma_listed_not_excluded(rooms: Seq<JoinedRoomState>)
    ensures
        none_excluded(listed_entries(rooms)),
    decreases rooms.len(),
{
    if rooms.len() > 0 {
        lemma_listed_not_excluded(rooms.drop_last());
    }
}

proof fn lemma_with_rank_not_excluded(rooms: Seq<RoomView>, al: Seq<Seq<char>>, k: Option<int>)
    requires
        none_excluded(rooms),
    ensures
        none_excluded(with_rank(rooms, al, k)),
    decreases rooms.len(),
{
    if rooms.len() > 0 {
        assert(none_excluded(rooms.drop_last())) by {
            assert forall|i: int| 0 <= i < rooms.drop_last().len() implies !excluded(#[trigger] rooms.drop_last()[i]) by {
                assert(rooms.drop_last()[i] == rooms[i]);
            }
        }
        lemma_with_rank_not_excluded(rooms.drop_last(), al, k);
        assert(!excluded(rooms[rooms.len() - 1]));
    }
}

proof fn lemma_concat_not_excluded(a: Seq<RoomView>, b: Seq<RoomView>)
    requires
        none_excluded(a),
        none_excluded(b),
    ensures
        none_excluded(a + b),
{
    assert forall|i: int| 0 <= i < (a + b).len() implies !excluded(#[trigger] (a + b)[i]) by {
        if i < a.len() {
            assert((a + b)[i] == a[i]);
        } else {
            assert((a + b)[i] == b[i - a.len()]);
        }
    }
}

proof fn lemma_ranked_below_not_excluded(rooms: Seq<RoomView>, al: Seq<Seq<char>>, k: nat)
    requires
        none_excluded(rooms),
    ensures
        none_excluded(ranked_below(rooms, al, k)),
    decreases k,
{
    if k > 0 {
        lemma_ranked_below_not_excluded(rooms, al, (k - 1) as nat);
        lemma_with_rank_not_excluded(rooms, al, Some(k - 1));
        lemma_concat_not_excluded(ranked_below(rooms, al, (k - 1) as nat), with_rank(rooms, al, Some(k - 1)));
    }
}

/// No room whose resolved name holds the exclusion marker is ever listed in
/// the public directory, whatever its other fields and the curation.
pub proof fn lemma_excluded_never_listed(rooms: Seq<JoinedRoomState>, curation: PublicRooms, server: Seq<char>)
    ensures
        forall|i: int| 0 <= i < public_directory(rooms, curation, server).len()
            ==> !excluded(#[trigger] public_directory(rooms, curation, server)[i]),
{
    let kept = listed_entries(rooms);
    lemma_listed_not_excluded(rooms);
    let al = curated_aliases(views(curation.include_rooms@), server);
    lemma_ranked_below_not_excluded(kept, al, al.len());
    lemma_with_rank_not_excluded(kept, al, None);
    lemma_concat_not_excluded(ranked_below(kept, al, al.len()), with_rank(kept, al, None));
}

/// Building the directory twice from the same room states and curation gives
/// the same entries in the same order.
pub proof fn lemma_directory_repeatable(
    first: Seq<PublicRoom>,
    second: Seq<PublicRoom>,
    rooms: Seq<JoinedRoomState>,
    curation: PublicRooms,
    server: Seq<char>,
)
    requires
        room_views(first) == public_directory(rooms, curation, server),
        room_views(second) == public_directory(rooms, curation, server),
    ensures
        room_views(first) == room_views(second),
{
}

/// The kind of a room shown in a summary.
#[derive(PartialEq, Eq, Structural, Clone, Copy, Debug)]
pub enum RoomType {
    Chat,
    Forum,
}

impl Default for RoomType {
    fn default() -> (r: Self)
        ensures
            r == RoomType::Chat,
    {
        RoomType::Chat
    }
}

impl RoomType {
    /// The name of the kind.
    pub fn as_str(&self) -> (r: &'static str)
        ensures
            *self == RoomType::Chat ==> r@ == "chat"@,
            *self == RoomType::Forum ==> r@ == "forum"@,
    {
        match self {
            RoomType::Chat => "chat",
            RoomType::Forum => "forum",
        }
    }
}

/// The summary of one room.
pub struct RoomSummary {
    pub room_id: String,
    pub name: Option<String>,
    pub canonical_alias: Option<String>,
    pub avatar_url: Option<String>,
    pub banner_url: Option<String>,
    pub topic: Option<String>,
    pub room_type: RoomType,
}

/// A room summary as values.
pub struct SummaryView {
    pub room_id: Seq<char>,
    pub name: Option<Seq<char>>,
    pub canonical_alias: Option<Seq<char>>,
    pub avatar_url: Option<Seq<char>>,
    pub banner_url: Option<Seq<char>>,
    pub topic: Option<Seq<char>>,
    pub room_type: RoomType,
}

impl View for RoomSummary {
    type V = SummaryView;

    open spec fn view(&self) -> SummaryView {
        SummaryView {
            room_id: self.room_id@,
            name: ov(self.name),
            canonical_alias: ov(self.canonical_alias),
            avatar_url: ov(self.avatar_url),
            banner_url: ov(self.banner_url),
            topic: ov(self.topic),
            room_type: self.room_type,
        }
    }
}

/// An optional string, with the empty string read as absent.
pub open spec fn non_empty(o: Option<String>) -> Option<Seq<char>> {
    match o {
        Some(s) => if s@.len() == 0 {
            None
        } else {
            Some(s@)
        },
        None => None,
    }
}

/// The summary after one more state event.
pub open spec fn apply_summary(r: SummaryView, e: StateEvent) -> SummaryView {
    let t = e.event_type@;
    let c = e.content;
    if t == "m.room.name"@ {
        if c.name is Some {
            SummaryView { name: non_empty(c.name), ..r }
        } else {
            r
        }
    } else if t == "m.room.canonical_alias"@ {
        SummaryView { canonical_alias: ov(c.alias), ..r }
    } else if t == "m.room.avatar"@ {
        SummaryView { avatar_url: non_empty(c.url), ..r }
    } else if t == "commune.room.banner"@ {
        SummaryView { banner_url: ov(c.url), ..r }
    } else if t == "m.room.topic"@ {
        if c.topic is Some {
            SummaryView { topic: non_empty(c.topic), ..r }
        } else {
            r
        }
    } else if t == "commune.room.type"@ {
        SummaryView {
            room_type: if c.room_type matches Some(k) && k@ == "forum"@ {
                RoomType::Forum
            } else {
                RoomType::Chat
            },
            ..r
        }
    } else {
        r
    }
}

/// The summary after reading `events` in order.
pub open spec fn fold_summary(r: SummaryView, events: Seq<StateEvent>) -> SummaryView
    decreases events.len(),
{
    if events.len() == 0 {
        r
    } else {
        apply_summary(fold_summary(r, events.drop_last()), events.last())
    }
}

/// The summary of a room before any of its events is read.
pub open spec fn empty_summary(room_id: Seq<char>) -> SummaryView {
    SummaryView {
        room_id,
        name: None,
        canonical_alias: None,
        avatar_url: None,
        banner_url: None,
        topic: None,
        room_type: RoomType::Chat,
    }
}

fn copy_non_empty(o: &Option<String>) -> (r: Option<String>)
    ensures
        ov(r) == non_empty(*o),
{
    match o {
        Some(s) => if s.unicode_len() == 0 {
            None
        } else {
            Some(s.clone())
        },
        None => None,
    }
}

/// Folds a room's state events into its summary.
pub fn build_room_summary(room_id: &str, state: &Vec<StateEvent>) -> (r: RoomSummary)
    ensures
        r@ == fold_summary(empty_summary(room_id@), state@),
{
    let mut sum = RoomSummary {
        room_id: owned(room_id),
        name: None,
        canonical_alias: None,
        avatar_url: None,
        banner_url: None,
        topic: None,
        room_type: RoomType::Chat,
    };
    let mut i: usize = 0;
    while i < state.len()
        invariant
            i <= state@.len(),
            sum@ == fold_summary(empty_summary(room_id@), state@.subrange(0, i as int)),
        decreases state@.len() - i,
    {
        let e = &state[i];
        let t = e.event_type.as_str();
        let c = &e.content;
        if str_eq(t, "m.room.name") {
            if c.name.is_some() {
                sum.name = copy_non_empty(&c.name);
            }
        } else if str_eq(t, "m.room.canonical_alias") {
            sum.canonical_alias = copy_opt(&c.alias);
        } else if str_eq(t, "m.room.avatar") {
            sum.avatar_url = copy_non_empty(&c.url);
        } else if str_eq(t, "commune.room.banner") {
            sum.banner_url = copy_opt(&c.url);
        } else if str_eq(t, "m.room.topic") {
            if c.topic.is_some() {
                sum.topic = copy_non_empty(&c.topic);
            }
        } else if str_eq(t, "commune.room.type") {
            sum.room_type = match &c.room_type {
                Some(k) => if str_eq(k.as_str(), "forum") {
                    RoomType::Forum
                } else {
                    RoomType::Chat
                },
                None => RoomType::Chat,
            };
        }
        proof {
            let t = state@.subrange(0, i + 1);
            assert(t.drop_last() =~= state@.subrange(0, i as int));
            assert(t.last() == state@[i as int]);
        }
        i = i + 1;
    }
    assert(state@.subrange(0, state@.len() as int) =~= state@);
    sum
}

/// A member state event content grants membership when it reads `join`.
pub fn is_joined_membership(membership: &Option<String>) -> (r: bool)
    ensures
        r == (membership matches Some(m) && m@ == "join"@),
{
    match membership {
        Some(m) => str_eq(m.as_str(), "join"),
        None => false,
    }
}

/// A room is a space when its hierarchy lists more than the room itself.
pub fn hierarchy_is_space(hierarchy: &Vec<String>) -> (r: bool)
    ensures
        r == (hierarchy@.len() > 1),
{
    hierarchy.len() > 1
}

/// A room of a space hierarchy: its identifier and name.
pub struct HierarchyRoom {
    pub room_id: String,
    pub name: Option<String>,
}

/// The room's name has slug `wanted`.
pub open spec fn slug_hit(r: HierarchyRoom, wanted: Seq<char>) -> bool {
    r.name matches Some(n) && crate::ids::slug(n@) == wanted
}

/// The first room of `rooms` whose name has slug `wanted`.
pub open spec fn slug_match(rooms: Seq<HierarchyRoom>, wanted: Seq<char>) -> Option<int>
    decreases rooms.len(),
{
    if rooms.len() == 0 {
        None
    } else if slug_hit(rooms[0], wanted) {
        Some(0)
    } else {
        match slug_match(rooms.drop_first(), wanted) {
            Some(i) => Some(i + 1),
            None => None,
        }
    }
}

proof fn lemma_slug_match_at(rooms: Seq<HierarchyRoom>, wanted: Seq<char>, i: int)
    requires
        0 <= i < rooms.len(),
        slug_hit(rooms[i], wanted),
        forall|j: int| 0 <= j < i ==> !slug_hit(#[trigger] rooms[j], wanted),
    ensures
        slug_match(rooms, wanted) == Some(i),
    decreases i,
{
    if i > 0 {
        lemma_slug_match_at(rooms.drop_first(), wanted, i - 1);
    }
}

proof fn lemma_slug_match_none(rooms: Seq<HierarchyRoom>, wanted: Seq<char>)
    requires
        forall|j: int| 0 <= j < rooms.len() ==> !slug_hit(#[trigger] rooms[j], wanted),
    ensures
        slug_match(rooms, wanted) is None,
    decreases rooms.len(),
{
    if rooms.len() > 0 {
        lemma_slug_match_none(rooms.drop_first(), wanted);
    }
}

/// The position of the first room of a hierarchy whose name slugs to
/// `wanted`.
pub fn room_by_slug(rooms: &Vec<HierarchyRoom>, wanted: &str) -> (r: Option<usize>)
    ensures
        opt_int(r) == slug_match(rooms@, wanted@),
{
    let mut i: usize = 0;
    while i < rooms.len()
        invariant
            i <= rooms@.len(),
            forall|j: int| 0 <= j < i ==> !slug_hit(#[trigger] rooms@[j], wanted@),
        decreases rooms@.len() - i,
    {
        let hit = match &rooms[i].name {
            Some(n) => {
                let s = crate::ids::slugify(n.as_str());
                str_eq(s.as_str(), wanted)
            },
            None => false,
        };
        if hit {
            proof {
                lemma_slug_match_at(rooms@, wanted@, i as int);
            }
            return Some(i);
        }
        i = i + 1;
    }
    proof {
        lemma_slug_match_none(rooms@, wanted@);
    }
    None
}

/// `s` is one of the strings of `v`.
pub open spec fn listed_in(v: Seq<String>, s: Seq<char>) -> bool {
    exists|i: int| 0 <= i < v.len() && v[i]@ == s
}

/// `s` is in one of the first `k` lists.
pub open spec fn listed_in_any(lists: Seq<Vec<String>>, k: int, s: Seq<char>) -> bool {
    exists|j: int| 0 <= j < k && #[trigger] listed_in(lists[j]@, s)
}

/// The rooms of several hierarchies, each once, in order of first appearance.
pub fn unique_room_ids(lists: &Vec<Vec<String>>) -> (r: Vec<String>)
    ensures
        forall|s: Seq<char>| #[trigger] listed_in(r@, s) <==> listed_in_any(lists@, lists@.len() as int, s),
{
    let mut set = JoinedRooms::new();
    let mut k: usize = 0;
    while k < lists.len()
        invariant
            k <= lists@.len(),
            set.wf(),
            forall|s: Seq<char>| #[trigger] set@.contains(s) <==> listed_in_any(lists@, k as int, s),
        decreases lists@.len() - k,
    {
        let list = &lists[k];
        let mut i: usize = 0;
        while i < list.len()
            invariant
                k < lists@.len(),
                list == &lists@[k as int],
                i <= list@.len(),
                set.wf(),
                forall|s: Seq<char>| #[trigger] set@.contains(s) <==> (listed_in_any(lists@, k as int, s)
                    || listed_in(list@.subrange(0, i as int), s)),
            decreases list@.len() - i,
        {
            set.add(list[i].as_str());
            proof {
                assert forall|s: Seq<char>| #[trigger] set@.contains(s) <==> (listed_in_any(lists@, k as int, s)
                    || listed_in(list@.subrange(0, i + 1), s)) by {
                    let t = list@.subrange(0, i + 1);
                    if s == list@[i as int]@ {
                        assert(t[i as int]@ == s);
                    }
                    if listed_in(t, s) {
                        let j = choose|j: int| 0 <= j < t.len() && t[j]@ == s;
                        if j < i {
                            assert(list@.subrange(0, i as int)[j]@ == s);
                        }
                    }
                    if listed_in(list@.subrange(0, i as int), s) {
                        let j = choose|j: int| 0 <= j < i && list@.subrange(0, i as int)[j]@ == s;
                        assert(t[j]@ == s);
                    }
                }
            }
            i = i + 1;
        }
        proof {
            assert(list@.subrange(0, list@.len() as int) =~= list@);
            assert forall|s: Seq<char>| #[trigger] set@.contains(s) <==> listed_in_any(lists@, k + 1, s) by {
                if listed_in(list@, s) {
                    assert(listed_in(lists@[k as int]@, s));
                }
                if listed_in_any(lists@, k + 1, s) {
                    let j = choose|j: int| 0 <= j < k + 1 && #[trigger] listed_in(lists@[j]@, s);
                    if j < k {
                        assert(listed_in_any(lists@, k as int, s));
                    }
                }
            }
        }
        k = k + 1;
    }
    let r = set.snapshot();
    assert forall|s: Seq<char>| #[trigger] listed_in(r@, s) <==> listed_in_any(lists@, lists@.len() as int, s) by {
        assert(set@.contains(s) <==> listed_in(r@, s));
    }
    r
}

} // verus!
