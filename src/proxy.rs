//! The proxy gateway's request policy: request kinds, header filtering, the
//! upstream URL, caching decisions, credentials and room path rewriting.
use vstd::prelude::*;
use crate::cache::namespaced;
use crate::config::Cache;
use crate::directory::index_in;
use crate::text::{
    ends_with, has_prefix, has_suffix, last_pos, lower_of, lowercase, owned, rfind_char,
    starts_with, str_eq, trim, trimmed, views,
};

verus! {

/// The kind of a proxied request, which picks its caching rule.
#[derive(PartialEq, Eq, Structural, Clone, Copy, Debug)]
pub enum ProxyRequestType {
    RoomState,
    Messages,
    Media,
    Other,
}

/// The kind of a request for `path`.
pub open spec fn request_type_of(path: Seq<char>) -> ProxyRequestType {
    if has_suffix(path, "/state"@) {
        ProxyRequestType::RoomState
    } else if has_suffix(path, "/messages"@) {
        ProxyRequestType::Messages
    } else if has_prefix(path, "/_matrix/client/v1/media/"@) {
        ProxyRequestType::Media
    } else {
        ProxyRequestType::Other
    }
}

/// The kind of a request for `path`.
pub fn parse_request_type(path: &str) -> (r: ProxyRequestType)
    ensures
        r == request_type_of(path@),
{
    if ends_with(path, "/state") {
        ProxyRequestType::RoomState
    } else if ends_with(path, "/messages") {
        ProxyRequestType::Messages
    } else if starts_with(path, "/_matrix/client/v1/media/") {
        ProxyRequestType::Media
    } else {
        ProxyRequestType::Other
    }
}

/// What the middleware learns about a request before it is forwarded.
pub struct Data {
    /// The path with the room alias replaced by its identifier, with the query.
    pub modified_path: Option<String>,
    pub room_id: Option<String>,
    pub is_media_request: bool,
    pub proxy_request_type: ProxyRequestType,
}

impl Data {
    /// The data of a request for `path`, before any room is resolved.
    pub fn for_path(path: &str) -> (r: Data)
        ensures
            r.modified_path is None,
            r.room_id is None,
            r.is_media_request == has_prefix(path@, "/_matrix/client/v1/media/"@),
            r.proxy_request_type == request_type_of(path@),
    {
        Data {
            modified_path: None,
            room_id: None,
            is_media_request: starts_with(path, "/_matrix/client/v1/media/"),
            proxy_request_type: parse_request_type(path),
        }
    }
}

/// The hop-by-hop header names, in lower case.
pub open spec fn hop_by_hop(name: Seq<char>) -> bool {
    name == "connection"@ || name == "keep-alive"@ || name == "proxy-authenticate"@
        || name == "proxy-authorization"@ || name == "te"@ || name == "trailers"@
        || name == "transfer-encoding"@ || name == "upgrade"@
}

/// Whether a lower-case header name is a hop-by-hop one.
pub fn is_hop_by_hop_lowercase(name: &str) -> (r: bool)
    ensures
        r == hop_by_hop(name@),
{
    str_eq(name, "connection") || str_eq(name, "keep-alive") || str_eq(name, "proxy-authenticate")
        || str_eq(name, "proxy-authorization") || str_eq(name, "te") || str_eq(name, "trailers")
        || str_eq(name, "transfer-encoding") || str_eq(name, "upgrade")
}

/// Whether a header, in any case, is a hop-by-hop one.
pub fn is_hop_by_hop_header(name: &str) -> (r: bool)
    ensures
        r == hop_by_hop(lower_of(name@)),
{
    let lower = lowercase(name);
    is_hop_by_hop_lowercase(lower.as_str())
}

/// A header that is forwarded upstream: not hop-by-hop and not the client's
/// own credential.
pub open spec fn forwarded(name: Seq<char>) -> bool {
    !hop_by_hop(lower_of(name)) && name != "authorization"@
}

/// The headers, as names and values, that pass `keep`, in order.
pub open spec fn kept_headers(h: Seq<(String, String)>, upstream: bool) -> Seq<(Seq<char>, Seq<char>)>
    decreases h.len(),
{
    if h.len() == 0 {
        Seq::empty()
    } else {
        let p = kept_headers(h.drop_last(), upstream);
        let (n, v) = h.last();
        if (upstream && forwarded(n@)) || (!upstream && !hop_by_hop(lower_of(n@))) {
            p.push((n@, v@))
        } else {
            p
        }
    }
}

/// The names and values of a header list.
pub open spec fn header_views(h: Seq<(String, String)>) -> Seq<(Seq<char>, Seq<char>)> {
    h.map_values(|p: (String, String)| (p.0@, p.1@))
}

fn filter_headers(headers: &Vec<(String, String)>, upstream: bool) -> (r: Vec<(String, String)>)
    ensures
        header_views(r@) == kept_headers(headers@, upstream),
{
    let mut out: Vec<(String, String)> = Vec::new();
    let mut i: usize = 0;
    while i < headers.len()
        invariant
            i <= headers@.len(),
            header_views(out@) == kept_headers(headers@.subrange(0, i as int), upstream),
        decreases headers@.len() - i,
    {
        let (n, v) = &headers[i];
        proof {
            let t = headers@.subrange(0, i + 1);
            assert(t.drop_last() =~= headers@.subrange(0, i as int));
            assert(t.last() == headers@[i as int]);
        }
        let hop = is_hop_by_hop_header(n.as_str());
        let keep = if upstream {
            !hop && !str_eq(n.as_str(), "authorization")
        } else {
            !hop
        };
        if keep {
            let ghost before = out@;
            out.push((n.clone(), v.clone()));
            assert(header_views(out@) =~= header_views(before).push((n@, v@)));
        }
        i = i + 1;
    }
    assert(headers@.subrange(0, headers@.len() as int) =~= headers@);
    out
}

/// The inbound headers to send upstream: all but the hop-by-hop ones and
/// `authorization`, in order.
pub fn forwarded_headers(headers: &Vec<(String, String)>) -> (r: Vec<(String, String)>)
    ensures
        header_views(r@) == kept_headers(headers@, true),
{
    filter_headers(headers, true)
}

/// The upstream response headers to relay: all but the hop-by-hop ones.
pub fn relayed_headers(headers: &Vec<(String, String)>) -> (r: Vec<(String, String)>)
    ensures
        header_views(r@) == kept_headers(headers@, false),
{
    filter_headers(headers, false)
}

/// The upstream URL: the homeserver base, the path, and the query string
/// unless the path was rewritten (a rewritten path carries its own).
pub open spec fn target_url_of(homeserver: Seq<char>, path: Seq<char>, query: Option<Seq<char>>, rewritten: bool) -> Seq<char> {
    match query {
        Some(q) => if rewritten {
            homeserver + path
        } else {
            homeserver + path + seq!['?'] + q
        },
        None => homeserver + path,
    }
}

/// The upstream URL of a proxied request.
pub fn target_url(homeserver: &str, path: &str, query: Option<&str>, rewritten: bool) -> (r: String)
    ensures
        r@ == target_url_of(homeserver@, path@, match query { Some(q) => Some(q@), None => None }, rewritten),
{
    proof {
        reveal_strlit("?");
    }
    let mut url = owned(homeserver);
    url.append(path);
    match query {
        Some(q) => {
            if !rewritten {
                url.append("?");
                url.append(q);
            }
        },
        None => {},
    }
    url
}

/// Whether responses of this kind are cached: never media; room state and
/// messages when both the request cache and their own cache are on; others
/// when the request cache is on.
pub open spec fn cacheable(cache: Cache, kind: ProxyRequestType) -> bool {
    cache.requests.enabled && match kind {
        ProxyRequestType::RoomState => cache.room_state.enabled,
        ProxyRequestType::Messages => cache.messages.enabled,
        ProxyRequestType::Media => false,
        ProxyRequestType::Other => true,
    }
}

/// Whether responses of this kind are cached.
pub fn caching_enabled(cache: &Cache, kind: ProxyRequestType) -> (r: bool)
    ensures
        r == cacheable(*cache, kind),
{
    let skip_cache = match kind {
        ProxyRequestType::RoomState => !cache.room_state.enabled,
        ProxyRequestType::Messages => !cache.messages.enabled,
        ProxyRequestType::Media => true,
        ProxyRequestType::Other => false,
    };
    cache.requests.enabled && !skip_cache
}

/// The cache key of a proxied read: `proxy_request:<url>`.
pub fn proxy_cache_key(url: &str) -> (r: String)
    ensures
        r@ == namespaced("proxy_request"@, url@),
{
    crate::cache::cache_key("proxy_request", url)
}

/// The lower-case hexadecimal SHA-256 digest of `b`.
pub uninterp spec fn sha256_hex(b: Seq<u8>) -> Seq<char>;

/// Relies on sha2's `Sha256::digest`, printed with `{:x}`: the lower-case
/// hexadecimal digest of the bytes.
#[verifier::external_body]
fn digest_hex(b: &Vec<u8>) -> (r: String)
    ensures
        r@ == sha256_hex(b@),
{
    format!("{:x}", <sha2::Sha256 as sha2::Digest>::digest(b.as_slice()))
}

/// `proxy_post_request:<url>:<digest>`.
pub open spec fn search_key_of(url: Seq<char>, digest: Seq<char>) -> Seq<char> {
    "proxy_post_request:"@ + url + seq![':'] + digest
}

/// The cache key of a search request, from the hexadecimal digest of its body.
pub fn search_cache_key_with_digest(url: &str, digest: &str) -> (r: String)
    ensures
        r@ == search_key_of(url@, digest@),
{
    proof {
        reveal_strlit(":");
    }
    let mut k = owned("proxy_post_request:");
    k.append(url);
    k.append(":");
    k.append(digest);
    assert(k@ =~= search_key_of(url@, digest@));
    k
}

/// The cache key of a search request: distinct bodies sent to one URL get
/// distinct keys through the digest of the body.
pub fn search_cache_key(url: &str, body: &Vec<u8>) -> (r: String)
    ensures
        r@ == search_key_of(url@, sha256_hex(body@)),
{
    let digest = digest_hex(body);
    search_cache_key_with_digest(url, digest.as_str())
}

/// The token of an `Authorization: Bearer <token>` header, trimmed.
pub open spec fn bearer_token(header: Seq<char>) -> Option<Seq<char>> {
    if has_prefix(header, "Bearer "@) {
        Some(trimmed(header.subrange(7, header.len() as int)))
    } else {
        None
    }
}

/// What follows `Bearer ` in an authorization header, untrimmed.
pub open spec fn bearer_rest(header: Seq<char>) -> Option<Seq<char>> {
    if has_prefix(header, "Bearer "@) {
        Some(header.subrange(7, header.len() as int))
    } else {
        None
    }
}

/// What follows `Bearer ` in an authorization header, untrimmed.
pub fn strip_bearer(header: &str) -> (r: Option<&str>)
    ensures
        r matches Some(t) ==> bearer_rest(header@) == Some(t@),
        r is None ==> bearer_rest(header@) is None,
{
    proof {
        reveal_strlit("Bearer ");
    }
    if starts_with(header, "Bearer ") {
        let n = header.unicode_len();
        Some(header.substring_char(7, n))
    } else {
        None
    }
}

/// The token of a bearer authorization header.
pub fn extract_token(header: &str) -> (r: Option<String>)
    ensures
        r matches Some(t) ==> bearer_token(header@) == Some(t@),
        r is None ==> bearer_token(header@) is None,
{
    match strip_bearer(header) {
        Some(rest) => Some(owned(trim(rest))),
        None => None,
    }
}

/// Whether a request carrying `header` as its authorization presents the
/// expected token.
pub fn token_matches(header: Option<&str>, expected: &str) -> (r: bool)
    ensures
        r == (header matches Some(h) && bearer_token(h@) == Some(expected@)),
{
    match header {
        Some(h) => match extract_token(h) {
            Some(t) => str_eq(t.as_str(), expected),
            None => false,
        },
        None => false,
    }
}

/// The non-empty `/`-separated segments of `s`, in order.
pub open spec fn segments(s: Seq<char>) -> Seq<Seq<char>>
    decreases s.len(),
{
    match last_pos(s, '/') {
        Some(i) => if 0 <= i < s.len() {
            let tail = s.subrange(i + 1, s.len() as int);
            let head = segments(s.subrange(0, i));
            if tail.len() > 0 {
                head.push(tail)
            } else {
                head
            }
        } else {
            Seq::empty()
        },
        None => if s.len() > 0 {
            seq![s]
        } else {
            Seq::empty()
        },
    }
}

proof fn lemma_last_pos_range(s: Seq<char>, c: char)
    ensures
        last_pos(s, c) matches Some(i) ==> 0 <= i < s.len() && s[i] == c,
    decreases s.len(),
{
    if s.len() > 0 && s.last() != c {
        lemma_last_pos_range(s.drop_last(), c);
    }
}

/// The non-empty segments of a path.
pub fn path_segments(s: &str) -> (r: Vec<String>)
    ensures
        views(r@) == segments(s@),
    decreases s@.len(),
{
    let n = s.unicode_len();
    proof {
        lemma_last_pos_range(s@, '/');
    }
    match rfind_char(s, '/') {
        Some(i) => {
            let tail = s.substring_char(i + 1, n);
            let mut head = path_segments(s.substring_char(0, i));
            if tail.unicode_len() > 0 {
                let ghost before = head@;
                head.push(owned(tail));
                assert(views(head@) =~= views(before).push(tail@));
            }
            head
        },
        None => {
            if n > 0 {
                let v = vec![owned(s)];
                assert(views(v@) =~= seq![s@]);
                v
            } else {
                let v: Vec<String> = Vec::new();
                assert(views(v@) =~= Seq::<Seq<char>>::empty());
                v
            }
        },
    }
}

/// `/` followed by the segments joined with `/`.
pub open spec fn joined_path(segs: Seq<Seq<char>>) -> Seq<char>
    decreases segs.len(),
{
    if segs.len() == 0 {
        seq!['/']
    } else if segs.len() == 1 {
        seq!['/'] + segs[0]
    } else {
        joined_path(segs.drop_last()) + seq!['/'] + segs.last()
    }
}

/// `/` followed by the segments joined with `/`.
pub fn join_path(segs: &Vec<String>) -> (r: String)
    ensures
        r@ == joined_path(views(segs@)),
{
    proof {
        reveal_strlit("/");
    }
    let mut out = owned("/");
    let mut i: usize = 0;
    while i < segs.len()
        invariant
            i <= segs@.len(),
            out@ == joined_path(views(segs@.subrange(0, i as int))),
        decreases segs@.len() - i,
    {
        let ghost before = out@;
        proof {
            reveal_strlit("/");
        }
        if i > 0 {
            out.append("/");
        }
        out.append(segs[i].as_str());
        proof {
            let t = views(segs@.subrange(0, i + 1));
            assert(t.drop_last() =~= views(segs@.subrange(0, i as int)));
            assert(t.last() == segs@[i as int]@);
            if i == 0 {
                assert(t[0] == segs@[0]@);
            }
            assert(out@ =~= joined_path(t));
        }
        i = i + 1;
    }
    assert(segs@.subrange(0, segs@.len() as int) =~= segs@);
    out
}

/// What `http::Uri` parsing and printing make of `s`.
pub uninterp spec fn uri_text(s: Seq<char>) -> Seq<char>;

/// Relies on `http::Uri`'s `FromStr` and `Display`: `s` parsed as a URI and
/// printed back, or the default URI `/` when it does not parse.
#[verifier::external_body]
fn normalize_uri(s: &str) -> (r: String)
    ensures
        r@ == uri_text(s@),
{
    s.parse::<http::Uri>().unwrap_or_default().to_string()
}

/// The path with the segment in the place of `{room_id}` in the route
/// pattern replaced by `room_id`, the query appended, as a URI.
pub open spec fn rewritten_path(pattern: Seq<char>, path: Seq<char>, query: Option<Seq<char>>, room_id: Seq<char>) -> Option<Seq<char>> {
    match index_in(segments(pattern), "{room_id}"@) {
        Some(k) => {
            let segs = segments(path);
            if k < segs.len() {
                let p = joined_path(segs.update(k, room_id));
                Some(uri_text(match query {
                    Some(q) => p + seq!['?'] + q,
                    None => p,
                }))
            } else {
                None
            }
        },
        None => None,
    }
}

proof fn lemma_index_in_range(al: Seq<Seq<char>>, a: Seq<char>)
    ensures
        index_in(al, a) matches Some(i) ==> 0 <= i < al.len(),
    decreases al.len(),
{
    if al.len() > 0 && al[0] != a {
        lemma_index_in_range(al.drop_first(), a);
    }
}

/// The first position of `s` among `v`.
fn segment_position(v: &Vec<String>, s: &str) -> (r: Option<usize>)
    ensures
        r matches Some(k) ==> index_in(views(v@), s@) == Some(k as int),
        r is None ==> index_in(views(v@), s@) is None,
{
    let mut k: usize = 0;
    while k < v.len()
        invariant
            k <= v@.len(),
            forall|j: int| 0 <= j < k ==> views(v@)[j] != s@,
        decreases v@.len() - k,
    {
        assert(views(v@)[k as int] == v@[k as int]@);
        if str_eq(v[k].as_str(), s) {
            proof {
                crate::directory::lemma_index_in_at_pub(views(v@), s@, k as int);
            }
            return Some(k);
        }
        k = k + 1;
    }
    proof {
        crate::directory::lemma_index_in_none_pub(views(v@), s@);
    }
    None
}

/// Rewrites a request path so that the room segment holds `room_id`.
pub fn rewrite_room_path(pattern: &str, path: &str, query: Option<&str>, room_id: &str) -> (r: Option<String>)
    ensures
        r matches Some(p) ==> rewritten_path(pattern@, path@, match query { Some(q) => Some(q@), None => None }, room_id@) == Some(p@),
        r is None ==> rewritten_path(pattern@, path@, match query { Some(q) => Some(q@), None => None }, room_id@) is None,
{
    let pattern_segments = path_segments(pattern);
    let k = match segment_position(&pattern_segments, "{room_id}") {
        Some(k) => k,
        None => {
            return None;
        },
    };
    let mut segs = path_segments(path);
    if k >= segs.len() {
        return None;
    }
    let ghost before = segs@;
    segs.set(k, owned(room_id));
    assert(views(segs@) =~= views(before).update(k as int, room_id@));
    let mut p = join_path(&segs);
    proof {
        reveal_strlit("?");
    }
    let ghost base = p@;
    assert(base == joined_path(views(before).update(k as int, room_id@)));
    match query {
        Some(q) => {
            p.append("?");
            p.append(q);
            assert(p@ =~= base + seq!['?'] + q@);
        },
        None => {},
    }
    Some(normalize_uri(p.as_str()))
}

/// `{homeserver}/_matrix/client/v3/rooms/{room_id}/messages?limit=100&dir=b`.
pub open spec fn messages_url_of(homeserver: Seq<char>, room_id: Seq<char>) -> Seq<char> {
    homeserver + "/_matrix/client/v3/rooms/"@ + room_id + "/messages?limit=100&dir=b"@
}

/// The URL whose response is refreshed when a room gets a new message; its
/// cache key is that of a proxied read of the same URL.
pub fn messages_url(homeserver: &str, room_id: &str) -> (r: String)
    ensures
        r@ == messages_url_of(homeserver@, room_id@),
{
    let mut u = owned(homeserver);
    u.append("/_matrix/client/v3/rooms/");
    u.append(room_id);
    u.append("/messages?limit=100&dir=b");
    u
}

/// The allowed CORS origins: `None` for any origin, which is the answer when
/// the list is absent, empty, or holds `""` or `*`.
pub open spec fn origins_of(allow: Option<Seq<Seq<char>>>) -> Option<Seq<Seq<char>>> {
    match allow {
        Some(o) => if o.len() > 0 && !o.contains(""@) && !o.contains("*"@) {
            Some(o)
        } else {
            None
        },
        None => None,
    }
}

/// The allowed CORS origins.
pub fn cors_origins(allow: &Option<Vec<String>>) -> (r: Option<Vec<String>>)
    ensures
        (match r { Some(v) => Some(views(v@)), None => None }) == origins_of(match allow { Some(v) => Some(views(v@)), None => None }),
{
    match allow {
        Some(list) => {
            if list.len() == 0 {
                return None;
            }
            let mut i: usize = 0;
            let mut out: Vec<String> = Vec::new();
            while i < list.len()
                invariant
                    i <= list@.len(),
                    *allow == Some(*list),
                    views(out@) == views(list@.subrange(0, i as int)),
                    forall|j: int| 0 <= j < i ==> views(list@)[j] != ""@ && views(list@)[j] != "*"@,
                decreases list@.len() - i,
            {
                assert(views(list@)[i as int] == list@[i as int]@);
                if str_eq(list[i].as_str(), "") {
                    assert(views(list@)[i as int] == ""@);
                    assert(views(list@).contains(""@));
                    return None;
                }
                if str_eq(list[i].as_str(), "*") {
                    assert(views(list@)[i as int] == "*"@);
                    assert(views(list@).contains("*"@));
                    return None;
                }
                let ghost before = out@;
                out.push(list[i].clone());
                assert(views(out@) =~= views(before).push(list@[i as int]@));
                assert(views(list@.subrange(0, i + 1)) =~= views(list@.subrange(0, i as int)).push(list@[i as int]@));
                i = i + 1;
            }
            assert(list@.subrange(0, list@.len() as int) =~= list@);
            assert(!views(list@).contains(""@));
            assert(!views(list@).contains("*"@));
            Some(out)
        },
        None => None,
    }
}

/// The next step of the membership gate.
#[derive(PartialEq, Eq, Structural, Clone, Copy, Debug)]
pub enum MembershipCheck {
    /// The cached answer decides.
    Known(bool),
    /// Ask the homeserver; store the answer when it is affirmative and
    /// `store_if_joined` holds.
    AskHomeserver { store_if_joined: bool },
}

/// The membership gate's first step: with the joined-room cache on, a cached
/// answer decides; otherwise the homeserver is asked, and only a cache miss
/// leads to storing an affirmative answer.
pub fn membership_check(cache_enabled: bool, cached: Option<bool>) -> (r: MembershipCheck)
    ensures
        !cache_enabled ==> r == (MembershipCheck::AskHomeserver { store_if_joined: false }),
        cache_enabled && cached is Some ==> r == MembershipCheck::Known(cached->0),
        cache_enabled && cached is None ==> r == (MembershipCheck::AskHomeserver { store_if_joined: true }),
{
    if !cache_enabled {
        return MembershipCheck::AskHomeserver { store_if_joined: false };
    }
    match cached {
        Some(b) => MembershipCheck::Known(b),
        None => MembershipCheck::AskHomeserver { store_if_joined: true },
    }
}

/// Whether to store the homeserver's answer: only an affirmative one, and
/// only after a cache miss.
pub fn store_membership(check: MembershipCheck, joined: bool) -> (r: bool)
    ensures
        r == (check == (MembershipCheck::AskHomeserver { store_if_joined: true }) && joined),
{
    match check {
        MembershipCheck::AskHomeserver { store_if_joined } => store_if_joined && joined,
        MembershipCheck::Known(_) => false,
    }
}

} // verus!
