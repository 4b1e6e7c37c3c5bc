//! Room identifiers, aliases, server names and slugs.
use vstd::prelude::*;
use crate::text::{
    contains_char, find_char, first_pos, has_char, last_pos, lower_of, lowercase,
    owned, push_char, rfind_char,
};

verus! {

/// An ASCII letter or digit.
pub open spec fn is_alnum(c: char) -> bool {
    ('a' <= c && c <= 'z') || ('A' <= c && c <= 'Z') || ('0' <= c && c <= '9')
}

fn alnum(c: char) -> (r: bool)
    ensures
        r == is_alnum(c),
{
    ('a' <= c && c <= 'z') || ('A' <= c && c <= 'Z') || ('0' <= c && c <= '9')
}

/// A character allowed in the local part of a room identifier.
pub open spec fn is_localpart_char(c: char) -> bool {
    is_alnum(c) || c == '.' || c == '_' || c == '=' || c == '-'
}

/// A non-empty local part of at most 255 characters drawn from the allowed set.
pub open spec fn valid_localpart(s: Seq<char>) -> bool {
    0 < s.len() <= 255 && forall|i: int| 0 <= i < s.len() ==> is_localpart_char(#[trigger] s[i])
}

/// One label of a host name: 1 to 63 letters, digits or dashes, starting and
/// ending with a letter or digit.
pub open spec fn valid_label(l: Seq<char>) -> bool {
    &&& 0 < l.len() <= 63
    &&& is_alnum(l[0])
    &&& is_alnum(l.last())
    &&& forall|i: int| 0 <= i < l.len() ==> is_alnum(#[trigger] l[i]) || l[i] == '-'
}

/// `s` cut at every `c`.
pub open spec fn split_on(s: Seq<char>, c: char) -> Seq<Seq<char>>
    decreases s.len(),
{
    match last_pos(s, c) {
        None => seq![s],
        Some(i) => if 0 <= i < s.len() {
            split_on(s.subrange(0, i), c).push(s.subrange(i + 1, s.len() as int))
        } else {
            seq![s]
        },
    }
}

/// A host name: at most 253 characters, not starting or ending with a dot or a
/// dash, whose dot-separated labels are all valid.
pub open spec fn valid_hostname(h: Seq<char>) -> bool {
    &&& 0 < h.len() <= 253
    &&& h[0] != '.' && h.last() != '.' && h[0] != '-' && h.last() != '-'
    &&& forall|k: int| 0 <= k < split_on(h, '.').len() ==> valid_label(#[trigger] split_on(h, '.')[k])
}

/// The value of a string of decimal digits.
pub open spec fn decimal_value(s: Seq<char>) -> nat
    decreases s.len(),
{
    if s.len() == 0 {
        0
    } else {
        decimal_value(s.drop_last()) * 10 + ((s.last() as nat) - ('0' as nat)) as nat
    }
}

pub open spec fn is_digit(c: char) -> bool {
    '0' <= c && c <= '9'
}

pub open spec fn all_digits(d: Seq<char>) -> bool {
    forall|i: int| 0 <= i < d.len() ==> is_digit(#[trigger] d[i])
}

/// `s` without one leading `+`.
pub open spec fn unsigned_digits(s: Seq<char>) -> Seq<char> {
    if s.len() > 0 && s[0] == '+' {
        s.drop_first()
    } else {
        s
    }
}

/// What `str::parse::<u16>` accepts: an optional `+`, then one or more digits
/// whose value fits in 16 bits.
pub open spec fn parsed_u16(s: Seq<char>) -> Option<u16> {
    let d = unsigned_digits(s);
    if d.len() > 0 && all_digits(d) && decimal_value(d) <= 65535 {
        Some(decimal_value(d) as u16)
    } else {
        None
    }
}

/// A server part: a host name, optionally followed by `:` and a non-zero port.
pub open spec fn valid_domain(d: Seq<char>) -> bool {
    &&& d.len() > 0
    &&& match last_pos(d, ':') {
        Some(i) => (parsed_u16(d.subrange(i + 1, d.len() as int)) matches Some(p) && p != 0)
            && valid_hostname(d.subrange(0, i)),
        None => valid_hostname(d),
    }
}

/// `!localpart:domain`, cut at the last colon.
pub open spec fn valid_room_id(s: Seq<char>) -> bool {
    &&& s.len() > 0 && s[0] == '!'
    &&& match last_pos(s, ':') {
        Some(c) => 1 <= c && valid_localpart(s.subrange(1, c))
            && valid_domain(s.subrange(c + 1, s.len() as int)),
        None => false,
    }
}

/// Exactly one colon, with text on both sides, and no leading `!`.
pub open spec fn alias_like(s: Seq<char>) -> bool {
    &&& first_pos(s, ':') matches Some(i)
    &&& last_pos(s, ':') == Some(i)
    &&& 0 < i && i < s.len() - 1
    &&& s[0] != '!'
}

/// Every maximal run of characters other than ASCII letters and digits
/// replaced by a single dash.
pub open spec fn dash_runs(s: Seq<char>) -> Seq<char>
    decreases s.len(),
{
    if s.len() == 0 {
        s
    } else {
        let p = dash_runs(s.drop_last());
        if is_alnum(s.last()) {
            p.push(s.last())
        } else if s.len() >= 2 && !is_alnum(s[s.len() - 2]) {
            p
        } else {
            p.push('-')
        }
    }
}

/// The slug of a name: its runs of other characters dashed, then lower-cased.
pub open spec fn slug(s: Seq<char>) -> Seq<char> {
    lower_of(dash_runs(s))
}

/// Replaces each run of characters other than ASCII letters and digits by `-`.
pub fn dash_non_alnum_runs(s: &str) -> (r: String)
    ensures
        r@ == dash_runs(s@),
{
    let n = s.unicode_len();
    let mut out = String::new();
    let mut i: usize = 0;
    while i < n
        invariant
            n == s@.len(),
            i <= n,
            out@ == dash_runs(s@.subrange(0, i as int)),
        decreases n - i,
    {
        let c = s.get_char(i);
        proof {
            let t = s@.subrange(0, i + 1);
            assert(t.drop_last() =~= s@.subrange(0, i as int));
            assert(t.last() == c);
            if i >= 1 {
                assert(t[t.len() - 2] == s@[i - 1]);
            }
        }
        if alnum(c) {
            push_char(&mut out, c);
        } else if i >= 1 && !alnum(s.get_char(i - 1)) {
        } else {
            push_char(&mut out, '-');
        }
        i = i + 1;
    }
    assert(s@.subrange(0, n as int) =~= s@);
    out
}

/// The URL slug of a room name: runs of other characters than ASCII letters
/// and digits become one dash, and the result is lower-cased.
pub fn slugify(s: &str) -> (r: String)
    ensures
        r@ == slug(s@),
{
    let dashed = dash_non_alnum_runs(s);
    lowercase(dashed.as_str())
}

/// Whether `alias` looks like `name:server` (one colon, both sides non-empty,
/// no leading `!`).
pub fn room_alias_like(alias: &str) -> (r: bool)
    ensures
        r == alias_like(alias@),
{
    let n = alias.unicode_len();
    match find_char(alias, ':') {
        None => false,
        Some(i) => {
            match rfind_char(alias, ':') {
                None => false,
                Some(j) => {
                    if i != j || i == 0 || i + 1 >= n {
                        false
                    } else {
                        alias.get_char(0) != '!'
                    }
                },
            }
        },
    }
}

proof fn lemma_last_pos_in_range(s: Seq<char>, c: char)
    ensures
        last_pos(s, c) matches Some(i) ==> 0 <= i < s.len() && s[i] == c,
    decreases s.len(),
{
    if s.len() > 0 && s.last() != c {
        lemma_last_pos_in_range(s.drop_last(), c);
    }
}

fn localpart_char(c: char) -> (r: bool)
    ensures
        r == is_localpart_char(c),
{
    alnum(c) || c == '.' || c == '_' || c == '=' || c == '-'
}

/// Whether `localpart` is 1 to 255 characters from letters, digits and `._=-`.
pub fn is_valid_localpart(localpart: &str) -> (r: bool)
    ensures
        r == valid_localpart(localpart@),
{
    let n = localpart.unicode_len();
    if n == 0 || n > 255 {
        return false;
    }
    let mut i: usize = 0;
    while i < n
        invariant
            n == localpart@.len(),
            i <= n,
            forall|j: int| 0 <= j < i ==> is_localpart_char(#[trigger] localpart@[j]),
        decreases n - i,
    {
        if !localpart_char(localpart.get_char(i)) {
            return false;
        }
        i = i + 1;
    }
    true
}

/// Whether `label` is a valid host name label.
fn is_valid_label(label: &str) -> (r: bool)
    ensures
        r == valid_label(label@),
{
    let n = label.unicode_len();
    if n == 0 || n > 63 {
        return false;
    }
    if !alnum(label.get_char(0)) || !alnum(label.get_char(n - 1)) {
        return false;
    }
    let mut i: usize = 0;
    while i < n
        invariant
            n == label@.len(),
            i <= n,
            forall|j: int| 0 <= j < i ==> is_alnum(#[trigger] label@[j]) || label@[j] == '-',
        decreases n - i,
    {
        let c = label.get_char(i);
        if !(alnum(c) || c == '-') {
            return false;
        }
        i = i + 1;
    }
    true
}

/// Whether every dot-separated label of `h` is valid.
fn labels_valid(h: &str) -> (r: bool)
    ensures
        r == forall|k: int| 0 <= k < split_on(h@, '.').len() ==> valid_label(#[trigger] split_on(h@, '.')[k]),
    decreases h@.len(),
{
    let n = h.unicode_len();
    proof {
        lemma_last_pos_in_range(h@, '.');
    }
    match rfind_char(h, '.') {
        None => {
            let r = is_valid_label(h);
            assert(split_on(h@, '.') == seq![h@]);
            assert(seq![h@][0] == h@);
            r
        },
        Some(i) => {
            let last = h.substring_char(i + 1, n);
            let rest = h.substring_char(0, i);
            let sp = Ghost(split_on(h@, '.'));
            assert(sp@ == split_on(rest@, '.').push(last@));
            if !is_valid_label(last) {
                assert(sp@[sp@.len() - 1] == last@);
                return false;
            }
            let r = labels_valid(rest);
            if r {
                assert forall|k: int| 0 <= k < sp@.len() implies valid_label(#[trigger] sp@[k]) by {
                    if k < sp@.len() - 1 {
                        assert(sp@[k] == split_on(rest@, '.')[k]);
                    }
                }
            } else {
                let ghost w = choose|k: int| 0 <= k < split_on(rest@, '.').len() && !valid_label(split_on(rest@, '.')[k]);
                assert(sp@[w] == split_on(rest@, '.')[w]);
            }
            r
        },
    }
}

/// Whether `hostname` is a valid host name.
pub fn is_valid_hostname(hostname: &str) -> (r: bool)
    ensures
        r == valid_hostname(hostname@),
{
    let n = hostname.unicode_len();
    if n == 0 || n > 253 {
        return false;
    }
    let first = hostname.get_char(0);
    let last = hostname.get_char(n - 1);
    if first == '.' || last == '.' || first == '-' || last == '-' {
        return false;
    }
    labels_valid(hostname)
}

proof fn lemma_decimal_prefix(s: Seq<char>, i: int)
    requires
        0 <= i < s.len(),
    ensures
        decimal_value(s.subrange(0, i + 1)) == decimal_value(s.subrange(0, i)) * 10
            + ((s[i] as nat) - ('0' as nat)) as nat,
{
    assert(s.subrange(0, i + 1).drop_last() =~= s.subrange(0, i));
}

proof fn lemma_decimal_grows(s: Seq<char>, i: int)
    requires
        0 <= i <= s.len(),
        forall|k: int| 0 <= k < s.len() ==> is_digit(#[trigger] s[k]),
    ensures
        decimal_value(s) >= decimal_value(s.subrange(0, i)),
    decreases s.len() - i,
{
    if i < s.len() {
        lemma_decimal_prefix(s, i);
        lemma_decimal_grows(s, i + 1);
    } else {
        assert(s.subrange(0, i) =~= s);
    }
}

/// Parses a port number as `str::parse::<u16>` does.
pub fn parse_u16(s: &str) -> (r: Option<u16>)
    ensures
        r == parsed_u16(s@),
{
    let n = s.unicode_len();
    let start: usize = if n > 0 && s.get_char(0) == '+' { 1 } else { 0 };
    let d = s.substring_char(start, n);
    assert(d@ == unsigned_digits(s@));
    let m = d.unicode_len();
    if m == 0 {
        return None;
    }
    let mut v: u32 = 0;
    let mut i: usize = 0;
    while i < m
        invariant
            m == d@.len(),
            d@ == unsigned_digits(s@),
            i <= m,
            forall|k: int| 0 <= k < i ==> is_digit(#[trigger] d@[k]),
            v as nat == decimal_value(d@.subrange(0, i as int)),
            v <= 65535,
        decreases m - i,
    {
        let c = d.get_char(i);
        if !('0' <= c && c <= '9') {
            assert(!is_digit(d@[i as int]));
            assert(!all_digits(d@));
            return None;
        }
        proof {
            lemma_decimal_prefix(d@, i as int);
        }
        let digit = (c as u32) - ('0' as u32);
        v = v * 10 + digit;
        if v > 65535 {
            proof {
                let ghost t = d@.subrange(0, i + 1);
                if all_digits(d@) {
                    lemma_decimal_grows(d@, i + 1);
                    assert(decimal_value(d@) > 65535);
                }
            }
            return None;
        }
        i = i + 1;
    }
    assert(d@.subrange(0, m as int) =~= d@);
    Some(v as u16)
}

/// Whether `domain` is a host name, optionally with a non-zero port.
pub fn is_valid_domain(domain: &str) -> (r: bool)
    ensures
        r == valid_domain(domain@),
{
    let n = domain.unicode_len();
    if n == 0 {
        return false;
    }
    proof {
        lemma_last_pos_in_range(domain@, ':');
    }
    match rfind_char(domain, ':') {
        Some(c) => {
            let hostname = domain.substring_char(0, c);
            let port_str = domain.substring_char(c + 1, n);
            match parse_u16(port_str) {
                Some(port) => {
                    if port == 0 {
                        return false;
                    }
                },
                None => {
                    return false;
                },
            }
            is_valid_hostname(hostname)
        },
        None => is_valid_hostname(domain),
    }
}

/// Whether `room_id` is `!localpart:domain` with a valid local part and domain.
pub fn is_valid_room_id(room_id: &str) -> (r: bool)
    ensures
        r == valid_room_id(room_id@),
{
    let n = room_id.unicode_len();
    if n == 0 || room_id.get_char(0) != '!' {
        return false;
    }
    proof {
        lemma_last_pos_in_range(room_id@, ':');
    }
    let colon_pos = match rfind_char(room_id, ':') {
        Some(pos) => pos,
        None => {
            return false;
        },
    };
    let localpart = room_id.substring_char(1, colon_pos);
    let domain = room_id.substring_char(colon_pos + 1, n);
    if !is_valid_localpart(localpart) {
        return false;
    }
    is_valid_domain(domain)
}

/// `#` followed by `s`.
pub open spec fn sigiled(s: Seq<char>) -> Seq<char> {
    seq!['#'] + s
}

/// `#name:server`.
pub open spec fn local_alias_of(name: Seq<char>, server: Seq<char>) -> Seq<char> {
    seq!['#'] + name + seq![':'] + server
}

/// The alias a room path segment stands for: `#segment` when it already
/// names a server, else `#segment:server`.
pub open spec fn alias_candidate_of(segment: Seq<char>, server: Seq<char>) -> Seq<char> {
    if alias_like(segment) {
        sigiled(segment)
    } else {
        local_alias_of(segment, server)
    }
}

/// The alias a configured space or room name stands for: taken as a full
/// alias when it holds both `:` and `.`, with `#` added when missing;
/// otherwise `#name:server`.
pub open spec fn configured_alias_of(name: Seq<char>, server: Seq<char>) -> Seq<char> {
    if has_char(name, ':') && has_char(name, '.') {
        if name.len() > 0 && name[0] == '#' {
            name
        } else {
            sigiled(name)
        }
    } else {
        local_alias_of(name, server)
    }
}

/// `#name:server` as a string.
pub fn local_alias(name: &str, server: &str) -> (r: String)
    ensures
        r@ == local_alias_of(name@, server@),
{
    proof {
        reveal_strlit("#");
        reveal_strlit(":");
    }
    let mut a = owned("#");
    a.append(name);
    a.append(":");
    a.append(server);
    assert(a@ =~= local_alias_of(name@, server@));
    a
}

fn with_sigil(s: &str) -> (r: String)
    ensures
        r@ == sigiled(s@),
{
    proof {
        reveal_strlit("#");
    }
    let mut a = owned("#");
    a.append(s);
    assert(a@ =~= sigiled(s@));
    a
}

/// The alias a room path segment stands for.
pub fn alias_candidate(segment: &str, server: &str) -> (r: String)
    ensures
        r@ == alias_candidate_of(segment@, server@),
{
    if room_alias_like(segment) {
        with_sigil(segment)
    } else {
        local_alias(segment, server)
    }
}

/// The alias a configured space or room name stands for.
pub fn configured_alias(name: &str, server: &str) -> (r: String)
    ensures
        r@ == configured_alias_of(name@, server@),
{
    if contains_char(name, ':') && contains_char(name, '.') {
        if name.unicode_len() > 0 && name.get_char(0) == '#' {
            owned(name)
        } else {
            with_sigil(name)
        }
    } else {
        local_alias(name, server)
    }
}

/// `@localpart:server`.
pub open spec fn user_id_of(localpart: Seq<char>, server: Seq<char>) -> Seq<char> {
    seq!['@'] + localpart + seq![':'] + server
}

/// The bot's user identifier `@localpart:server`.
pub fn bot_user_id(localpart: &str, server: &str) -> (r: String)
    ensures
        r@ == user_id_of(localpart@, server@),
{
    proof {
        reveal_strlit("@");
        reveal_strlit(":");
    }
    let mut u = owned("@");
    u.append(localpart);
    u.append(":");
    u.append(server);
    assert(u@ =~= user_id_of(localpart@, server@));
    u
}

/// Whether ruma accepts `s` as a room alias.
pub uninterp spec fn alias_ok(s: Seq<char>) -> bool;

/// Relies on ruma's `RoomAliasId::parse`: whether `s` is a valid room alias.
#[verifier::external_body]
fn alias_accepted(s: &str) -> (r: bool)
    ensures
        r == alias_ok(s@),
{
    ruma::RoomAliasId::parse(s).is_ok()
}

/// `alias` when ruma accepts it as a room alias.
pub fn checked_alias(alias: String) -> (r: Option<String>)
    ensures
        r matches Some(a) ==> a@ == alias@ && alias_ok(alias@),
        r is None ==> !alias_ok(alias@),
{
    if alias_accepted(alias.as_str()) {
        Some(alias)
    } else {
        None
    }
}

/// The aliases of the configured spaces that ruma accepts, in order; the
/// others are skipped.
pub open spec fn accepted_space_aliases(names: Seq<String>, server: Seq<char>) -> Seq<Seq<char>>
    decreases names.len(),
{
    if names.len() == 0 {
        Seq::empty()
    } else {
        let p = accepted_space_aliases(names.drop_last(), server);
        let a = configured_alias_of(names.last()@, server);
        if alias_ok(a) {
            p.push(a)
        } else {
            p
        }
    }
}

/// The aliases of the configured spaces that ruma accepts, in order.
pub fn space_aliases(names: &Vec<String>, server: &str) -> (r: Vec<String>)
    ensures
        crate::text::views(r@) == accepted_space_aliases(names@, server@),
{
    let mut out: Vec<String> = Vec::new();
    let mut i: usize = 0;
    while i < names.len()
        invariant
            i <= names@.len(),
            crate::text::views(out@) == accepted_space_aliases(names@.subrange(0, i as int), server@),
        decreases names@.len() - i,
    {
        proof {
            let t = names@.subrange(0, i + 1);
            assert(t.drop_last() =~= names@.subrange(0, i as int));
            assert(t.last() == names@[i as int]);
        }
        let a = configured_alias(names[i].as_str(), server);
        let ghost av = a@;
        match checked_alias(a) {
            Some(ok) => {
                let ghost before = out@;
                out.push(ok);
                assert(crate::text::views(out@) =~= crate::text::views(before).push(av));
            },
            None => {},
        }
        i = i + 1;
    }
    assert(names@.subrange(0, names@.len() as int) =~= names@);
    out
}

/// Whether `room_id` is a valid room identifier on `server`.
pub open spec fn local_room_id(room_id: Seq<char>, server: Seq<char>) -> bool {
    valid_room_id(room_id) && (last_pos(room_id, ':') matches Some(c) && room_id.subrange(c + 1, room_id.len() as int) == server)
}

/// Whether `room_id` is a valid room identifier on `server`.
pub fn room_id_valid(room_id: &str, server: &str) -> (r: bool)
    ensures
        r == local_room_id(room_id@, server@),
{
    if !is_valid_room_id(room_id) {
        return false;
    }
    let n = room_id.unicode_len();
    match rfind_char(room_id, ':') {
        Some(c) => crate::text::str_eq(room_id.substring_char(c + 1, n), server),
        None => false,
    }
}

/// Whether ruma accepts `s` as a server name.
pub uninterp spec fn server_name_ok(s: Seq<char>) -> bool;

/// Relies on ruma's `ServerName` parsing (`<&ServerName>::try_from`): whether
/// `s` is a valid server name.
#[verifier::external_body]
fn server_name_accepted(s: &str) -> (r: bool)
    ensures
        r == server_name_ok(s@),
{
    <&ruma::ServerName>::try_from(s).is_ok()
}

/// The server of a room identifier: the text after its first colon, when that
/// is a valid server name.
pub open spec fn room_server(room_id: Seq<char>) -> Option<Seq<char>> {
    match first_pos(room_id, ':') {
        Some(i) => {
            let rest = room_id.subrange(i + 1, room_id.len() as int);
            if server_name_ok(rest) {
                Some(rest)
            } else {
                None
            }
        },
        None => None,
    }
}

/// The server of a room identifier, as ruma's `RoomId::server_name` reads it.
pub fn room_server_name(room_id: &str) -> (r: Option<String>)
    ensures
        r matches Some(v) ==> room_server(room_id@) == Some(v@),
        r is None ==> room_server(room_id@) is None,
{
    let n = room_id.unicode_len();
    match find_char(room_id, ':') {
        Some(i) => {
            let rest = room_id.substring_char(i + 1, n);
            if server_name_accepted(rest) {
                Some(owned(rest))
            } else {
                None
            }
        },
        None => None,
    }
}

} // verus!
