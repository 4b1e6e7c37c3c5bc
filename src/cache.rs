//! Cache keys and a TTL key/value store read against an explicit clock.
use vstd::prelude::*;
use crate::text::{owned, str_eq};

verus! {

/// A value that names a cache entry.
pub trait CacheKey {
    spec fn key_of(&self) -> Seq<char>;

    fn cache_key(&self) -> (r: String)
        ensures
            r@ == self.key_of(),
    ;
}

impl CacheKey for String {
    open spec fn key_of(&self) -> Seq<char> {
        self@
    }

    fn cache_key(&self) -> (r: String) {
        self.clone()
    }
}

impl CacheKey for &str {
    open spec fn key_of(&self) -> Seq<char> {
        (*self)@
    }

    fn cache_key(&self) -> (r: String) {
        owned(*self)
    }
}

/// `namespace:id`.
pub open spec fn namespaced(namespace: Seq<char>, id: Seq<char>) -> Seq<char> {
    namespace + seq![':'] + id
}

/// The key `namespace:id`.
pub fn cache_key(namespace: &str, id: &str) -> (r: String)
    ensures
        r@ == namespaced(namespace@, id@),
{
    proof {
        reveal_strlit(":");
    }
    let mut k = owned(namespace);
    k.append(":");
    k.append(id);
    k
}

impl CacheKey for (&str, &str) {
    open spec fn key_of(&self) -> Seq<char> {
        namespaced(self.0@, self.1@)
    }

    fn cache_key(&self) -> (r: String) {
        cache_key(self.0, self.1)
    }
}

impl CacheKey for (&str, String) {
    open spec fn key_of(&self) -> Seq<char> {
        namespaced(self.0@, self.1@)
    }

    fn cache_key(&self) -> (r: String) {
        cache_key(self.0, self.1.as_str())
    }
}

/// What a cache operation can fail with.
#[derive(PartialEq, Eq, Structural, Clone, Copy, Debug)]
pub enum CacheError {
    /// The entry lives longer than the threshold, so it was not rewritten.
    NotExpiring,
    /// No live entry under the key.
    KeyNotFound,
}

struct CacheEntry {
    key: String,
    value: Vec<u8>,
    expires_at: u64,
}

/// A key/value store whose entries expire; every read names the current
/// time, in seconds.
pub struct TtlCache {
    entries: Vec<CacheEntry>,
}

/// The first position of `key` among `keys`.
pub open spec fn key_pos(keys: Seq<Seq<char>>, key: Seq<char>) -> Option<int>
    decreases keys.len(),
{
    if keys.len() == 0 {
        None
    } else if keys[0] == key {
        Some(0)
    } else {
        match key_pos(keys.drop_first(), key) {
            Some(i) => Some(i + 1),
            None => None,
        }
    }
}

/// The end of a lifetime of `ttl` seconds starting at `now`, saturated.
pub open spec fn expiry(now: u64, ttl: u64) -> u64 {
    if now + ttl > u64::MAX {
        u64::MAX
    } else {
        (now + ttl) as u64
    }
}

proof fn lemma_key_pos_at(keys: Seq<Seq<char>>, key: Seq<char>, i: int)
    requires
        0 <= i < keys.len(),
        keys[i] == key,
        forall|j: int| 0 <= j < i ==> keys[j] != key,
    ensures
        key_pos(keys, key) == Some(i),
    decreases i,
{
    if i > 0 {
        lemma_key_pos_at(keys.drop_first(), key, i - 1);
    }
}

proof fn lemma_key_pos_none(keys: Seq<Seq<char>>, key: Seq<char>)
    requires
        forall|j: int| 0 <= j < keys.len() ==> keys[j] != key,
    ensures
        key_pos(keys, key) is None,
    decreases keys.len(),
{
    if keys.len() > 0 {
        lemma_key_pos_none(keys.drop_first(), key);
    }
}

impl TtlCache {
    pub closed spec fn keys(&self) -> Seq<Seq<char>> {
        self.entries@.map_values(|e: CacheEntry| e.key@)
    }

    /// What is stored under `key`, live or expired: the value and the end of
    /// its lifetime.
    pub closed spec fn stored(&self, key: Seq<char>) -> Option<(Seq<u8>, u64)> {
        match key_pos(self.keys(), key) {
            Some(i) => Some((self.entries@[i].value@, self.entries@[i].expires_at)),
            None => None,
        }
    }

    /// The value under `key` at time `now`, if it has not expired.
    pub open spec fn live(&self, key: Seq<char>, now: u64) -> Option<Seq<u8>> {
        match self.stored(key) {
            Some((v, exp)) => if now < exp {
                Some(v)
            } else {
                None
            },
            None => None,
        }
    }

    /// An empty cache.
    pub fn new() -> (r: Self)
        ensures
            r.wf(),
            forall|k: Seq<char>| r.stored(k) is None,
    {
        let r = TtlCache { entries: Vec::new() };
        assert forall|k: Seq<char>| r.stored(k) is None by {
            assert(r.keys().len() == 0);
        }
        r
    }

    fn position(&self, key: &str) -> (r: Option<usize>)
        ensures
            r matches Some(i) ==> i < self.entries@.len() && key_pos(self.keys(), key@) == Some(i as int),
            r is None ==> key_pos(self.keys(), key@) is None,
    {
        let mut i: usize = 0;
        while i < self.entries.len()
            invariant
                i <= self.entries@.len(),
                forall|j: int| 0 <= j < i ==> self.keys()[j] != key@,
            decreases self.entries@.len() - i,
        {
            assert(self.keys()[i as int] == self.entries@[i as int].key@);
            if str_eq(self.entries[i].key.as_str(), key) {
                proof {
                    lemma_key_pos_at(self.keys(), key@, i as int);
                }
                return Some(i);
            }
            i = i + 1;
        }
        proof {
            lemma_key_pos_none(self.keys(), key@);
        }
        None
    }

    /// Stores `data` under `key` for `ttl` seconds from `now`, replacing what
    /// was there.
    pub fn cache_data(&mut self, key: &str, data: &Vec<u8>, ttl: u64, now: u64)
        requires
            old(self).wf(),
        ensures
            final(self).wf(),
            final(self).stored(key@) == Some((data@, expiry(now, ttl))),
            forall|k: Seq<char>| k != key@ ==> final(self).stored(k) == old(self).stored(k),
    {
        let expires_at = if ttl > u64::MAX - now { u64::MAX } else { now + ttl };
        let entry = CacheEntry { key: owned(key), value: data.clone(), expires_at };
        assert(entry.value@ == data@);
        match self.position(key) {
            Some(i) => {
                let ghost before = self.keys();
                proof {
                    lemma_key_pos_valid(before, key@);
                }
                self.entries.set(i, entry);
                proof {
                    assert(self.keys() =~= before);
                    assert forall|k: Seq<char>| k != key@ implies self.stored(k) == old(self).stored(k) by {
                        lemma_key_pos_valid(before, k);
                        if let Some(j) = key_pos(before, k) {
                            assert(j != i);
                            assert(self.entries@[j] == old(self).entries@[j]);
                        }
                    }
                }
            },
            None => {
                let ghost before = self.keys();
                self.entries.push(entry);
                proof {
                    assert(self.keys() =~= before.push(key@));
                    lemma_key_pos_push(before, key@, key@);
                    lemma_key_pos_valid_none(before, key@);
                    assert forall|a: int, b: int| 0 <= a < self.keys().len() && 0 <= b < self.keys().len() && a != b
                        implies #[trigger] self.keys()[a] != #[trigger] self.keys()[b] by {
                        if a < before.len() && b < before.len() {
                            assert(self.keys()[a] == before[a]);
                            assert(self.keys()[b] == before[b]);
                        } else if a < before.len() {
                            assert(self.keys()[a] == before[a]);
                        } else if b < before.len() {
                            assert(self.keys()[b] == before[b]);
                        }
                    }
                    assert forall|k: Seq<char>| k != key@ implies self.stored(k) == old(self).stored(k) by {
                        lemma_key_pos_push(before, key@, k);
                        lemma_key_pos_valid(before, k);
                        if let Some(j) = key_pos(before, k) {
                            assert(self.entries@[j] == old(self).entries@[j]);
                        }
                    }
                }
            },
        }
    }

    /// The value under `key` at time `now`; absent once its lifetime is over.
    pub fn get_cached_data(&self, key: &str, now: u64) -> (r: Option<Vec<u8>>)
        ensures
            r matches Some(v) ==> self.live(key@, now) == Some(v@),
            r is None ==> self.live(key@, now) is None,
    {
        match self.position(key) {
            Some(i) => {
                if now < self.entries[i].expires_at {
                    Some(self.entries[i].value.clone())
                } else {
                    None
                }
            },
            None => None,
        }
    }

    /// Removes the entry under `key`.
    pub fn delete_cached_data(&mut self, key: &str)
        requires
            old(self).wf(),
        ensures
            final(self).wf(),
            final(self).stored(key@) is None,
            forall|k: Seq<char>| k != key@ ==> final(self).stored(k) == old(self).stored(k),
    {
        match self.position(key) {
            Some(i) => {
                let ghost before = self.keys();
                proof {
                    lemma_key_pos_valid(before, key@);
                }
                self.entries.remove(i);
                proof {
                    assert(self.keys() =~= before.remove(i as int));
                    assert forall|k: Seq<char>| k != key@ implies self.stored(k) == old(self).stored(k) by {
                        lemma_key_pos_remove(before, i as int, k);
                        lemma_key_pos_valid(before, k);
                        if let Some(j) = key_pos(before, k) {
                            if j < i {
                                assert(self.entries@[j] == old(self).entries@[j]);
                            } else {
                                assert(self.entries@[j - 1] == old(self).entries@[j]);
                            }
                        }
                    }
                    lemma_key_pos_remove_unique(before, i as int);
                }
            },
            None => {},
        }
    }

    /// No key is stored twice.
    pub closed spec fn wf(&self) -> bool {
        forall|i: int, j: int|
            0 <= i < self.keys().len() && 0 <= j < self.keys().len() && i != j
                ==> #[trigger] self.keys()[i] != #[trigger] self.keys()[j]
    }

    /// Seconds left for the entry under `key` at time `now`, or -2 when there
    /// is no live entry.
    pub fn ttl_remaining(&self, key: &str, now: u64) -> (r: i64)
        ensures
            r == (match self.stored(key@) {
                Some((_, exp)) => if now < exp {
                    if exp - now > i64::MAX { i64::MAX as int } else { exp - now }
                } else {
                    -2
                },
                None => -2,
            }),
    {
        match self.position(key) {
            Some(i) => {
                let exp = self.entries[i].expires_at;
                if now < exp {
                    let left = exp - now;
                    if left > i64::MAX as u64 {
                        i64::MAX
                    } else {
                        left as i64
                    }
                } else {
                    -2
                }
            },
            None => -2,
        }
    }

    /// Stores `data` only when the current entry is missing or has less than
    /// `threshold` seconds left.
    pub fn cache_with_ttl_threshold(&mut self, key: &str, data: &Vec<u8>, new_ttl: u64, threshold: u64, now: u64) -> (r: Result<(), CacheError>)
        requires
            old(self).wf(),
        ensures
            final(self).wf(),
            r is Ok <==> refresh_due(old(self).stored(key@), now, threshold),
            r is Ok ==> final(self).stored(key@) == Some((data@, expiry(now, new_ttl))),
            r is Ok ==> forall|k: Seq<char>| k != key@ ==> final(self).stored(k) == old(self).stored(k),
            r is Err ==> r == Err::<(), CacheError>(CacheError::NotExpiring) && *final(self) == *old(self),
    {
        let left = self.ttl_remaining(key, now);
        if should_refresh(left, threshold) {
            self.cache_data(key, data, new_ttl, now);
            Ok(())
        } else {
            Err(CacheError::NotExpiring)
        }
    }

    /// The live value under `key`, or else the result of `fetch`, which is
    /// then stored for `ttl` seconds. Concurrent callers that all miss each
    /// call `fetch`.
    pub fn cache_or_fetch<E, F: FnOnce() -> Result<Vec<u8>, E>>(&mut self, key: &str, ttl: u64, now: u64, fetch: F) -> (r: Result<Vec<u8>, E>)
        requires
            old(self).wf(),
            fetch.requires(()),
        ensures
            final(self).wf(),
            old(self).live(key@, now) matches Some(v) ==> (r matches Ok(w) && w@ == v && *final(self) == *old(self)),
            old(self).live(key@, now) is None ==> fetch.ensures((), r),
            old(self).live(key@, now) is None && r is Ok ==> final(self).stored(key@) == Some((r->Ok_0@, expiry(now, ttl))),
            forall|k: Seq<char>| k != key@ ==> final(self).stored(k) == old(self).stored(k),
    {
        match self.get_cached_data(key, now) {
            Some(v) => Ok(v),
            None => {
                let fetched = fetch();
                match fetched {
                    Ok(v) => {
                        self.cache_data(key, &v, ttl, now);
                        Ok(v)
                    },
                    Err(e) => Err(e),
                }
            },
        }
    }
}

/// Whether an entry with `left` seconds to live (-2: none) is due for a
/// rewrite under `threshold`.
pub open spec fn refresh_due_left(left: int, threshold: u64) -> bool {
    left == -2 || left < threshold
}

/// Whether a rewrite is due, from what is stored.
pub open spec fn refresh_due(stored: Option<(Seq<u8>, u64)>, now: u64, threshold: u64) -> bool {
    match stored {
        Some((_, exp)) => if now < exp {
            refresh_due_left(if exp - now > i64::MAX { i64::MAX as int } else { exp - now }, threshold)
        } else {
            true
        },
        None => true,
    }
}

/// Whether an entry with `left` seconds to live (-2: none) is due for a
/// rewrite under `threshold`.
pub fn should_refresh(left: i64, threshold: u64) -> (r: bool)
    ensures
        r == refresh_due_left(left as int, threshold),
{
    left < 0 || (left as u64) < threshold
}

proof fn lemma_key_pos_valid_none(keys: Seq<Seq<char>>, k: Seq<char>)
    requires
        key_pos(keys, k) is None,
    ensures
        forall|j: int| 0 <= j < keys.len() ==> keys[j] != k,
    decreases keys.len(),
{
    if keys.len() > 0 {
        lemma_key_pos_valid_none(keys.drop_first(), k);
        assert forall|j: int| 0 <= j < keys.len() implies keys[j] != k by {
            if j > 0 {
                assert(keys[j] == keys.drop_first()[j - 1]);
            }
        }
    }
}

/// A value stored for `ttl` seconds at `now` is read back at any time before
/// its lifetime ends, and is absent from then on.
pub proof fn lemma_round_trip(after: TtlCache, key: Seq<char>, value: Seq<u8>, ttl: u64, now: u64, later: u64)
    requires
        after.stored(key) == Some((value, expiry(now, ttl))),
    ensures
        later < expiry(now, ttl) ==> after.live(key, later) == Some(value),
        later >= expiry(now, ttl) ==> after.live(key, later) is None,
{
}

/// Once a fetched value is stored, a second read of the same key before the
/// lifetime ends is served from the cache, so no second fetch is made; after
/// the key is deleted the next read misses and fetches again.
pub proof fn lemma_fetch_once_until_deleted(
    filled: TtlCache,
    deleted: TtlCache,
    key: Seq<char>,
    value: Seq<u8>,
    ttl: u64,
    now: u64,
    later: u64,
)
    requires
        filled.stored(key) == Some((value, expiry(now, ttl))),
        deleted.stored(key) is None,
        later < expiry(now, ttl),
    ensures
        filled.live(key, later) == Some(value),
        deleted.live(key, later) is None,
{
}

proof fn lemma_key_pos_valid(keys: Seq<Seq<char>>, k: Seq<char>)
    ensures
        key_pos(keys, k) matches Some(j) ==> 0 <= j < keys.len() && keys[j] == k,
    decreases keys.len(),
{
    if keys.len() > 0 && keys[0] != k {
        lemma_key_pos_valid(keys.drop_first(), k);
    }
}

proof fn lemma_key_pos_push(keys: Seq<Seq<char>>, key: Seq<char>, k: Seq<char>)
    requires
        key_pos(keys, key) is None,
    ensures
        k != key ==> key_pos(keys.push(key), k) == key_pos(keys, k),
        key_pos(keys.push(key), key) == Some(keys.len() as int),
    decreases keys.len(),
{
    if keys.len() > 0 {
        lemma_key_pos_push(keys.drop_first(), key, k);
        assert(keys.push(key).drop_first() =~= keys.drop_first().push(key));
        assert(keys.push(key)[0] == keys[0]);
    } else {
        assert(keys.push(key).drop_first() =~= keys);
        assert(keys.push(key)[0] == key);
    }
}

proof fn lemma_key_pos_remove(keys: Seq<Seq<char>>, i: int, k: Seq<char>)
    requires
        0 <= i < keys.len(),
        k != keys[i],
    ensures
        key_pos(keys.remove(i), k) == (match key_pos(keys, k) {
            Some(j) => if j < i { Some(j) } else { Some(j - 1) },
            None => None,
        }),
    decreases keys.len(),
{
    if i > 0 {
        lemma_key_pos_remove(keys.drop_first(), i - 1, k);
        assert(keys.remove(i).drop_first() =~= keys.drop_first().remove(i - 1));
        assert(keys.remove(i)[0] == keys[0]);
    } else {
        assert(keys.remove(0) =~= keys.drop_first());
        assert(keys[0] != k);
        lemma_key_pos_valid(keys.drop_first(), k);
    }
}

proof fn lemma_key_pos_remove_unique(keys: Seq<Seq<char>>, i: int)
    requires
        0 <= i < keys.len(),
        forall|a: int, b: int| 0 <= a < keys.len() && 0 <= b < keys.len() && a != b ==> #[trigger] keys[a] != #[trigger] keys[b],
    ensures
        key_pos(keys.remove(i), keys[i]) is None,
        forall|a: int, b: int| 0 <= a < keys.remove(i).len() && 0 <= b < keys.remove(i).len() && a != b
            ==> #[trigger] keys.remove(i)[a] != #[trigger] keys.remove(i)[b],
{
    let r = keys.remove(i);
    assert forall|j: int| 0 <= j < r.len() implies r[j] != keys[i] by {
        if j < i {
            assert(r[j] == keys[j]);
        } else {
            assert(r[j] == keys[j + 1]);
        }
    }
    lemma_key_pos_none(r, keys[i]);
    assert forall|a: int, b: int| 0 <= a < r.len() && 0 <= b < r.len() && a != b implies #[trigger] r[a] != #[trigger] r[b] by {
        let a2 = if a < i { a } else { a + 1 };
        let b2 = if b < i { b } else { b + 1 };
        assert(r[a] == keys[a2]);
        assert(r[b] == keys[b2]);
    }
}

} // verus!
