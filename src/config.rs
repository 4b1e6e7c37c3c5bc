//! Service configuration, as plain values.
use vstd::prelude::*;
use crate::text::owned;

verus! {

/// The listening port used when none is configured.
pub fn default_port() -> (r: u16)
    ensures
        r == 8989,
{
    8989
}

/// The cache server address used when none is configured.
pub fn default_redis_url() -> (r: String)
    ensures
        r@ == "127.0.0.1:6379/0"@,
{
    owned("127.0.0.1:6379/0")
}

/// The connection pool size used when none is configured.
pub fn default_pool_size() -> (r: u32)
    ensures
        r == 10,
{
    10
}

/// The cache server timeout, in seconds, used when none is configured.
pub fn default_timeout_secs() -> (r: u64)
    ensures
        r == 5,
{
    5
}

/// The cache lifetime, in seconds, used when none is configured.
pub fn default_cache_ttl() -> (r: u64)
    ensures
        r == 300,
{
    300
}

/// The space directory's cache lifetime, in seconds, used when none is configured.
pub fn default_spaces_ttl() -> (r: u64)
    ensures
        r == 3600,
{
    3600
}

pub struct Server {
    pub port: u16,
    pub allow_origin: Option<Vec<String>>,
}

impl Default for Server {
    fn default() -> (r: Self)
        ensures
            r.port == 8989,
            r.allow_origin is None,
    {
        Server { port: default_port(), allow_origin: None }
    }
}

pub struct AppService {
    pub id: String,
    pub sender_localpart: String,
    pub access_token: String,
    pub hs_access_token: String,
    pub rules: AppServiceRules,
}

/// What the membership synchronizer may do on its own.
pub struct AppServiceRules {
    /// Join rooms that become world-readable and children declared by spaces.
    pub auto_join: bool,
    /// Honour membership events only for rooms on the local server.
    pub invite_by_local_user: bool,
    /// Foreign domains whose rooms are honoured when the rule above is off.
    pub federation_domain_whitelist: Vec<String>,
}

impl Default for AppServiceRules {
    fn default() -> (r: Self)
        ensures
            !r.auto_join,
            !r.invite_by_local_user,
            r.federation_domain_whitelist@.len() == 0,
    {
        AppServiceRules { auto_join: false, invite_by_local_user: false, federation_domain_whitelist: Vec::new() }
    }
}

pub struct Matrix {
    pub homeserver: String,
    pub server_name: String,
}

pub struct Redis {
    pub url: String,
    pub pool_size: u32,
    pub timeout_secs: u64,
    pub cache_ttl: u64,
}

impl Default for Redis {
    fn default() -> (r: Self)
        ensures
            r.url@ == "127.0.0.1:6379/0"@,
            r.pool_size == 10,
            r.timeout_secs == 5,
            r.cache_ttl == 300,
    {
        Redis {
            url: default_redis_url(),
            pool_size: default_pool_size(),
            timeout_secs: default_timeout_secs(),
            cache_ttl: default_cache_ttl(),
        }
    }
}

/// Cache switches and lifetimes for each kind of cached data.
pub struct Cache {
    pub requests: CacheOptions,
    pub public_rooms: CacheOptions,
    pub room_state: CacheOptions,
    pub messages: CacheOptions,
    pub media: CacheOptions,
    pub search: CacheOptions,
    pub joined_rooms: CacheOptions,
}

impl Default for Cache {
    fn default() -> (r: Self)
        ensures
            !r.requests.enabled && !r.public_rooms.enabled && !r.room_state.enabled,
            !r.messages.enabled && !r.media.enabled && !r.search.enabled && !r.joined_rooms.enabled,
    {
        Cache {
            requests: CacheOptions::default(),
            public_rooms: CacheOptions::default(),
            room_state: CacheOptions::default(),
            messages: CacheOptions::default(),
            media: CacheOptions::default(),
            search: CacheOptions::default(),
            joined_rooms: CacheOptions::default(),
        }
    }
}

#[derive(Clone, Copy)]
pub struct CacheOptions {
    pub enabled: bool,
    /// Lifetime of an entry, in seconds.
    pub expire_after: u64,
}

impl Default for CacheOptions {
    fn default() -> (r: Self)
        ensures
            !r.enabled,
            r.expire_after == 300,
    {
        CacheOptions { enabled: false, expire_after: default_cache_ttl() }
    }
}

pub struct DB {
    pub url: String,
}

/// The curated public directory: when `curated`, `include_rooms` lists the
/// local parts of the top-level rooms, in display order.
pub struct PublicRooms {
    pub curated: bool,
    pub include_rooms: Vec<String>,
}

impl Default for PublicRooms {
    fn default() -> (r: Self)
        ensures
            !r.curated,
            r.include_rooms@.len() == 0,
    {
        PublicRooms { curated: false, include_rooms: Vec::new() }
    }
}

pub struct Spaces {
    pub default: Vec<String>,
    pub include_all: bool,
    pub cache: bool,
    pub ttl: u64,
}

impl Default for Spaces {
    fn default() -> (r: Self)
        ensures
            r.default@.len() == 0,
            !r.include_all,
            !r.cache,
            r.ttl == 3600,
    {
        Spaces { default: Vec::new(), include_all: false, cache: false, ttl: default_spaces_ttl() }
    }
}

pub struct Logging {
    pub directory: String,
    pub filename: String,
}

pub struct Sentry {
    pub enabled: bool,
    pub dsn: String,
}

pub struct Metrics {
    pub enabled: bool,
    pub port: u16,
}

pub struct Search {
    pub disabled: bool,
}

/// The whole configuration.
pub struct Config {
    pub server: Server,
    pub appservice: AppService,
    pub matrix: Matrix,
    pub redis: Redis,
    pub db: DB,
    pub cache: Cache,
    pub public_rooms: PublicRooms,
    pub spaces: Spaces,
    pub logging: Option<Logging>,
    pub search: Search,
    pub sentry: Option<Sentry>,
    pub metrics: Metrics,
}

} // verus!
