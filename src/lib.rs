//! Verified core of a public gateway in front of a chat homeserver: room
//! identifier checks, the bot's membership bookkeeping, the public room
//! directory, the TTL cache model and the proxy's request policy.

pub mod cache;
pub mod config;
pub mod directory;
pub mod error;
pub mod events;
pub mod ids;
pub mod joined;
pub mod ping;
pub mod proxy;
pub mod text;
