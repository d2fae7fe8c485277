//! Verified core of a fire-dispatch alarm relay.
//!
//! The library receives one raw inbound notification, extracts structured
//! dispatch fields from its free text, resolves which notification targets
//! the vehicle list implies, deduplicates targets per incident, caches
//! bearer tokens per site, and builds the outbound alarm payloads.  All
//! I/O (the HTTPS listener, credential fetches, alarm posts, the durable
//! log) lives outside the library and hands it plain values.

pub mod dedup;
pub mod dispatch;
pub mod fireplan;
pub mod parser;
pub mod text;
pub mod token_cache;
pub mod types;
pub mod web;

use vstd::prelude::*;

verus! {

/// Seconds a cached credential token stays fresh: thirty minutes.
pub const TOKEN_TTL_SECS: u64 = 1800;

/// A token fetched at `fetched_at` may still be handed out at `now`.
pub open spec fn token_fresh(fetched_at: u64, now: u64) -> bool {
    fetched_at <= now && now - fetched_at < TOKEN_TTL_SECS
}

} // verus!
