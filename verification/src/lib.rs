//! Team progress tracking for capture-the-flag competitions.
//!
//! The library keeps the persisted state of tracked competitions —
//! challenges, solves, rank history and user identity mappings — as plain
//! in-memory tables, and implements the logic that reconciles remote
//! scoreboard data against them: inserting newly discovered challenges,
//! detecting unannounced solves, maintaining per-challenge "working on"
//! sets, and deriving the read-only views served over HTTP.

pub mod dates;
pub mod htb;
pub mod htb_db;
pub mod jwt;
pub mod models;
pub mod notify;
pub mod provider;
pub mod registry;
pub mod rest;
pub mod store;
pub mod text;
pub mod working;

use vstd::prelude::*;

use crate::htb::JWTClaims;

verus! {

/// Whether a held credential is still valid at the given moment: valid
/// strictly before its expiry timestamp, expired from the expiry moment
/// on.
pub fn jwt_still_valid(jwt: &JWTClaims, now_unix: i64) -> (r: bool)
    ensures
        r == (now_unix < jwt.exp),
{
    now_unix < jwt.exp
}

/// What can go wrong in a store operation: a lookup that found nothing.
/// Remote and delivery failures are the caller's domain; they never reach
/// the store.
#[derive(Clone, Copy, Debug, PartialEq, Eq, Structural)]
pub enum StoreError {
    NoCtfForChannel,
    NoCtfForName,
    NoCtfForId,
    NoChallengeWithName,
    NoChallengeWithId,
    NoScoreboardEntry,
    ChallengeMappingFailed,
    SolveDateUnparseable,
    NoDiscordIdForUser,
    NoSolvesForChallenge,
}

} // verus!
