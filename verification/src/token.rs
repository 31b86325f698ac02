//! Authentication-token cache: freshness checking and the refresh decision.
//!
//! A cached token is valid exactly while `issued_at + ttl_seconds > now`.
//! The decision whether a persisted record can be reused or a fresh issuance
//! is needed is pure; the glue around the library reads the persisted record,
//! calls the remote issuer when told to, and persists the result.

use vstd::prelude::*;

verus! {

/// A token as persisted in the local cache, together with the data needed
/// to decide whether it is still fresh.
pub struct CachedToken {
    pub token: String,
    pub issued_at: u64,
    pub ttl_seconds: u64,
}

/// A token is fresh at `now` exactly while its lifetime has not run out.
pub open spec fn spec_is_fresh(t: CachedToken, now: u64) -> bool {
    t.issued_at + t.ttl_seconds > now
}

/// What the caller must do to obtain a usable token for this run.
pub enum TokenDecision {
    /// The cached record is still fresh: use it unchanged.
    UseCached,
    /// No record, or the record has expired: call the issuer and persist
    /// what it returns.
    Refresh,
}

impl CachedToken {
    /// Freshness check against wall-clock time supplied by the caller.
    pub fn is_fresh(&self, now: u64) -> (r: bool)
        ensures
            r == spec_is_fresh(*self, now),
    {
        now < self.issued_at || self.ttl_seconds > now - self.issued_at
    }
}

/// Decide whether a persisted token record can be reused at time `now`.
/// A corrupt or unreadable record is handed in as `None` and triggers a
/// refresh, exactly like an absent one. The check happens once per run:
/// a token that is fresh now is used for the whole run even if it expires
/// mid-run.
pub fn plan_token_use(cached: &Option<CachedToken>, now: u64) -> (d: TokenDecision)
    ensures
        d is UseCached <==> (cached is Some && spec_is_fresh(cached->0, now)),
        d is Refresh <==> (cached is None || !spec_is_fresh(cached->0, now)),
{
    match cached {
        Some(t) => {
            if t.is_fresh(now) {
                TokenDecision::UseCached
            } else {
                TokenDecision::Refresh
            }
        },
        None => TokenDecision::Refresh,
    }
}

} // verus!
