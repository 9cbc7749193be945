//! The session under which a node signs: a short-lived key that an account
//! has authorized for a time.

use vstd::prelude::*;
use crate::did::Did;

verus! {

/// How long a session is valid unless another time is asked for: 30 days,
/// in ms.
pub const DEFAULT_SESSION_TTL_MS: u64 = 2592000000;

/// A session: the account it signs for, when it was authorized, and for
/// how long.
#[derive(Clone, Debug, PartialEq, Eq)]
pub struct SessionSk {
    account_did: Did,
    created_ms: u64,
    ttl_ms: u64,
}

/// A session that was authorized at `created_ms` for `ttl_ms` has expired
/// at `now_ms`.
pub open spec fn expired_at(created_ms: u64, ttl_ms: u64, now_ms: u64) -> bool {
    now_ms > created_ms + ttl_ms
}

impl SessionSk {
    pub closed spec fn account(&self) -> Did {
        self.account_did
    }

    pub closed spec fn created(&self) -> u64 {
        self.created_ms
    }

    pub closed spec fn ttl(&self) -> u64 {
        self.ttl_ms
    }

    /// A session for `account_did`, authorized at `now_ms` for `ttl_ms`.
    pub fn new(account_did: Did, now_ms: u64, ttl_ms: u64) -> (s: SessionSk)
        ensures
            s.account() == account_did,
            s.created() == now_ms,
            s.ttl() == ttl_ms,
    {
        SessionSk { account_did, created_ms: now_ms, ttl_ms }
    }

    /// The same session with another time to live.
    pub fn with_ttl(self, ttl_ms: u64) -> (s: SessionSk)
        ensures
            s.account() == self.account(),
            s.created() == self.created(),
            s.ttl() == ttl_ms,
    {
        SessionSk { account_did: self.account_did, created_ms: self.created_ms, ttl_ms }
    }

    /// The account that the session signs for. It is the same for the
    /// session's lifetime.
    pub fn account_did(&self) -> (d: Did)
        ensures
            d == self.account(),
    {
        self.account_did
    }

    /// The time to live, in ms.
    pub fn ttl_ms(&self) -> (t: u64)
        ensures
            t == self.ttl(),
    {
        self.ttl_ms
    }

    /// Whether the session has expired at `now_ms`.
    pub fn is_expired(&self, now_ms: u64) -> (b: bool)
        ensures
            b == expired_at(self.created(), self.ttl(), now_ms),
    {
        if now_ms <= self.created_ms {
            false
        } else {
            now_ms - self.created_ms > self.ttl_ms
        }
    }
}

} // verus!
