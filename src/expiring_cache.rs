//! Values that may expire a given number of milliseconds after they were
//! stored. Times are milliseconds on a monotonic clock that the caller reads.
use vstd::prelude::*;

verus! {

/// Has a value stored at `added_at` with time-to-live `ttl` expired at `now`?
/// Only when more than `ttl` milliseconds have passed.
pub open spec fn expired(added_at: nat, ttl: Option<u64>, now: nat) -> bool {
    match ttl {
        None => false,
        Some(d) => now - added_at > d,
    }
}

/// A value with the time it was stored and an optional time-to-live.
#[derive(Debug)]
pub struct ExpiringValue<T> {
    pub value: T,
    pub added_at: u64,
    pub expires_in_ms: Option<u64>,
}

impl<T> ExpiringValue<T> {
    /// A value stored at `now`, expiring after `expires_in_ms` when given.
    pub fn new(value: T, expires_in_ms: Option<u64>, now: u64) -> (r: Self)
        ensures
            r.value == value,
            r.added_at == now,
            r.expires_in_ms == expires_in_ms,
    {
        ExpiringValue { value, added_at: now, expires_in_ms }
    }

    /// A value stored at `now` that never expires.
    pub fn create_non_expiring(val: T, now: u64) -> (r: Self)
        ensures
            r.value == val,
            r.added_at == now,
            r.expires_in_ms == None::<u64>,
    {
        Self::new(val, None, now)
    }

    /// A value stored at `now` that expires after `expire_in_ms`.
    pub fn create_expiring(val: T, expire_in_ms: u64, now: u64) -> (r: Self)
        ensures
            r.value == val,
            r.added_at == now,
            r.expires_in_ms == Some(expire_in_ms),
    {
        Self::new(val, Some(expire_in_ms), now)
    }

    /// Has this value expired at `now`?
    pub fn has_expired(&self, now: u64) -> (r: bool)
        ensures
            r == expired(self.added_at as nat, self.expires_in_ms, now as nat),
    {
        match self.expires_in_ms {
            None => false,
            Some(duration) => now > self.added_at && now - self.added_at > duration,
        }
    }
}

} // verus!
