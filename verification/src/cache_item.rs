//! A cached value together with the instant at which it goes stale.

use vstd::prelude::*;

verus! {

/// A value and the instant, in nanoseconds, from which it counts as expired.
///
/// An item never changes its expiry: to refresh a value is to replace the
/// item.
#[derive(Debug)]
pub struct CacheItem<T> {
    value: T,
    expires_at: u128,
}

impl<T> CacheItem<T> {
    /// The cached value.
    pub closed spec fn spec_value(&self) -> &T {
        &self.value
    }

    /// The first instant at which the item is expired.
    pub closed spec fn spec_expires_at(&self) -> u128 {
        self.expires_at
    }

    /// Whether the item is stale at `now`: the expiry instant has been
    /// reached.
    pub open spec fn expired_at(&self, now: u128) -> bool {
        now >= self.expires_at()
    }

    /// An item created at `now` that stays fresh for `ttl` nanoseconds.
    pub fn new(value: T, ttl: u128, now: u128) -> (item: Self)
        requires
            now + ttl <= u128::MAX,
        ensures
            *item.value() == value,
            item.expires_at() == now + ttl,
    {
        CacheItem { value, expires_at: now + ttl }
    }

    /// The cached value.
    #[verifier::when_used_as_spec(spec_value)]
    pub fn value(&self) -> (value: &T)
        ensures
            value == self.value(),
    {
        &self.value
    }

    /// The first instant at which the item is expired.
    #[verifier::when_used_as_spec(spec_expires_at)]
    pub fn expires_at(&self) -> (instant: u128)
        ensures
            instant == self.expires_at(),
    {
        self.expires_at
    }

    /// Whether the item is stale at `now`. An item created with a time to
    /// live of zero is stale from the instant of its creation.
    pub fn is_expired(&self, now: u128) -> (expired: bool)
        ensures
            expired == self.expired_at(now),
    {
        now >= self.expires_at
    }
}

} // verus!
