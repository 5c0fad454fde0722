//! Tunables of a cache: how many entries it keeps and how long one stays fresh.

use vstd::prelude::*;

verus! {

/// Capacity of a cache whose configuration names none.
pub const DEFAULT_MAX_CACHE_SIZE: usize = 1;

/// Time to live of an entry where the configuration names none: five minutes,
/// in nanoseconds.
pub const DEFAULT_CACHE_ITEM_TTL: u128 = 300_000_000_000;

/// Configuration of a parameter cache.
///
/// A configuration is never rejected. A `max_cache_size` of zero is read as
/// one when a cache is built from it, see [`CacheConfig::capacity`].
#[derive(Clone, Copy, Debug, PartialEq, Eq)]
pub struct CacheConfig {
    /// Number of entries kept before the least recently used one is evicted.
    pub max_cache_size: usize,
    /// Nanoseconds for which a fetched value is served from the cache.
    pub cache_item_ttl: u128,
}

impl CacheConfig {
    /// The number of entries that a cache built from this configuration
    /// holds at most: `max_cache_size`, or one where that is zero.
    pub open spec fn capacity(self) -> nat {
        if self.max_cache_size == 0 {
            1
        } else {
            self.max_cache_size as nat
        }
    }

    /// The default configuration.
    pub fn new() -> (config: Self)
        ensures
            config.max_cache_size == DEFAULT_MAX_CACHE_SIZE,
            config.cache_item_ttl == DEFAULT_CACHE_ITEM_TTL,
            config.capacity() == 1,
    {
        CacheConfig {
            max_cache_size: DEFAULT_MAX_CACHE_SIZE,
            cache_item_ttl: DEFAULT_CACHE_ITEM_TTL,
        }
    }

    /// The same configuration with another capacity.
    pub fn max_cache_size(self, max_cache_size: usize) -> (config: Self)
        ensures
            config.max_cache_size == max_cache_size,
            config.cache_item_ttl == self.cache_item_ttl,
    {
        CacheConfig { max_cache_size, cache_item_ttl: self.cache_item_ttl }
    }

    /// The same configuration with another time to live, in nanoseconds.
    pub fn cache_item_ttl(self, cache_item_ttl: u128) -> (config: Self)
        ensures
            config.max_cache_size == self.max_cache_size,
            config.cache_item_ttl == cache_item_ttl,
    {
        CacheConfig { max_cache_size: self.max_cache_size, cache_item_ttl }
    }

    /// Computes [`CacheConfig::capacity`].
    pub fn effective_capacity(&self) -> (capacity: usize)
        ensures
            capacity == self.capacity(),
            capacity > 0,
    {
        if self.max_cache_size == 0 {
            1
        } else {
            self.max_cache_size
        }
    }
}

impl Default for CacheConfig {
    fn default() -> (config: Self)
        ensures
            config.max_cache_size == DEFAULT_MAX_CACHE_SIZE,
            config.cache_item_ttl == DEFAULT_CACHE_ITEM_TTL,
    {
        CacheConfig::new()
    }
}

} // verus!
