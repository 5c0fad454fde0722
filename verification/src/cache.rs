//! The cache engine: get a parameter from the cache, or say that it has to
//! be fetched, and store what was fetched.

use crate::cache_item::CacheItem;
use crate::config::CacheConfig;
use crate::config::DEFAULT_CACHE_ITEM_TTL;
use crate::config::DEFAULT_MAX_CACHE_SIZE;
use crate::recency::holds;
use crate::recency::lemma_rank_unique;
use crate::recency::lemma_touched_keeps;
use crate::recency::lemma_written_well_formed;
use crate::recency::looked_up;
use crate::recency::rank;
use crate::recency::refreshed;
use crate::recency::served;
use crate::recency::well_formed;
use crate::recency::Entries;
use crate::store::lru_entries;
use crate::store::lru_get;
use crate::store::lru_limit;
use crate::store::lru_put;
use crate::store::lru_sparse;
use lru::LruCache;
use vstd::prelude::*;

verus! {

/// What a lookup found.
#[derive(Debug, PartialEq, Eq)]
pub enum Lookup {
    /// The cache holds a fresh value: this is it, and nothing is fetched.
    Hit(String),
    /// The value has to be fetched from the remote source, once.
    Fetch,
}

impl Lookup {
    /// The value that was served from the cache, if one was.
    pub open spec fn value(self) -> Option<Seq<char>> {
        match self {
            Lookup::Hit(value) => Some(value@),
            Lookup::Fetch => None,
        }
    }
}

/// A cache of parameter values in front of a remote source.
///
/// The cache owns the handle `client` of the remote source but never looks
/// inside it. It holds at most `capacity()` entries, no key twice.
pub struct ParameterCache<C> {
    client: C,
    config: CacheConfig,
    cache: LruCache<String, CacheItem<String>>,
}

impl<C> ParameterCache<C> {
    #[verifier::type_invariant]
    spec fn bounded_and_distinct(&self) -> bool {
        &&& lru_limit(self.cache) == self.config.capacity()
        &&& well_formed(lru_entries(self.cache), lru_limit(self.cache))
    }

    /// The entries of the cache, most recently used first.
    pub closed spec fn entries(&self) -> Entries {
        lru_entries(self.cache)
    }

    /// The configuration that the cache was built with.
    pub closed spec fn spec_config(&self) -> &CacheConfig {
        &self.config
    }

    /// The handle of the remote source.
    pub closed spec fn spec_client(&self) -> &C {
        &self.client
    }

    /// The number of entries that the cache holds at most.
    pub open spec fn capacity(&self) -> nat {
        self.config().capacity()
    }

    /// The time to live, in nanoseconds, of an entry stored by this cache.
    pub open spec fn ttl(&self) -> u128 {
        self.config().cache_item_ttl
    }

    /// An empty cache with the default configuration.
    pub fn new(client: C) -> (cache: Self)
        ensures
            cache.entries().len() == 0,
            *cache.client() == client,
            cache.config().max_cache_size == DEFAULT_MAX_CACHE_SIZE,
            cache.config().cache_item_ttl == DEFAULT_CACHE_ITEM_TTL,
            cache.capacity() == 1,
    {
        ParameterCache::new_cache(client, CacheConfig::new())
    }

    /// An empty cache with the given configuration.
    pub fn new_with_config(client: C, config: CacheConfig) -> (cache: Self)
        ensures
            cache.entries().len() == 0,
            *cache.client() == client,
            *cache.config() == config,
    {
        ParameterCache::new_cache(client, config)
    }

    fn new_cache(client: C, config: CacheConfig) -> (cache: Self)
        ensures
            cache.entries().len() == 0,
            *cache.client() == client,
            *cache.config() == config,
    {
        let cache = lru_sparse(config.effective_capacity());
        ParameterCache { client, config, cache }
    }

    /// The handle of the remote source.
    #[verifier::when_used_as_spec(spec_client)]
    pub fn client(&self) -> (client: &C)
        ensures
            client == self.client(),
    {
        &self.client
    }

    /// The configuration that the cache was built with.
    #[verifier::when_used_as_spec(spec_config)]
    pub fn config(&self) -> (config: &CacheConfig)
        ensures
            config == self.config(),
    {
        &self.config
    }

    /// Returns a builder for getting the parameter `parameter_name`, with
    /// `force_refresh` not set. The builder borrows the cache until it is
    /// dropped.
    pub fn get_parameter<'a, 'b>(&'a mut self, parameter_name: &'b str) -> (builder:
        GetParameterStringBuilder<'a, 'b, C>)
        ensures
            builder.parameter_name == parameter_name,
            !builder.force_refresh,
            *builder.parameter_cache == *old(self),
            *final(builder.parameter_cache) == *final(self),
    {
        GetParameterStringBuilder::new(self, parameter_name)
    }

    /// First half of getting a parameter: reads the cache.
    ///
    /// Unless `force_refresh` is set, the entry of `parameter_name` becomes
    /// the most recently used, and its value is returned if it has not
    /// expired at `now`. In every other case the answer is `Lookup::Fetch`
    /// and the caller owes one call of the remote source, whose outcome goes
    /// to [`ParameterCache::complete`].
    pub fn lookup(&mut self, parameter_name: &str, force_refresh: bool, now: u128) -> (outcome: Lookup)
        ensures
            outcome.value() == served(old(self).entries(), parameter_name@, force_refresh, now),
            final(self).entries() == looked_up(old(self).entries(), parameter_name@, force_refresh),
            final(self).config() == old(self).config(),
            final(self).client() == old(self).client(),
            well_formed(final(self).entries(), final(self).capacity()),
    {
        proof {
            use_type_invariant(&*self);
        }
        if !force_refresh {
            let ghost before = lru_entries(self.cache);
            let fresh = match lru_get(&mut self.cache, parameter_name) {
                Some(item) => if item.is_expired(now) {
                    None
                } else {
                    Some(item.value().clone())
                },
                None => None,
            };
            proof {
                lemma_touched_keeps(before, parameter_name@, parameter_name@);
                if holds(before, parameter_name@) {
                    assert forall|i: int| 0 <= i < before.len() && (#[trigger] before[i]).0
                        == parameter_name@ implies i == rank(before, parameter_name@) by {
                        lemma_rank_unique(before, parameter_name@, i);
                    }
                }
            }
            if let Some(value) = fresh {
                return Lookup::Hit(value);
            }
        }
        Lookup::Fetch
    }

    /// Second half of getting a parameter: takes the outcome of the fetch
    /// that [`ParameterCache::lookup`] asked for.
    ///
    /// A fetched value is stored under `parameter_name` as the most recently
    /// used entry, fresh until `now` plus the time to live, and returned. A
    /// failure is handed back as it came, and the cache stays as it was.
    pub fn complete<E>(&mut self, parameter_name: &str, fetched: Result<String, E>, now: u128) -> (outcome:
        Result<String, E>)
        requires
            now + old(self).ttl() <= u128::MAX,
        ensures
            outcome == fetched,
            final(self).entries() == match fetched {
                Ok(value) => refreshed(
                    old(self).entries(),
                    old(self).capacity(),
                    old(self).ttl(),
                    parameter_name@,
                    value@,
                    now,
                ),
                Err(_) => old(self).entries(),
            },
            final(self).config() == old(self).config(),
            final(self).client() == old(self).client(),
            well_formed(final(self).entries(), final(self).capacity()),
    {
        proof {
            use_type_invariant(&*self);
        }
        match fetched {
            Ok(value) => {
                let ghost before = lru_entries(self.cache);
                let item = CacheItem::new(value.clone(), self.config.cache_item_ttl, now);
                let key = parameter_name.to_owned();
                proof {
                    let entry = (key@, value@, item.expires_at());
                    lemma_written_well_formed(before, lru_limit(self.cache), entry);
                    if holds(before, key@) {
                        assert forall|i: int| 0 <= i < before.len() && (#[trigger] before[i]).0 == key@ implies i
                            == rank(before, key@) by {
                            lemma_rank_unique(before, key@, i);
                        }
                    }
                }
                lru_put(&mut self.cache, key, item);
                Ok(value)
            },
            Err(error) => Err(error),
        }
    }
}

/// One request for a parameter: the cache, the name, and whether the
/// cached value is to be bypassed.
pub struct GetParameterStringBuilder<'a, 'b, C> {
    /// The cache that the request reads and fills.
    pub parameter_cache: &'a mut ParameterCache<C>,
    /// The name of the parameter.
    pub parameter_name: &'b str,
    /// Whether the value is fetched even where a fresh one is cached.
    pub force_refresh: bool,
}

impl<'a, 'b, C> GetParameterStringBuilder<'a, 'b, C> {
    /// A request for `parameter_name` that serves a fresh cached value where
    /// there is one.
    pub fn new(parameter_cache: &'a mut ParameterCache<C>, parameter_name: &'b str) -> (builder: Self)
        ensures
            builder.parameter_name == parameter_name,
            !builder.force_refresh,
            *builder.parameter_cache == *old(parameter_cache),
            *final(builder.parameter_cache) == *final(parameter_cache),
    {
        GetParameterStringBuilder { parameter_cache, parameter_name, force_refresh: false }
    }

    /// The same request with `force_refresh` set: the value is fetched and
    /// the cache updated even where a fresh value is cached.
    pub fn force_refresh(self) -> (builder: Self)
        ensures
            builder.force_refresh,
            builder.parameter_name == self.parameter_name,
            *builder.parameter_cache == *old(self.parameter_cache),
            *final(builder.parameter_cache) == *final(self.parameter_cache),
    {
        let GetParameterStringBuilder { parameter_cache, parameter_name, force_refresh: _ } = self;
        GetParameterStringBuilder { parameter_cache, parameter_name, force_refresh: true }
    }

    /// First half of the request: [`ParameterCache::lookup`] with the
    /// request's name and flag.
    pub fn lookup(&mut self, now: u128) -> (outcome: Lookup)
        ensures
            outcome.value() == served(
                old(self).parameter_cache.entries(),
                old(self).parameter_name@,
                old(self).force_refresh,
                now,
            ),
            final(self).parameter_cache.entries() == looked_up(
                old(self).parameter_cache.entries(),
                old(self).parameter_name@,
                old(self).force_refresh,
            ),
            final(self).parameter_cache.config() == old(self).parameter_cache.config(),
            final(self).parameter_cache.client() == old(self).parameter_cache.client(),
            final(self).parameter_name == old(self).parameter_name,
            final(self).force_refresh == old(self).force_refresh,
            *final(final(self).parameter_cache) == *final(old(self).parameter_cache),
            well_formed(final(self).parameter_cache.entries(), final(self).parameter_cache.capacity()),
    {
        self.parameter_cache.lookup(self.parameter_name, self.force_refresh, now)
    }

    /// Second half of the request: [`ParameterCache::complete`] with the
    /// request's name.
    pub fn complete<E>(&mut self, fetched: Result<String, E>, now: u128) -> (outcome: Result<String, E>)
        requires
            now + old(self).parameter_cache.ttl() <= u128::MAX,
        ensures
            outcome == fetched,
            final(self).parameter_cache.entries() == match fetched {
                Ok(value) => refreshed(
                    old(self).parameter_cache.entries(),
                    old(self).parameter_cache.capacity(),
                    old(self).parameter_cache.ttl(),
                    old(self).parameter_name@,
                    value@,
                    now,
                ),
                Err(_) => old(self).parameter_cache.entries(),
            },
            final(self).parameter_cache.config() == old(self).parameter_cache.config(),
            final(self).parameter_cache.client() == old(self).parameter_cache.client(),
            final(self).parameter_name == old(self).parameter_name,
            final(self).force_refresh == old(self).force_refresh,
            *final(final(self).parameter_cache) == *final(old(self).parameter_cache),
            well_formed(final(self).parameter_cache.entries(), final(self).parameter_cache.capacity()),
    {
        self.parameter_cache.complete(self.parameter_name, fetched, now)
    }

    /// Gets the parameter at the instant `now`.
    ///
    /// A fresh cached value is returned without a call of `fetch`, unless
    /// `force_refresh` is set. Otherwise `fetch` is called once with the
    /// parameter's name. What it returns is the result; a value is stored in
    /// the cache first, with the configured time to live, while a failure
    /// leaves the cache as the read left it.
    pub fn send<E, F: FnOnce(&str) -> Result<String, E>>(&mut self, now: u128, fetch: F) -> (outcome:
        Result<String, E>)
        requires
            now + old(self).parameter_cache.ttl() <= u128::MAX,
            fetch.requires((old(self).parameter_name,)),
        ensures
            match served(
                old(self).parameter_cache.entries(),
                old(self).parameter_name@,
                old(self).force_refresh,
                now,
            ) {
                Some(value) => {
                    &&& outcome matches Ok(served_value)
                    &&& served_value@ == value
                    &&& final(self).parameter_cache.entries() == looked_up(
                        old(self).parameter_cache.entries(),
                        old(self).parameter_name@,
                        old(self).force_refresh,
                    )
                },
                None => {
                    &&& fetch.ensures((old(self).parameter_name,), outcome)
                    &&& final(self).parameter_cache.entries() == match outcome {
                        Ok(value) => refreshed(
                            looked_up(
                                old(self).parameter_cache.entries(),
                                old(self).parameter_name@,
                                old(self).force_refresh,
                            ),
                            old(self).parameter_cache.capacity(),
                            old(self).parameter_cache.ttl(),
                            old(self).parameter_name@,
                            value@,
                            now,
                        ),
                        Err(_) => looked_up(
                            old(self).parameter_cache.entries(),
                            old(self).parameter_name@,
                            old(self).force_refresh,
                        ),
                    }
                },
            },
            final(self).parameter_cache.config() == old(self).parameter_cache.config(),
            final(self).parameter_cache.client() == old(self).parameter_cache.client(),
            final(self).parameter_name == old(self).parameter_name,
            final(self).force_refresh == old(self).force_refresh,
            *final(final(self).parameter_cache) == *final(old(self).parameter_cache),
            well_formed(final(self).parameter_cache.entries(), final(self).parameter_cache.capacity()),
    {
        match self.lookup(now) {
            Lookup::Hit(value) => Ok(value),
            Lookup::Fetch => {
                let fetched = fetch(self.parameter_name);
                self.complete(fetched, now)
            },
        }
    }
}

} // verus!
