use aws_ssm_parameter_cache::CacheConfig;
use aws_ssm_parameter_cache::Lookup;
use aws_ssm_parameter_cache::ParameterCache;
use std::cell::Cell;

const FIVE_MINUTES: u128 = 300_000_000_000;

#[derive(Debug, PartialEq, Eq)]
enum RemoteError {
    NotFound,
    Transport,
}

fn cache_of(capacity: usize, ttl: u128) -> ParameterCache<()> {
    let config = CacheConfig::new().max_cache_size(capacity).cache_item_ttl(ttl);
    ParameterCache::new_with_config((), config)
}

/// Gets `name` at `now`; the remote source answers `value` and counts the call.
fn get(
    cache: &mut ParameterCache<()>,
    name: &str,
    value: &str,
    now: u128,
    fetches: &Cell<u32>,
) -> Result<String, RemoteError> {
    cache.get_parameter(name).send(now, |asked: &str| {
        assert_eq!(asked, name);
        fetches.set(fetches.get() + 1);
        Ok(value.to_string())
    })
}

#[test]
fn first_lookup_fetches_once_and_caches() {
    let mut cache = cache_of(4, FIVE_MINUTES);
    let fetches = Cell::new(0);
    assert_eq!(get(&mut cache, "a", "1", 10, &fetches), Ok("1".to_string()));
    assert_eq!(fetches.get(), 1);
    assert_eq!(cache.lookup("a", false, 11), Lookup::Hit("1".to_string()));
}

#[test]
fn second_lookup_within_ttl_is_served_from_cache() {
    let mut cache = cache_of(4, FIVE_MINUTES);
    let fetches = Cell::new(0);
    assert_eq!(get(&mut cache, "a", "1", 10, &fetches), Ok("1".to_string()));
    assert_eq!(get(&mut cache, "a", "changed", 10 + FIVE_MINUTES - 1, &fetches), Ok("1".to_string()));
    assert_eq!(fetches.get(), 1);
}

#[test]
fn expired_entry_is_fetched_again() {
    let mut cache = cache_of(4, FIVE_MINUTES);
    let fetches = Cell::new(0);
    assert_eq!(get(&mut cache, "a", "1", 10, &fetches), Ok("1".to_string()));
    // The entry expires at 10 + ttl exactly.
    assert_eq!(get(&mut cache, "a", "2", 10 + FIVE_MINUTES, &fetches), Ok("2".to_string()));
    assert_eq!(fetches.get(), 2);
    assert_eq!(cache.lookup("a", false, 10 + FIVE_MINUTES + 1), Lookup::Hit("2".to_string()));
}

#[test]
fn expired_entry_is_fetched_with_forced_refresh_too() {
    let mut cache = cache_of(4, 5);
    let fetches = Cell::new(0);
    assert_eq!(get(&mut cache, "a", "1", 0, &fetches), Ok("1".to_string()));
    let outcome: Result<String, RemoteError> =
        cache.get_parameter("a").force_refresh().send(100, |_| {
            fetches.set(fetches.get() + 1);
            Ok("2".to_string())
        });
    assert_eq!(outcome, Ok("2".to_string()));
    assert_eq!(fetches.get(), 2);
}

#[test]
fn forced_refresh_fetches_although_entry_is_fresh() {
    let mut cache = cache_of(4, FIVE_MINUTES);
    let fetches = Cell::new(0);
    assert_eq!(get(&mut cache, "a", "old", 10, &fetches), Ok("old".to_string()));
    let outcome: Result<String, RemoteError> =
        cache.get_parameter("a").force_refresh().send(20, |_| {
            fetches.set(fetches.get() + 1);
            Ok("new".to_string())
        });
    assert_eq!(outcome, Ok("new".to_string()));
    assert_eq!(fetches.get(), 2);
    // The cache was updated, with a new expiry instant of 20 + ttl.
    assert_eq!(cache.lookup("a", false, 10 + FIVE_MINUTES), Lookup::Hit("new".to_string()));
    assert_eq!(cache.lookup("a", false, 20 + FIVE_MINUTES), Lookup::Fetch);
}

#[test]
fn capacity_is_kept_and_least_recently_used_key_leaves() {
    let capacity = 3;
    let mut cache = cache_of(capacity, FIVE_MINUTES);
    let fetches = Cell::new(0);
    for (i, name) in ["k0", "k1", "k2", "k3"].iter().enumerate() {
        assert_eq!(get(&mut cache, name, "v", i as u128, &fetches), Ok("v".to_string()));
    }
    assert_eq!(fetches.get(), 4);
    // The other three are served without a fetch.
    for name in ["k1", "k2", "k3"] {
        assert_eq!(cache.lookup(name, false, 10), Lookup::Hit("v".to_string()));
    }
    // The first one, used longest ago, is gone.
    assert_eq!(cache.lookup("k0", false, 10), Lookup::Fetch);
}

#[test]
fn eviction_goes_by_access_order() {
    let mut cache = cache_of(3, FIVE_MINUTES);
    let fetches = Cell::new(0);
    for name in ["k0", "k1", "k2"] {
        assert_eq!(get(&mut cache, name, "v", 0, &fetches), Ok("v".to_string()));
    }
    // Reading k0 makes k1 the least recently used.
    assert_eq!(cache.lookup("k0", false, 1), Lookup::Hit("v".to_string()));
    assert_eq!(get(&mut cache, "k3", "v", 2, &fetches), Ok("v".to_string()));
    assert_eq!(cache.lookup("k1", false, 3), Lookup::Fetch);
    assert_eq!(cache.lookup("k0", false, 3), Lookup::Hit("v".to_string()));
    assert_eq!(cache.lookup("k2", false, 3), Lookup::Hit("v".to_string()));
    assert_eq!(cache.lookup("k3", false, 3), Lookup::Hit("v".to_string()));
}

#[test]
fn reading_an_expired_entry_still_counts_as_use() {
    let mut cache = cache_of(2, 5);
    assert_eq!(cache.complete::<RemoteError>("a", Ok("1".to_string()), 0), Ok("1".to_string()));
    assert_eq!(cache.complete::<RemoteError>("b", Ok("2".to_string()), 100), Ok("2".to_string()));
    // "a" has expired, but the read moves it in front of "b".
    assert_eq!(cache.lookup("a", false, 101), Lookup::Fetch);
    assert_eq!(cache.complete::<RemoteError>("c", Ok("3".to_string()), 102), Ok("3".to_string()));
    assert_eq!(cache.lookup("b", false, 103), Lookup::Fetch);
    assert_eq!(cache.lookup("c", false, 103), Lookup::Hit("3".to_string()));
}

#[test]
fn storing_a_held_key_evicts_nothing() {
    let mut cache = cache_of(2, FIVE_MINUTES);
    assert_eq!(cache.complete::<RemoteError>("a", Ok("1".to_string()), 0), Ok("1".to_string()));
    assert_eq!(cache.complete::<RemoteError>("b", Ok("2".to_string()), 0), Ok("2".to_string()));
    assert_eq!(cache.complete::<RemoteError>("a", Ok("3".to_string()), 1), Ok("3".to_string()));
    assert_eq!(cache.lookup("b", false, 2), Lookup::Hit("2".to_string()));
    assert_eq!(cache.lookup("a", false, 2), Lookup::Hit("3".to_string()));
}

#[test]
fn failed_fetch_returns_the_failure_and_keeps_the_cached_value() {
    let mut cache = cache_of(2, FIVE_MINUTES);
    let fetches = Cell::new(0);
    assert_eq!(get(&mut cache, "a", "1", 0, &fetches), Ok("1".to_string()));
    let outcome: Result<String, RemoteError> =
        cache.get_parameter("a").force_refresh().send(1, |_| Err(RemoteError::Transport));
    assert_eq!(outcome, Err(RemoteError::Transport));
    // The value cached before is still served, and no fetch is made for it.
    assert_eq!(get(&mut cache, "a", "unused", 2, &fetches), Ok("1".to_string()));
    assert_eq!(fetches.get(), 1);
}

#[test]
fn failed_fetch_of_a_missing_key_caches_nothing_and_evicts_nothing() {
    let mut cache = cache_of(1, FIVE_MINUTES);
    let fetches = Cell::new(0);
    assert_eq!(get(&mut cache, "a", "1", 0, &fetches), Ok("1".to_string()));
    let outcome: Result<String, RemoteError> =
        cache.get_parameter("missing").send(1, |_| Err(RemoteError::NotFound));
    assert_eq!(outcome, Err(RemoteError::NotFound));
    assert_eq!(cache.lookup("missing", false, 2), Lookup::Fetch);
    assert_eq!(cache.lookup("a", false, 2), Lookup::Hit("1".to_string()));
}

#[test]
fn scenario_capacity_two() {
    let mut cache = cache_of(2, FIVE_MINUTES);
    let fetches = Cell::new(0);
    assert_eq!(get(&mut cache, "a", "1", 0, &fetches), Ok("1".to_string()));
    assert_eq!(get(&mut cache, "b", "2", 1, &fetches), Ok("2".to_string()));
    assert_eq!(fetches.get(), 2);
    // A hit, which makes "a" the most recently used.
    assert_eq!(get(&mut cache, "a", "x", 2, &fetches), Ok("1".to_string()));
    assert_eq!(fetches.get(), 2);
    // Evicts "b".
    assert_eq!(get(&mut cache, "c", "3", 3, &fetches), Ok("3".to_string()));
    assert_eq!(fetches.get(), 3);
    // "a" and "c" are hits.
    assert_eq!(cache.lookup("a", false, 4), Lookup::Hit("1".to_string()));
    assert_eq!(cache.lookup("c", false, 4), Lookup::Hit("3".to_string()));
    // "b" is a miss.
    assert_eq!(get(&mut cache, "b", "2", 5, &fetches), Ok("2".to_string()));
    assert_eq!(fetches.get(), 4);
}

#[test]
fn scenario_zero_ttl_always_fetches() {
    let mut cache = cache_of(2, 0);
    let fetches = Cell::new(0);
    assert_eq!(get(&mut cache, "a", "1", 7, &fetches), Ok("1".to_string()));
    assert_eq!(get(&mut cache, "a", "2", 7, &fetches), Ok("2".to_string()));
    assert_eq!(get(&mut cache, "a", "3", 8, &fetches), Ok("3".to_string()));
    assert_eq!(fetches.get(), 3);
    assert_eq!(cache.lookup("a", false, 8), Lookup::Fetch);
}

#[test]
fn zero_capacity_is_read_as_one() {
    let mut cache = cache_of(0, FIVE_MINUTES);
    assert_eq!(cache.config().max_cache_size, 0);
    assert_eq!(cache.complete::<RemoteError>("a", Ok("1".to_string()), 0), Ok("1".to_string()));
    assert_eq!(cache.lookup("a", false, 1), Lookup::Hit("1".to_string()));
    assert_eq!(cache.complete::<RemoteError>("b", Ok("2".to_string()), 1), Ok("2".to_string()));
    assert_eq!(cache.lookup("a", false, 2), Lookup::Fetch);
    assert_eq!(cache.lookup("b", false, 2), Lookup::Hit("2".to_string()));
}

#[test]
fn default_cache_holds_one_entry_for_five_minutes() {
    let mut cache = ParameterCache::new("client");
    assert_eq!(*cache.client(), "client");
    assert_eq!(*cache.config(), CacheConfig::new());
    assert_eq!(cache.complete::<RemoteError>("a", Ok("1".to_string()), 0), Ok("1".to_string()));
    assert_eq!(cache.lookup("a", false, 299_999_999_999), Lookup::Hit("1".to_string()));
    assert_eq!(cache.lookup("a", false, 300_000_000_000), Lookup::Fetch);
    assert_eq!(cache.complete::<RemoteError>("b", Ok("2".to_string()), 0), Ok("2".to_string()));
    assert_eq!(cache.lookup("a", false, 1), Lookup::Fetch);
}

#[test]
fn a_huge_capacity_is_accepted() {
    let mut cache = cache_of(usize::MAX, FIVE_MINUTES);
    assert_eq!(cache.complete::<RemoteError>("a", Ok("1".to_string()), 0), Ok("1".to_string()));
    assert_eq!(cache.lookup("a", false, 1), Lookup::Hit("1".to_string()));
}

#[test]
fn lookup_and_complete_in_two_steps() {
    let mut cache = cache_of(2, 10);
    let mut request = cache.get_parameter("service/parameter");
    assert_eq!(request.lookup(5), Lookup::Fetch);
    assert_eq!(request.complete::<RemoteError>(Ok("value".to_string()), 6), Ok("value".to_string()));
    assert_eq!(request.lookup(15), Lookup::Hit("value".to_string()));
    assert_eq!(request.lookup(16), Lookup::Fetch);
    assert_eq!(request.complete(Err(RemoteError::NotFound), 17), Err(RemoteError::NotFound));
    let mut forced = cache.get_parameter("service/parameter").force_refresh();
    assert_eq!(forced.lookup(7), Lookup::Fetch);
}

#[test]
fn forced_lookup_does_not_count_as_use() {
    let mut cache = cache_of(2, FIVE_MINUTES);
    assert_eq!(cache.complete::<RemoteError>("a", Ok("1".to_string()), 0), Ok("1".to_string()));
    assert_eq!(cache.complete::<RemoteError>("b", Ok("2".to_string()), 0), Ok("2".to_string()));
    // A forced lookup of "a" does not read the cache, so "a" stays the least recently used.
    assert_eq!(cache.lookup("a", true, 1), Lookup::Fetch);
    assert_eq!(cache.complete::<RemoteError>("c", Ok("3".to_string()), 1), Ok("3".to_string()));
    assert_eq!(cache.lookup("a", false, 2), Lookup::Fetch);
    assert_eq!(cache.lookup("b", false, 2), Lookup::Hit("2".to_string()));
}
