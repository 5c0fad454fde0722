use aws_ssm_parameter_cache::CacheConfig;
use aws_ssm_parameter_cache::CacheItem;

#[test]
fn config_defaults() {
    let config = CacheConfig::new();
    assert_eq!(config.max_cache_size, 1);
    assert_eq!(config.cache_item_ttl, 300_000_000_000);
    assert_eq!(config.effective_capacity(), 1);
    assert_eq!(CacheConfig::default(), config);
}

#[test]
fn config_overrides() {
    let config = CacheConfig::new().max_cache_size(1024).cache_item_ttl(30_000_000_000);
    assert_eq!(config.max_cache_size, 1024);
    assert_eq!(config.cache_item_ttl, 30_000_000_000);
    assert_eq!(config.effective_capacity(), 1024);
    let only_ttl = CacheConfig::new().cache_item_ttl(7);
    assert_eq!(only_ttl.max_cache_size, 1);
    assert_eq!(only_ttl.cache_item_ttl, 7);
}

#[test]
fn config_zero_capacity_resolves_to_one() {
    let config = CacheConfig::new().max_cache_size(0);
    assert_eq!(config.max_cache_size, 0);
    assert_eq!(config.effective_capacity(), 1);
}

#[test]
fn item_expires_at_creation_plus_ttl() {
    let item = CacheItem::new("value".to_string(), 50, 1_000);
    assert_eq!(item.value(), "value");
    assert_eq!(item.expires_at(), 1_050);
    assert!(!item.is_expired(1_000));
    assert!(!item.is_expired(1_049));
    assert!(item.is_expired(1_050));
    assert!(item.is_expired(1_051));
}

#[test]
fn item_with_zero_ttl_is_expired_at_once() {
    let item = CacheItem::new(17u32, 0, 1_000);
    assert_eq!(*item.value(), 17);
    assert_eq!(item.expires_at(), 1_000);
    assert!(item.is_expired(1_000));
    assert!(!item.is_expired(999));
}

#[test]
fn item_may_expire_at_the_last_instant() {
    let item = CacheItem::new((), u128::MAX - 5, 5);
    assert_eq!(item.expires_at(), u128::MAX);
    assert!(!item.is_expired(u128::MAX - 1));
    assert!(item.is_expired(u128::MAX));
}
