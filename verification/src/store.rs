//! The recency-ordered map that holds the entries: `lru::LruCache`.
//!
//! Nothing in this file is proved. Each item states what the `lru` crate
//! does, in terms of the sequence of entries that a cache holds, and the rest
//! of the library is verified against these statements.

use crate::cache_item::CacheItem;
use crate::recency::holds;
use lru::LruCache;
use std::num::NonZeroUsize;
use vstd::prelude::*;

verus! {

/// `lru::LruCache`, a map that keeps its entries in order of use.
#[verifier::external_type_specification]
#[verifier::external_body]
#[verifier::reject_recursive_types(K)]
#[verifier::reject_recursive_types(V)]
#[verifier::reject_recursive_types(S)]
pub struct ExLruCache<K, V, S>(LruCache<K, V, S>);

/// `lru::DefaultHasher`, the hasher of an `LruCache` that names none.
#[verifier::external_type_specification]
#[verifier::external_body]
pub struct ExDefaultHasher(lru::DefaultHasher);

/// What an `LruCache` holds, from the most recently used entry to the least
/// recently used one: the order in which `LruCache::iter` walks it. Each
/// entry is the key, the cached value and the expiry instant of its item.
pub uninterp spec fn lru_entries(cache: LruCache<String, CacheItem<String>>) -> Seq<
    (Seq<char>, Seq<char>, u128),
>;

/// The number of entries that an `LruCache` was made to hold at most: what
/// `LruCache::cap` returns.
pub uninterp spec fn lru_limit(cache: LruCache<String, CacheItem<String>>) -> nat;

/// Calls `LruCache::sparse`: an empty cache that holds at most `cap`
/// entries and reserves no storage for them up front, so that every
/// capacity but zero is accepted.
#[verifier::external_body]
pub(crate) fn lru_sparse(cap: usize) -> (cache: LruCache<String, CacheItem<String>>)
    requires
        cap > 0,
    ensures
        lru_entries(cache).len() == 0,
        lru_limit(cache) == cap,
{
    LruCache::sparse(NonZeroUsize::new(cap).unwrap())
}

/// Calls `LruCache::get`. Where the key is held, its item is returned and
/// its entry moves to the front, the others keeping their order; where it is
/// not, nothing changes. The call does not panic.
#[verifier::external_body]
pub(crate) fn lru_get<'a>(cache: &'a mut LruCache<String, CacheItem<String>>, key: &str) -> (found:
    Option<&'a CacheItem<String>>)
    ensures
        lru_limit(*final(cache)) == lru_limit(*old(cache)),
        match found {
            Some(item) => exists|i: int|
                0 <= i < lru_entries(*old(cache)).len() && #[trigger] lru_entries(*old(cache))[i] == (
                    key@,
                    item.value()@,
                    item.expires_at(),
                ) && lru_entries(*final(cache)) == seq![lru_entries(*old(cache))[i]] + lru_entries(
                    *old(cache),
                ).remove(i),
            None => !holds(lru_entries(*old(cache)), key@) && lru_entries(*final(cache))
                == lru_entries(*old(cache)),
        },
    no_unwind
{
    cache.get(key)
}

/// Calls `LruCache::put`. The written entry stands at the front afterwards.
/// Where the key was held, its old entry is gone; where it was not and the
/// cache held as many entries as its limit, the last entry is gone; every
/// other entry keeps its place behind the new one. The call does not panic.
#[verifier::external_body]
pub(crate) fn lru_put(cache: &mut LruCache<String, CacheItem<String>>, key: String, item: CacheItem<String>)
    ensures
        lru_limit(*final(cache)) == lru_limit(*old(cache)),
        if holds(lru_entries(*old(cache)), key@) {
            exists|i: int|
                0 <= i < lru_entries(*old(cache)).len() && (#[trigger] lru_entries(*old(cache))[i]).0
                    == key@ && lru_entries(*final(cache)) == seq![
                    (key@, item.value()@, item.expires_at()),
                ] + lru_entries(*old(cache)).remove(i)
        } else if lru_entries(*old(cache)).len() == lru_limit(*old(cache)) {
            lru_entries(*final(cache)) == seq![(key@, item.value()@, item.expires_at())]
                + lru_entries(*old(cache)).drop_last()
        } else {
            lru_entries(*final(cache)) == seq![(key@, item.value()@, item.expires_at())]
                + lru_entries(*old(cache))
        },
    no_unwind
{
    cache.put(key, item);
}

} // verus!
