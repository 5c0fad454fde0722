//! What holds of every cache, stated over the model of `recency` and proved.
//!
//! A lookup that is not served from the cache asks for one fetch: the
//! functions of the cache report it as `Lookup::Fetch`, the model as a
//! `served` value of `None`.

use crate::recency::distinct;
use crate::recency::fresh_value;
use crate::recency::holds;
use crate::recency::lemma_rank_unique;
use crate::recency::lemma_touched_keeps;
use crate::recency::lemma_written_others;
use crate::recency::lemma_written_well_formed;
use crate::recency::looked_up;
use crate::recency::rank;
use crate::recency::refreshed;
use crate::recency::served;
use crate::recency::source_of_promoted;
use crate::recency::touched;
use crate::recency::well_formed;
use crate::recency::written;
use crate::recency::Entries;
use vstd::prelude::*;

verus! {

/// One step in the life of a cache.
pub enum Event {
    /// A lookup of `key` at the instant `now`.
    Lookup { key: Seq<char>, force_refresh: bool, now: u128 },
    /// The value `value`, fetched at the instant `now`, is stored under
    /// `key`.
    Store { key: Seq<char>, value: Seq<char>, now: u128 },
}

impl Event {
    /// The instant of the event.
    pub open spec fn instant(self) -> u128 {
        match self {
            Event::Lookup { now, .. } => now,
            Event::Store { now, .. } => now,
        }
    }

    /// The key that the event is about.
    pub open spec fn key(self) -> Seq<char> {
        match self {
            Event::Lookup { key, .. } => key,
            Event::Store { key, .. } => key,
        }
    }

    /// The entry that a store leaves in the cache. Meaningful for a store.
    pub open spec fn stored_entry(self, ttl: u128) -> (Seq<char>, Seq<char>, u128) {
        match self {
            Event::Lookup { key, now, .. } => (key, Seq::empty(), now),
            Event::Store { key, value, now } => (key, value, (now + ttl) as u128),
        }
    }

    /// The entries after the event.
    pub open spec fn apply(self, entries: Entries, limit: nat, ttl: u128) -> Entries {
        match self {
            Event::Lookup { key, force_refresh, .. } => looked_up(entries, key, force_refresh),
            Event::Store { key, value, now } => refreshed(entries, limit, ttl, key, value, now),
        }
    }
}

/// The entries of a cache that started empty and went through `events` in
/// order.
pub open spec fn replay(events: Seq<Event>, limit: nat, ttl: u128) -> Entries
    decreases events.len(),
{
    if events.len() == 0 {
        Seq::empty()
    } else {
        events.last().apply(replay(events.drop_last(), limit, ttl), limit, ttl)
    }
}

/// The events come at instants that never go back, none later than `now`.
pub open spec fn in_time_order(events: Seq<Event>, now: u128) -> bool {
    &&& forall|i: int, j: int|
        0 <= i <= j < events.len() ==> (#[trigger] events[i]).instant() <= (#[trigger] events[j]).instant()
    &&& forall|i: int| 0 <= i < events.len() ==> (#[trigger] events[i]).instant() <= now
}

/// Every entry has reached its expiry instant at `now`.
pub open spec fn all_stale(entries: Entries, now: u128) -> bool {
    forall|i: int| 0 <= i < entries.len() ==> (#[trigger] entries[i]).2 <= now
}

/// A key that the cache does not hold is fetched, whether or not the refresh
/// is forced, and the lookup leaves the cache as it was. Once the fetched
/// value is stored, the cache holds it under the key as its most recently
/// used entry, fresh until the time to live has passed.
pub proof fn law_unknown_key_is_fetched_and_cached(
    entries: Entries,
    limit: nat,
    ttl: u128,
    key: Seq<char>,
    value: Seq<char>,
    force_refresh: bool,
    now: u128,
)
    requires
        well_formed(entries, limit),
        !holds(entries, key),
        now + ttl <= u128::MAX,
    ensures
        served(entries, key, force_refresh, now) is None,
        looked_up(entries, key, force_refresh) == entries,
        well_formed(refreshed(entries, limit, ttl, key, value, now), limit),
        holds(refreshed(entries, limit, ttl, key, value, now), key),
        refreshed(entries, limit, ttl, key, value, now)[0] == (key, value, (now + ttl) as u128),
{
    lemma_written_well_formed(entries, limit, (key, value, (now + ttl) as u128));
}

/// The entries after a lookup of `key` at `now` whose fetch, where one was
/// asked for, brought `fetched`.
pub open spec fn settled(
    entries: Entries,
    limit: nat,
    ttl: u128,
    key: Seq<char>,
    force_refresh: bool,
    now: u128,
    fetched: Seq<char>,
) -> Entries {
    match served(entries, key, force_refresh, now) {
        Some(_) => looked_up(entries, key, force_refresh),
        None => refreshed(looked_up(entries, key, force_refresh), limit, ttl, key, fetched, now),
    }
}

/// The value that such a lookup returns: the cached one where it is served,
/// else the fetched one.
pub open spec fn answer(
    entries: Entries,
    key: Seq<char>,
    force_refresh: bool,
    now: u128,
    fetched: Seq<char>,
) -> Seq<char> {
    match served(entries, key, force_refresh, now) {
        Some(value) => value,
        None => fetched,
    }
}

/// After a successful lookup of a key, its entry is the most recently used
/// one. A second lookup without forced refresh, at an instant before that
/// entry expires, is served from the cache and returns the value that the
/// first lookup returned. Where the first lookup fetched, the entry expires
/// at the instant of the first lookup plus the time to live.
pub proof fn law_repeated_lookup_is_served(
    entries: Entries,
    limit: nat,
    ttl: u128,
    key: Seq<char>,
    force_refresh: bool,
    first: u128,
    fetched: Seq<char>,
    second: u128,
)
    requires
        well_formed(entries, limit),
        first + ttl <= u128::MAX,
        second < settled(entries, limit, ttl, key, force_refresh, first, fetched)[0].2,
    ensures
        settled(entries, limit, ttl, key, force_refresh, first, fetched)[0].0 == key,
        served(entries, key, force_refresh, first) is None ==> settled(
            entries,
            limit,
            ttl,
            key,
            force_refresh,
            first,
            fetched,
        )[0].2 == first + ttl,
        served(settled(entries, limit, ttl, key, force_refresh, first, fetched), key, false, second)
            == Some(answer(entries, key, force_refresh, first, fetched)),
{
    let read = looked_up(entries, key, force_refresh);
    lemma_touched_keeps(entries, key, key);
    match served(entries, key, force_refresh, first) {
        Some(value) => {
            assert(read == touched(entries, key));
            lemma_rank_unique(read, key, 0);
        },
        None => {
            lemma_written_well_formed(read, limit, (key, fetched, (first + ttl) as u128));
        },
    }
}

/// An entry whose expiry instant has been reached is never served: the
/// lookup asks for a fetch, with or without forced refresh.
pub proof fn law_expired_entry_is_fetched(entries: Entries, key: Seq<char>, force_refresh: bool, now: u128)
    requires
        holds(entries, key),
        now >= entries[rank(entries, key)].2,
    ensures
        served(entries, key, force_refresh, now) is None,
{
}

/// A forced refresh asks for a fetch whatever the cache holds, and does not
/// read the cache. Once the fetched value is stored it has replaced what was
/// cached under the key: a lookup before the new expiry instant is served
/// the new value.
pub proof fn law_forced_refresh_fetches_and_updates(
    entries: Entries,
    limit: nat,
    ttl: u128,
    key: Seq<char>,
    value: Seq<char>,
    now: u128,
    later: u128,
)
    requires
        well_formed(entries, limit),
        now + ttl <= u128::MAX,
        later < now + ttl,
    ensures
        served(entries, key, true, now) is None,
        looked_up(entries, key, true) == entries,
        refreshed(entries, limit, ttl, key, value, now)[0] == (key, value, (now + ttl) as u128),
        served(refreshed(entries, limit, ttl, key, value, now), key, false, later) == Some(value),
{
    lemma_written_well_formed(entries, limit, (key, value, (now + ttl) as u128));
}

/// A cache that started empty holds, after any events, at most `limit`
/// entries and no key twice.
pub proof fn law_capacity_is_never_exceeded(events: Seq<Event>, limit: nat, ttl: u128)
    requires
        limit > 0,
    ensures
        well_formed(replay(events, limit, ttl), limit),
    decreases events.len(),
{
    if events.len() > 0 {
        let before = replay(events.drop_last(), limit, ttl);
        law_capacity_is_never_exceeded(events.drop_last(), limit, ttl);
        match events.last() {
            Event::Lookup { key, force_refresh, now } => {
                lemma_touched_keeps(before, key, key);
            },
            Event::Store { key, value, now } => {
                lemma_written_well_formed(before, limit, (key, value, (now + ttl) as u128));
            },
        }
    }
}

/// Storing a new key in a full cache evicts exactly the least recently used
/// entry, the last in order of use: its key is gone, the new key is held,
/// and every other key is still held with the value and expiry instant that
/// it had, so that a lookup of it is served as before.
pub proof fn law_full_cache_evicts_least_recently_used(
    entries: Entries,
    limit: nat,
    ttl: u128,
    key: Seq<char>,
    value: Seq<char>,
    now: u128,
)
    requires
        well_formed(entries, limit),
        entries.len() == limit,
        !holds(entries, key),
    ensures
        refreshed(entries, limit, ttl, key, value, now).len() == limit,
        holds(refreshed(entries, limit, ttl, key, value, now), key),
        !holds(refreshed(entries, limit, ttl, key, value, now), entries.last().0),
        forall|other: Seq<char>|
            holds(entries, other) && other != entries.last().0 ==> #[trigger] holds(
                refreshed(entries, limit, ttl, key, value, now),
                other,
            ),
        forall|other: Seq<char>, at: u128|
            other != key && other != entries.last().0 ==> #[trigger] fresh_value(
                refreshed(entries, limit, ttl, key, value, now),
                other,
                at,
            ) == fresh_value(entries, other, at),
{
    let entry = (key, value, (now + ttl) as u128);
    let after = refreshed(entries, limit, ttl, key, value, now);
    lemma_written_well_formed(entries, limit, entry);
    let lru = entries.last().0;
    assert(holds(entries, lru));
    lemma_written_others(entries, limit, entry, lru);
    assert forall|other: Seq<char>| holds(entries, other) && other != lru implies #[trigger] holds(
        after,
        other,
    ) by {
        lemma_written_others(entries, limit, entry, other);
    }
    assert forall|other: Seq<char>, at: u128| other != key && other != lru implies #[trigger] fresh_value(
        after,
        other,
        at,
    ) == fresh_value(entries, other, at) by {
        lemma_written_others(entries, limit, entry, other);
    }
}

/// Every event is a store, and no two are about the same key.
pub open spec fn stores_of_distinct_keys(events: Seq<Event>) -> bool {
    &&& forall|i: int| 0 <= i < events.len() ==> #[trigger] events[i] is Store
    &&& forall|i: int, j: int|
        0 <= i < events.len() && 0 <= j < events.len() && i != j ==> (#[trigger] events[i]).key() != (
        #[trigger] events[j]).key()
}

/// Stores of distinct keys that fit into the cache evict nothing: the cache
/// holds the stored entries, the latest first.
pub proof fn lemma_stores_that_fit(events: Seq<Event>, limit: nat, ttl: u128)
    requires
        limit > 0,
        stores_of_distinct_keys(events),
        events.len() <= limit,
    ensures
        replay(events, limit, ttl).len() == events.len(),
        forall|i: int|
            0 <= i < events.len() ==> replay(events, limit, ttl)[events.len() - 1 - i] == (
            #[trigger] events[i]).stored_entry(ttl),
    decreases events.len(),
{
    if events.len() > 0 {
        let earlier = events.drop_last();
        let before = replay(earlier, limit, ttl);
        let last = events.last();
        assert forall|i: int| 0 <= i < earlier.len() implies #[trigger] earlier[i] == events[i] by {}
        lemma_stores_that_fit(earlier, limit, ttl);
        assert(last is Store);
        if holds(before, last.key()) {
            let r = rank(before, last.key());
            let i = earlier.len() - 1 - r;
            assert(before[earlier.len() - 1 - i] == earlier[i].stored_entry(ttl));
            assert(events[i].key() == last.key());
        }
        let after = replay(events, limit, ttl);
        assert(after == seq![last.stored_entry(ttl)] + before);
        assert forall|i: int| 0 <= i < events.len() implies after[events.len() - 1 - i] == (
        #[trigger] events[i]).stored_entry(ttl) by {
            if i < earlier.len() {
                assert(after[events.len() - 1 - i] == before[earlier.len() - 1 - i]);
                assert(earlier[i] == events[i]);
            }
        }
    }
}

/// After one more distinct key was stored than the cache has room for, the
/// key stored first is gone and every other one is held: the cache holds the
/// entries of all stores but the first, the latest first.
pub proof fn law_one_store_too_many(events: Seq<Event>, limit: nat, ttl: u128)
    requires
        limit > 0,
        stores_of_distinct_keys(events),
        events.len() == limit + 1,
    ensures
        replay(events, limit, ttl).len() == limit,
        !holds(replay(events, limit, ttl), events[0].key()),
        forall|i: int|
            1 <= i <= limit ==> replay(events, limit, ttl)[limit - i] == (#[trigger] events[i]).stored_entry(
                ttl,
            ),
        forall|i: int| 1 <= i <= limit ==> holds(replay(events, limit, ttl), (#[trigger] events[i]).key()),
{
    let earlier = events.drop_last();
    let before = replay(earlier, limit, ttl);
    let last = events.last();
    let after = replay(events, limit, ttl);
    assert forall|i: int| 0 <= i < earlier.len() implies #[trigger] earlier[i] == events[i] by {}
    lemma_stores_that_fit(earlier, limit, ttl);
    assert(last is Store);
    if holds(before, last.key()) {
        let r = rank(before, last.key());
        let i = earlier.len() - 1 - r;
        assert(before[earlier.len() - 1 - i] == earlier[i].stored_entry(ttl));
        assert(events[i].key() == last.key());
    }
    assert(after == seq![last.stored_entry(ttl)] + before.drop_last());
    assert forall|i: int| 1 <= i <= limit implies after[limit - i] == (#[trigger] events[i]).stored_entry(
        ttl,
    ) by {
        if i < limit {
            assert(after[limit - i] == before[earlier.len() - 1 - i]);
            assert(earlier[i] == events[i]);
        }
    }
    assert forall|i: int| 1 <= i <= limit implies holds(after, (#[trigger] events[i]).key()) by {
        assert(after[limit - i].0 == events[i].key());
    }
    if holds(after, events[0].key()) {
        let r = rank(after, events[0].key());
        let i = limit - r;
        assert(after[limit - i] == events[i].stored_entry(ttl));
        assert(events[i].key() == events[0].key());
    }
}

/// Eviction goes by order of use, not of insertion: a key that was just
/// read is the most recently used, so in a cache of two entries or more the
/// next store of a new key does not evict it.
pub proof fn law_read_key_survives_next_store(
    entries: Entries,
    limit: nat,
    ttl: u128,
    read: Seq<char>,
    key: Seq<char>,
    value: Seq<char>,
    now: u128,
    at: u128,
)
    requires
        well_formed(entries, limit),
        limit >= 2,
        holds(entries, read),
        read != key,
    ensures
        holds(refreshed(touched(entries, read), limit, ttl, key, value, now), read),
        fresh_value(refreshed(touched(entries, read), limit, ttl, key, value, now), read, at)
            == fresh_value(entries, read, at),
{
    let after_read = touched(entries, read);
    lemma_touched_keeps(entries, read, read);
    lemma_rank_unique(after_read, read, 0);
    lemma_written_others(after_read, limit, (key, value, (now + ttl) as u128), read);
}

/// Storing a key in a cache that is not full, or a key that the cache
/// holds, evicts nothing: every other key stays, with what was stored under
/// it.
pub proof fn law_store_without_eviction(
    entries: Entries,
    limit: nat,
    ttl: u128,
    key: Seq<char>,
    value: Seq<char>,
    now: u128,
)
    requires
        well_formed(entries, limit),
        entries.len() < limit || holds(entries, key),
    ensures
        refreshed(entries, limit, ttl, key, value, now).len() == if holds(entries, key) {
            entries.len()
        } else {
            entries.len() + 1
        },
        forall|other: Seq<char>|
            holds(entries, other) ==> #[trigger] holds(refreshed(entries, limit, ttl, key, value, now), other),
        forall|other: Seq<char>, at: u128|
            other != key ==> #[trigger] fresh_value(
                refreshed(entries, limit, ttl, key, value, now),
                other,
                at,
            ) == fresh_value(entries, other, at),
{
    let entry = (key, value, (now + ttl) as u128);
    let after = refreshed(entries, limit, ttl, key, value, now);
    lemma_written_well_formed(entries, limit, entry);
    assert forall|other: Seq<char>| holds(entries, other) implies #[trigger] holds(after, other) by {
        if other != key {
            lemma_written_others(entries, limit, entry, other);
        }
    }
    assert forall|other: Seq<char>, at: u128| other != key implies #[trigger] fresh_value(after, other, at)
        == fresh_value(entries, other, at) by {
        lemma_written_others(entries, limit, entry, other);
    }
}

/// A read changes the order of use and nothing else: whatever lookup went
/// before, every key is served afterwards exactly as it would have been
/// served before. Since a failed fetch leaves the cache as the lookup left
/// it, a value that was cached before a failed fetch is still served after
/// it until it expires.
pub proof fn law_failed_fetch_keeps_cached_values(
    entries: Entries,
    key: Seq<char>,
    force_refresh: bool,
    other: Seq<char>,
    later: u128,
)
    requires
        distinct(entries),
    ensures
        served(looked_up(entries, key, force_refresh), other, false, later) == served(
            entries,
            other,
            false,
            later,
        ),
{
    lemma_touched_keeps(entries, key, other);
}

/// With a time to live of zero, an entry is expired from the instant at
/// which it is stored: a lookup at that instant or later asks for a fetch.
pub proof fn law_zero_ttl_entry_is_never_served(
    entries: Entries,
    limit: nat,
    key: Seq<char>,
    value: Seq<char>,
    force_refresh: bool,
    now: u128,
    later: u128,
)
    requires
        well_formed(entries, limit),
        now <= later,
    ensures
        served(refreshed(entries, limit, 0, key, value, now), key, force_refresh, later) is None,
{
    lemma_written_well_formed(entries, limit, (key, value, now));
}

/// With a time to live of zero, every lookup asks for a fetch: a cache that
/// started empty and went through events at instants that never go back
/// serves nothing at `now`.
pub proof fn law_zero_ttl_always_fetches(
    events: Seq<Event>,
    limit: nat,
    key: Seq<char>,
    force_refresh: bool,
    now: u128,
)
    requires
        limit > 0,
        in_time_order(events, now),
    ensures
        all_stale(replay(events, limit, 0), now),
        served(replay(events, limit, 0), key, force_refresh, now) is None,
    decreases events.len(),
{
    let entries = replay(events, limit, 0);
    if events.len() > 0 {
        let earlier = events.drop_last();
        let before = replay(earlier, limit, 0);
        assert forall|i: int, j: int| 0 <= i <= j < earlier.len() implies (#[trigger] earlier[i]).instant() <= (
        #[trigger] earlier[j]).instant() by {
            assert(earlier[i] == events[i]);
            assert(earlier[j] == events[j]);
        }
        assert forall|i: int| 0 <= i < earlier.len() implies (#[trigger] earlier[i]).instant() <= now by {
            assert(earlier[i] == events[i]);
        }
        law_zero_ttl_always_fetches(earlier, limit, key, force_refresh, now);
        law_capacity_is_never_exceeded(earlier, limit, 0);
        match events.last() {
            Event::Lookup { key: read, force_refresh: forced, now: at } => {
                if !forced && holds(before, read) {
                    let r = rank(before, read);
                    assert forall|i: int| 0 <= i < entries.len() implies (#[trigger] entries[i]).2 <= now by {
                        let s = source_of_promoted(r, i);
                        assert(entries[i] == before[s]);
                    }
                }
            },
            Event::Store { key: stored, value, now: at } => {
                assert(events.last().instant() == at);
                let entry = (stored, value, at);
                assert(entries == written(before, limit, entry));
                assert forall|i: int| 0 <= i < entries.len() implies (#[trigger] entries[i]).2 <= now by {
                    if i > 0 {
                        if holds(before, stored) {
                            let r = rank(before, stored);
                            let s = source_of_promoted(r, i);
                            assert(entries[i] == before[s]);
                        } else {
                            assert(entries[i] == before[i - 1]);
                        }
                    }
                }
            },
        }
    }
    if holds(entries, key) {
        let r = rank(entries, key);
        assert(entries[r].2 <= now);
    }
}

} // verus!
