//! The mathematical model of the cache: a sequence of entries in order of
//! use, the most recently used first.
//!
//! An entry is a triple of key, value and expiry instant. Everything here is
//! ghost code; the executable cache states its contracts over these
//! functions.

use vstd::prelude::*;

verus! {

/// The entries of a cache, most recently used first. Each is
/// `(key, value, expires_at)`.
pub type Entries = Seq<(Seq<char>, Seq<char>, u128)>;

/// Whether some entry has the key.
pub open spec fn holds(entries: Entries, key: Seq<char>) -> bool {
    exists|i: int| 0 <= i < entries.len() && (#[trigger] entries[i]).0 == key
}

/// Where the entry of a key stands. Meaningful where `holds(entries, key)`.
pub open spec fn rank(entries: Entries, key: Seq<char>) -> int {
    choose|i: int| 0 <= i < entries.len() && (#[trigger] entries[i]).0 == key
}

/// No key occurs twice.
pub open spec fn distinct(entries: Entries) -> bool {
    forall|i: int, j: int|
        0 <= i < entries.len() && 0 <= j < entries.len() && i != j ==> (#[trigger] entries[i]).0
            != (#[trigger] entries[j]).0
}

/// What a cache of at most `limit` entries always satisfies.
pub open spec fn well_formed(entries: Entries, limit: nat) -> bool {
    &&& limit > 0
    &&& entries.len() <= limit
    &&& distinct(entries)
}

/// The entries after the one at `i` was used: it moves to the front.
pub open spec fn promoted(entries: Entries, i: int) -> Entries {
    seq![entries[i]] + entries.remove(i)
}

/// The entries after a read of `key`: its entry, if there is one, becomes
/// the most recently used.
pub open spec fn touched(entries: Entries, key: Seq<char>) -> Entries {
    if holds(entries, key) {
        promoted(entries, rank(entries, key))
    } else {
        entries
    }
}

/// The entries after `entry` was written into a cache of at most `limit`
/// entries. The written entry is the most recently used. It replaces the
/// entry of the same key if there is one; else, where the cache is full, the
/// least recently used entry leaves.
pub open spec fn written(entries: Entries, limit: nat, entry: (Seq<char>, Seq<char>, u128)) -> Entries {
    if holds(entries, entry.0) {
        seq![entry] + entries.remove(rank(entries, entry.0))
    } else if entries.len() >= limit {
        seq![entry] + entries.drop_last()
    } else {
        seq![entry] + entries
    }
}

/// The value that a read of `key` at `now` finds fresh, if any: the entry
/// is there and its expiry instant has not been reached.
pub open spec fn fresh_value(entries: Entries, key: Seq<char>, now: u128) -> Option<Seq<char>> {
    if holds(entries, key) && now < entries[rank(entries, key)].2 {
        Some(entries[rank(entries, key)].1)
    } else {
        None
    }
}

/// Among distinct keys an entry is found where it stands.
pub proof fn lemma_rank_unique(entries: Entries, key: Seq<char>, i: int)
    requires
        distinct(entries),
        0 <= i < entries.len(),
        entries[i].0 == key,
    ensures
        holds(entries, key),
        rank(entries, key) == i,
{
    let r = rank(entries, key);
    assert(0 <= r < entries.len() && entries[r].0 == key);
}

/// Promotion permutes the entries: it keeps their number, keeps every key
/// and what is stored under it, and keeps the keys distinct.
pub proof fn lemma_promoted(entries: Entries, i: int)
    requires
        distinct(entries),
        0 <= i < entries.len(),
    ensures
        promoted(entries, i).len() == entries.len(),
        promoted(entries, i)[0] == entries[i],
        distinct(promoted(entries, i)),
        forall|j: int| 0 <= j < i ==> promoted(entries, i)[j + 1] == #[trigger] entries[j],
        forall|j: int| i < j < entries.len() ==> promoted(entries, i)[j] == #[trigger] entries[j],
{
    let p = promoted(entries, i);
    assert forall|a: int, b: int| 0 <= a < p.len() && 0 <= b < p.len() && a != b implies (#[trigger] p[a]).0
        != (#[trigger] p[b]).0 by {
        let sa = source_of_promoted(i, a);
        let sb = source_of_promoted(i, b);
        assert(p[a] == entries[sa]);
        assert(p[b] == entries[sb]);
        assert(sa != sb);
    }
}

/// The index, before the promotion, of what stands at `j` after the entry
/// at `i` was promoted.
pub open spec fn source_of_promoted(i: int, j: int) -> int {
    if j == 0 {
        i
    } else if j <= i {
        j - 1
    } else {
        j
    }
}

/// A read changes neither which keys are held nor what is stored under them.
pub proof fn lemma_touched_keeps(entries: Entries, key: Seq<char>, other: Seq<char>)
    requires
        distinct(entries),
    ensures
        distinct(touched(entries, key)),
        touched(entries, key).len() == entries.len(),
        holds(touched(entries, key), other) == holds(entries, other),
        holds(entries, other) ==> touched(entries, key)[rank(touched(entries, key), other)]
            == entries[rank(entries, other)],
        holds(entries, key) ==> touched(entries, key)[0] == entries[rank(entries, key)],
{
    if holds(entries, key) {
        let i = rank(entries, key);
        let p = promoted(entries, i);
        lemma_promoted(entries, i);
        assert(p == touched(entries, key));
        if holds(entries, other) {
            let r = rank(entries, other);
            let t: int = if r == i {
                0
            } else if r < i {
                r + 1
            } else {
                r
            };
            assert(p[t] == entries[r]);
            lemma_rank_unique(p, other, t);
        }
        if holds(p, other) {
            let t = rank(p, other);
            let s = source_of_promoted(i, t);
            assert(p[t] == entries[s]);
            assert(entries[s].0 == other);
        }
    }
}

/// A write keeps a cache well formed, and its entry is the most recently
/// used afterwards.
pub proof fn lemma_written_well_formed(entries: Entries, limit: nat, entry: (Seq<char>, Seq<char>, u128))
    requires
        well_formed(entries, limit),
    ensures
        well_formed(written(entries, limit, entry), limit),
        written(entries, limit, entry)[0] == entry,
        holds(written(entries, limit, entry), entry.0),
        rank(written(entries, limit, entry), entry.0) == 0,
{
    let w = written(entries, limit, entry);
    if holds(entries, entry.0) {
        let i = rank(entries, entry.0);
        let rest = entries.remove(i);
        assert forall|a: int, b: int| 0 <= a < w.len() && 0 <= b < w.len() && a != b implies (#[trigger] w[a]).0
            != (#[trigger] w[b]).0 by {
            let sa = source_of_promoted(i, a);
            let sb = source_of_promoted(i, b);
            assert(w[a].0 == entries[sa].0);
            assert(w[b].0 == entries[sb].0);
            assert(sa != sb);
        }
    } else {
        let rest = if entries.len() >= limit {
            entries.drop_last()
        } else {
            entries
        };
        assert(w == seq![entry] + rest);
        assert forall|a: int, b: int| 0 <= a < w.len() && 0 <= b < w.len() && a != b implies (#[trigger] w[a]).0
            != (#[trigger] w[b]).0 by {
            if a > 0 {
                assert(w[a] == entries[a - 1]);
            }
            if b > 0 {
                assert(w[b] == entries[b - 1]);
            }
        }
    }
    assert(w[0] == entry);
    lemma_rank_unique(w, entry.0, 0);
}

/// What a write does to the other keys. The key of the least recently used
/// entry of a full cache leaves when a new key is written; every other key
/// stays, with what was stored under it.
pub proof fn lemma_written_others(
    entries: Entries,
    limit: nat,
    entry: (Seq<char>, Seq<char>, u128),
    other: Seq<char>,
)
    requires
        well_formed(entries, limit),
        other != entry.0,
    ensures
        holds(written(entries, limit, entry), other) == (holds(entries, other) && !evicts(
            entries,
            limit,
            entry.0,
            other,
        )),
        holds(written(entries, limit, entry), other) ==> written(entries, limit, entry)[rank(
            written(entries, limit, entry),
            other,
        )] == entries[rank(entries, other)],
{
    let w = written(entries, limit, entry);
    lemma_written_well_formed(entries, limit, entry);
    if holds(entries, entry.0) {
        let i = rank(entries, entry.0);
        if holds(entries, other) {
            let r = rank(entries, other);
            let t: int = if r < i {
                r + 1
            } else {
                r
            };
            assert(w[t] == entries[r]);
            lemma_rank_unique(w, other, t);
        }
        if holds(w, other) {
            let t = rank(w, other);
            let s = source_of_promoted(i, t);
            assert(t != 0);
            assert(w[t] == entries[s]);
            lemma_rank_unique(entries, other, s);
        }
    } else if entries.len() >= limit {
        let last = entries.len() - 1;
        if holds(entries, other) {
            let r = rank(entries, other);
            if r < last {
                assert(w[r + 1] == entries[r]);
                lemma_rank_unique(w, other, r + 1);
            } else {
                assert(entries.last().0 == other);
            }
        }
        if holds(w, other) {
            let t = rank(w, other);
            assert(t != 0);
            assert(w[t] == entries[t - 1]);
            lemma_rank_unique(entries, other, t - 1);
            assert(entries[last].0 != other);
        }
    } else {
        if holds(entries, other) {
            let r = rank(entries, other);
            assert(w[r + 1] == entries[r]);
            lemma_rank_unique(w, other, r + 1);
        }
        if holds(w, other) {
            let t = rank(w, other);
            assert(t != 0);
            assert(w[t] == entries[t - 1]);
            lemma_rank_unique(entries, other, t - 1);
        }
    }
}

/// Whether writing the key `written_key` pushes the key `other` out: the
/// written key is new, the cache is full, and `other` is the key of the
/// least recently used entry.
pub open spec fn evicts(entries: Entries, limit: nat, written_key: Seq<char>, other: Seq<char>) -> bool {
    &&& !holds(entries, written_key)
    &&& entries.len() >= limit
    &&& entries.len() > 0
    &&& entries.last().0 == other
}

/// The value that a lookup of `key` at `now` serves from the cache, or
/// `None` where the lookup asks for a fetch: a forced refresh, a key that is
/// not held, or an entry that has expired.
pub open spec fn served(entries: Entries, key: Seq<char>, force_refresh: bool, now: u128) -> Option<
    Seq<char>,
> {
    if force_refresh {
        None
    } else {
        fresh_value(entries, key, now)
    }
}

/// The entries after a lookup of `key`. Unless the refresh is forced the
/// cache is read, which makes the entry of the key, fresh or expired, the
/// most recently used.
pub open spec fn looked_up(entries: Entries, key: Seq<char>, force_refresh: bool) -> Entries {
    if force_refresh {
        entries
    } else {
        touched(entries, key)
    }
}

/// The entries after a value fetched at `now` was stored under `key` with a
/// time to live of `ttl`.
pub open spec fn refreshed(
    entries: Entries,
    limit: nat,
    ttl: u128,
    key: Seq<char>,
    value: Seq<char>,
    now: u128,
) -> Entries {
    written(entries, limit, (key, value, (now + ttl) as u128))
}

} // verus!
