//! Time-based cache with a fixed time to live.
//!
//! The functional core, `CacheState`, takes the current time as an explicit
//! argument and is specified exactly: entries carry their insertion time, a
//! read past the time to live finds nothing, and expired entries stay in the
//! map until `cleanup_expired` or an overwrite. `TimedCache` wraps the core
//! in a reader-writer lock and a monotonic clock; clones share the same
//! underlying map.

use vstd::prelude::*;
use vstd::rwlock::{RwLock, RwLockPredicate};
use std::sync::Arc;
use crate::clock::MonotonicClock;
use crate::text;
use vstd::string::StringExecFns;

verus! {

/// A key the cache can compare: it has a mathematical value, and equality of
/// keys is equality of those values.
pub trait CacheKey: View + Sized {
    /// Whether two keys hold the same value.
    fn key_eq(&self, other: &Self) -> (r: bool)
        ensures
            r == (self@ == other@),
    ;
}

impl CacheKey for String {
    fn key_eq(&self, other: &Self) -> (r: bool) {
        self.eq(other)
    }
}

impl<'a> CacheKey for &'a str {
    fn key_eq(&self, other: &Self) -> (r: bool) {
        text::str_eq(self, other)
    }
}

/// A cached value with its insertion time.
pub struct CacheEntry<K, V> {
    /// The key the value is filed under
    pub key: K,
    /// When the value was inserted, in clock milliseconds
    pub inserted_at_ms: u64,
    /// The cached value
    pub value: V,
}

/// The first entry with the given key value, if any.
pub open spec fn entry_for<K: CacheKey, V>(
    es: Seq<CacheEntry<K, V>>,
    k: <K as View>::V,
) -> Option<CacheEntry<K, V>>
    decreases es.len(),
{
    if es.len() == 0 {
        None
    } else if es[0].key@ == k {
        Some(es[0])
    } else {
        entry_for(es.skip(1), k)
    }
}

/// An entry inserted at `t` is fresh at `now` while less than `ttl_ms` has
/// passed; a clock that appears to have gone backwards counts as no time
/// passed.
pub open spec fn fresh_at(t: u64, now: u64, ttl_ms: u64) -> bool {
    (if now >= t {
        now - t
    } else {
        0
    }) < ttl_ms
}

/// The functional core of the cache: a keyed map of timestamped entries and
/// a fixed time to live. Time is an explicit argument of every operation.
pub struct CacheState<K, V> {
    /// The entries, at most one per key value
    pub entries: Vec<CacheEntry<K, V>>,
    /// The time to live, in milliseconds
    pub ttl_ms: u64,
}

impl<K: CacheKey, V> CacheState<K, V> {
    /// Keys are unique.
    pub open spec fn wf(self) -> bool {
        forall|i: int, j: int|
            0 <= i < j < self.entries@.len() ==> (#[trigger] self.entries@[i]).key@ != (
            #[trigger] self.entries@[j]).key@
    }

    /// What a read at `now` finds: the entry's value, when there is one and
    /// it is fresh.
    pub open spec fn lookup_fresh(self, k: <K as View>::V, now: u64) -> Option<V> {
        match entry_for(self.entries@, k) {
            Some(e) => if fresh_at(e.inserted_at_ms, now, self.ttl_ms) {
                Some(e.value)
            } else {
                None
            },
            None => None,
        }
    }

    /// An empty cache with the given time to live.
    pub fn new(ttl_ms: u64) -> (r: Self)
        ensures
            r.wf(),
            r.entries@.len() == 0,
            r.ttl_ms == ttl_ms,
    {
        CacheState { entries: Vec::new(), ttl_ms }
    }

    /// The index of the first entry holding `key`, if any.
    fn index_of(&self, key: &K) -> (r: Option<usize>)
        ensures
            match r {
                Some(i) => i < self.entries@.len() && entry_for(self.entries@, key@) == Some(
                    self.entries@[i as int],
                ) && self.entries@[i as int].key@ == key@,
                None => entry_for(self.entries@, key@) is None && forall|t: int|
                    0 <= t < self.entries@.len() ==> (#[trigger] self.entries@[t]).key@ != key@,
            },
    {
        let mut i: usize = 0;
        while i < self.entries.len()
            invariant
                i <= self.entries@.len(),
                forall|t: int| 0 <= t < i ==> (#[trigger] self.entries@[t]).key@ != key@,
            decreases self.entries@.len() - i,
        {
            if self.entries[i].key.key_eq(key) {
                proof {
                    lemma_entry_for_found(self.entries@, key@, i as int);
                }
                return Some(i);
            }
            i = i + 1;
        }
        proof {
            lemma_entry_for_missing(self.entries@, key@);
        }
        None
    }

    /// Insert a value under a key at time `now`, replacing any previous
    /// entry and resetting its timestamp.
    pub fn insert_at(&mut self, key: K, value: V, now: u64)
        requires
            old(self).wf(),
        ensures
            final(self).wf(),
            final(self).ttl_ms == old(self).ttl_ms,
            entry_for(final(self).entries@, key@) matches Some(e) && e.inserted_at_ms == now
                && e.value == value && e.key@ == key@,
            forall|k2: <K as View>::V|
                k2 != key@ ==> #[trigger] entry_for(final(self).entries@, k2) == entry_for(
                    old(self).entries@,
                    k2,
                ),
            final(self).entries@.len() == old(self).entries@.len() + (
            if entry_for(old(self).entries@, key@) is Some {
                0int
            } else {
                1int
            }),
    {
        let ghost before = self.entries@;
        let ghost kv = key@;
        match self.index_of(&key) {
            Some(i) => {
                proof {
                    assert forall|t: int|
                        0 <= t < before.len() && t != i implies (#[trigger] before[t]).key@
                        != kv by {
                        if t < i as int {
                            assert(before[t].key@ != before[i as int].key@);
                        } else {
                            assert(before[i as int].key@ != before[t].key@);
                        }
                    }
                }
                let _ = self.entries.remove(i);
                self.entries.insert(i, CacheEntry { key, inserted_at_ms: now, value });
                proof {
                    assert(self.entries@ =~= before.update(
                        i as int,
                        CacheEntry { key, inserted_at_ms: now, value },
                    ));
                    lemma_entry_update(before, self.entries@, i as int, kv);
                }
            },
            None => {
                self.entries.push(CacheEntry { key, inserted_at_ms: now, value });
                proof {
                    lemma_entry_push(before, self.entries@, kv);
                }
            },
        }
    }

    /// Read a key at time `now`: the stored value when it exists and is
    /// fresh, nothing when it is absent or expired.
    pub fn get_at(&self, key: &K, now: u64) -> (r: Option<&V>)
        ensures
            match (r, self.lookup_fresh(key@, now)) {
                (Some(v), Some(sv)) => *v == sv,
                (None, None) => true,
                _ => false,
            },
    {
        match self.index_of(key) {
            Some(i) => {
                let e = &self.entries[i];
                let age = if now >= e.inserted_at_ms {
                    now - e.inserted_at_ms
                } else {
                    0
                };
                if age < self.ttl_ms {
                    Some(&e.value)
                } else {
                    None
                }
            },
            None => None,
        }
    }

    /// Whether a key is present and fresh at time `now`.
    pub fn contains_key_at(&self, key: &K, now: u64) -> (r: bool)
        ensures
            r == (self.lookup_fresh(key@, now) is Some),
    {
        self.get_at(key, now).is_some()
    }

    /// Remove a key, fresh or not.
    pub fn remove_key(&mut self, key: &K)
        requires
            old(self).wf(),
        ensures
            final(self).wf(),
            final(self).ttl_ms == old(self).ttl_ms,
            entry_for(final(self).entries@, key@) is None,
            forall|k2: <K as View>::V|
                k2 != key@ ==> #[trigger] entry_for(final(self).entries@, k2) == entry_for(
                    old(self).entries@,
                    k2,
                ),
            final(self).entries@.len() == old(self).entries@.len() - (
            if entry_for(old(self).entries@, key@) is Some {
                1int
            } else {
                0int
            }),
    {
        let ghost before = self.entries@;
        match self.index_of(key) {
            Some(i) => {
                let _ = self.entries.remove(i);
                proof {
                    lemma_entry_remove(before, self.entries@, i as int, key@);
                }
            },
            None => {},
        }
    }

    /// Remove every entry.
    pub fn clear_all(&mut self)
        ensures
            final(self).wf(),
            final(self).ttl_ms == old(self).ttl_ms,
            final(self).entries@.len() == 0,
            forall|k2: <K as View>::V| #[trigger] entry_for(final(self).entries@, k2) is None,
    {
        self.entries.clear();
    }

    /// Drop every entry that is no longer fresh at time `now`; fresh entries
    /// stay, with their timestamps.
    pub fn cleanup_expired_at(&mut self, now: u64)
        requires
            old(self).wf(),
        ensures
            final(self).wf(),
            final(self).ttl_ms == old(self).ttl_ms,
            final(self).entries@ == keep_fresh(old(self).entries@, now, old(self).ttl_ms),
    {
        let ghost before = self.entries@;
        let ghost ttl = self.ttl_ms;
        let n = self.entries.len();
        let mut kept: Vec<CacheEntry<K, V>> = Vec::new();
        let mut i: usize = 0;
        proof {
            assert(before.skip(0) =~= before);
            assert(kept@ + keep_fresh(before, now, ttl) =~= keep_fresh(before, now, ttl));
        }
        while i < n
            invariant
                n == before.len(),
                self.entries@ =~= before.skip(i as int),
                self.ttl_ms == ttl,
                i <= n,
                keep_fresh(before, now, ttl) =~= kept@ + keep_fresh(
                    before.skip(i as int),
                    now,
                    ttl,
                ),
            decreases n - i,
        {
            let ghost rest = before.skip(i as int);
            proof {
                assert(rest[0] == before[i as int]);
                assert(rest.skip(1) =~= before.skip(i + 1));
            }
            let e = self.entries.remove(0);
            proof {
                assert(e == before[i as int]);
                assert(self.entries@ =~= rest.remove(0));
                assert(rest.remove(0) =~= before.skip(i + 1));
            }
            let age = if now >= e.inserted_at_ms {
                now - e.inserted_at_ms
            } else {
                0
            };
            if age < self.ttl_ms {
                kept.push(e);
            }
            i = i + 1;
        }
        self.entries = kept;
        proof {
            assert(before.skip(n as int) =~= Seq::<CacheEntry<K, V>>::empty());
            lemma_keep_fresh_wf(before, now, ttl);
        }
    }

    /// How many entries the cache holds, expired ones included.
    pub fn len(&self) -> (r: usize)
        ensures
            r == self.entries@.len(),
    {
        self.entries.len()
    }
}

proof fn lemma_entry_for_found<K: CacheKey, V>(es: Seq<CacheEntry<K, V>>, k: <K as View>::V, i: int)
    requires
        0 <= i < es.len(),
        es[i].key@ == k,
        forall|t: int| 0 <= t < i ==> (#[trigger] es[t]).key@ != k,
    ensures
        entry_for(es, k) == Some(es[i]),
    decreases i,
{
    if i > 0 {
        assert(forall|t: int| 0 <= t < es.skip(1).len() ==> es.skip(1)[t] == es[t + 1]);
        lemma_entry_for_found(es.skip(1), k, i - 1);
    }
}

proof fn lemma_entry_for_missing<K: CacheKey, V>(es: Seq<CacheEntry<K, V>>, k: <K as View>::V)
    requires
        forall|t: int| 0 <= t < es.len() ==> (#[trigger] es[t]).key@ != k,
    ensures
        entry_for(es, k) is None,
    decreases es.len(),
{
    if es.len() > 0 {
        assert(forall|t: int| 0 <= t < es.skip(1).len() ==> es.skip(1)[t] == es[t + 1]);
        lemma_entry_for_missing(es.skip(1), k);
    }
}

/// Replacing the first entry of a key in place keeps every other key's entry
/// and the key uniqueness.
proof fn lemma_entry_update<K: CacheKey, V>(
    before: Seq<CacheEntry<K, V>>,
    after: Seq<CacheEntry<K, V>>,
    i: int,
    k: <K as View>::V,
)
    requires
        0 <= i < before.len(),
        before[i].key@ == k,
        forall|t: int| 0 <= t < before.len() && t != i ==> (#[trigger] before[t]).key@ != k,
        after == before.update(i, after[i]),
        after.len() == before.len(),
        after[i].key@ == k,
    ensures
        entry_for(after, k) == Some(after[i]),
        forall|k2: <K as View>::V|
            k2 != k ==> #[trigger] entry_for(after, k2) == entry_for(before, k2),
        (forall|t: int, u: int|
            0 <= t < u < before.len() ==> (#[trigger] before[t]).key@ != (
            #[trigger] before[u]).key@) ==> (forall|t: int, u: int|
            0 <= t < u < after.len() ==> (#[trigger] after[t]).key@ != (#[trigger] after[u]).key@),
{
    assert(forall|t: int| 0 <= t < after.len() && t != i ==> after[t] == before[t]);
    assert(before[i].key@ == k);
    lemma_entry_for_found(after, k, i);
    assert forall|k2: <K as View>::V| k2 != k implies #[trigger] entry_for(after, k2) == entry_for(
        before,
        k2,
    ) by {
        lemma_entry_agree(before, after, k2, i);
    }
}

/// Two entry lists that agree except at a position whose key differs from
/// `k2` on both sides agree on `k2`'s entry.
proof fn lemma_entry_agree<K: CacheKey, V>(
    before: Seq<CacheEntry<K, V>>,
    after: Seq<CacheEntry<K, V>>,
    k2: <K as View>::V,
    i: int,
)
    requires
        before.len() == after.len(),
        0 <= i < before.len(),
        forall|t: int| 0 <= t < before.len() && t != i ==> #[trigger] after[t] == before[t],
        before[i].key@ != k2,
        after[i].key@ != k2,
    ensures
        entry_for(after, k2) == entry_for(before, k2),
    decreases before.len(),
{
    if before.len() > 0 {
        if i == 0 {
            assert(before.skip(1) =~= after.skip(1));
        } else {
            assert(before[0] == after[0]);
            if before[0].key@ != k2 {
                assert(forall|t: int|
                    0 <= t < before.skip(1).len() && t != i - 1 ==> #[trigger] after.skip(1)[t]
                        == before.skip(1)[t]);
                lemma_entry_agree(before.skip(1), after.skip(1), k2, i - 1);
            }
        }
    }
}

/// Appending an entry with a new key adds exactly that key.
proof fn lemma_entry_push<K: CacheKey, V>(
    before: Seq<CacheEntry<K, V>>,
    after: Seq<CacheEntry<K, V>>,
    k: <K as View>::V,
)
    requires
        after == before.push(after.last()),
        after.len() == before.len() + 1,
        after.last().key@ == k,
        forall|t: int| 0 <= t < before.len() ==> (#[trigger] before[t]).key@ != k,
    ensures
        entry_for(after, k) == Some(after.last()),
        forall|k2: <K as View>::V|
            k2 != k ==> #[trigger] entry_for(after, k2) == entry_for(before, k2),
        (forall|t: int, u: int|
            0 <= t < u < before.len() ==> (#[trigger] before[t]).key@ != (
            #[trigger] before[u]).key@) ==> (forall|t: int, u: int|
            0 <= t < u < after.len() ==> (#[trigger] after[t]).key@ != (#[trigger] after[u]).key@),
    decreases before.len(),
{
    assert(forall|t: int| 0 <= t < before.len() ==> after[t] == before[t]);
    lemma_entry_for_found(after, k, before.len() as int);
    assert forall|k2: <K as View>::V| k2 != k implies #[trigger] entry_for(after, k2) == entry_for(
        before,
        k2,
    ) by {
        lemma_entry_push_other(before, after, k2);
    }
}

proof fn lemma_entry_push_other<K: CacheKey, V>(
    before: Seq<CacheEntry<K, V>>,
    after: Seq<CacheEntry<K, V>>,
    k2: <K as View>::V,
)
    requires
        after.len() == before.len() + 1,
        forall|t: int| 0 <= t < before.len() ==> #[trigger] after[t] == before[t],
        after.last().key@ != k2,
    ensures
        entry_for(after, k2) == entry_for(before, k2),
    decreases before.len(),
{
    if before.len() == 0 {
    } else {
        assert(after[0] == before[0]);
        if before[0].key@ != k2 {
            assert(forall|t: int|
                0 <= t < before.skip(1).len() ==> #[trigger] after.skip(1)[t] == before.skip(
                    1,
                )[t]);
            assert(after.skip(1).last() == after.last());
            lemma_entry_push_other(before.skip(1), after.skip(1), k2);
        }
    }
}

/// Removing the first entry of a key removes exactly that key.
proof fn lemma_entry_remove<K: CacheKey, V>(
    before: Seq<CacheEntry<K, V>>,
    after: Seq<CacheEntry<K, V>>,
    i: int,
    k: <K as View>::V,
)
    requires
        0 <= i < before.len(),
        before[i].key@ == k,
        forall|t: int, u: int|
            0 <= t < u < before.len() ==> (#[trigger] before[t]).key@ != (
            #[trigger] before[u]).key@,
        after == before.remove(i),
    ensures
        entry_for(after, k) is None,
        forall|k2: <K as View>::V|
            k2 != k ==> #[trigger] entry_for(after, k2) == entry_for(before, k2),
        forall|t: int, u: int|
            0 <= t < u < after.len() ==> (#[trigger] after[t]).key@ != (#[trigger] after[u]).key@,
    decreases before.len(),
{
    assert(forall|t: int| 0 <= t < i ==> after[t] == before[t]);
    assert(forall|t: int| i <= t < after.len() ==> after[t] == before[t + 1]);
    assert(forall|t: int| 0 <= t < after.len() ==> (#[trigger] after[t]).key@ != k);
    lemma_entry_for_missing(after, k);
    assert forall|k2: <K as View>::V| k2 != k implies #[trigger] entry_for(after, k2) == entry_for(
        before,
        k2,
    ) by {
        lemma_entry_remove_other(before, after, i, k2);
    }
}

proof fn lemma_entry_remove_other<K: CacheKey, V>(
    before: Seq<CacheEntry<K, V>>,
    after: Seq<CacheEntry<K, V>>,
    i: int,
    k2: <K as View>::V,
)
    requires
        0 <= i < before.len(),
        before[i].key@ != k2,
        after == before.remove(i),
    ensures
        entry_for(after, k2) == entry_for(before, k2),
    decreases before.len(),
{
    if i == 0 {
        assert(after =~= before.skip(1));
    } else {
        assert(after[0] == before[0]);
        if before[0].key@ != k2 {
            assert(after.skip(1) =~= before.skip(1).remove(i - 1));
            lemma_entry_remove_other(before.skip(1), after.skip(1), i - 1, k2);
        } else {
            assert(entry_for(before, k2) == Some(before[0]));
            assert(entry_for(after, k2) == Some(after[0]));
        }
    }
}

/// The entries that are still fresh at `now`, in order.
pub open spec fn keep_fresh<K: CacheKey, V>(
    es: Seq<CacheEntry<K, V>>,
    now: u64,
    ttl_ms: u64,
) -> Seq<CacheEntry<K, V>>
    decreases es.len(),
{
    if es.len() == 0 {
        Seq::empty()
    } else {
        let head: Seq<CacheEntry<K, V>> = if fresh_at(es[0].inserted_at_ms, now, ttl_ms) {
            seq![es[0]]
        } else {
            Seq::empty()
        };
        head + keep_fresh(es.skip(1), now, ttl_ms)
    }
}

/// Every kept entry is one of the originals.
proof fn lemma_keep_fresh_elems<K: CacheKey, V>(es: Seq<CacheEntry<K, V>>, now: u64, ttl_ms: u64)
    ensures
        forall|j: int|
            0 <= j < keep_fresh(es, now, ttl_ms).len() ==> es.contains(
                #[trigger] keep_fresh(es, now, ttl_ms)[j],
            ),
        keep_fresh(es, now, ttl_ms).len() <= es.len(),
    decreases es.len(),
{
    if es.len() > 0 {
        lemma_keep_fresh_elems(es.skip(1), now, ttl_ms);
        let kept = keep_fresh(es, now, ttl_ms);
        let rest = keep_fresh(es.skip(1), now, ttl_ms);
        assert forall|j: int| 0 <= j < kept.len() implies es.contains(#[trigger] kept[j]) by {
            if fresh_at(es[0].inserted_at_ms, now, ttl_ms) && j == 0 {
                assert(kept[0] == es[0]);
            } else {
                let off: int = if fresh_at(es[0].inserted_at_ms, now, ttl_ms) {
                    1
                } else {
                    0
                };
                assert(kept[j] == rest[j - off]);
                assert(es.skip(1).contains(rest[j - off]));
                let t = choose|t: int| 0 <= t < es.skip(1).len() && es.skip(1)[t] == rest[j - off];
                assert(es[t + 1] == rest[j - off]);
            }
        }
    }
}

/// Cleanup keeps keys unique.
proof fn lemma_keep_fresh_wf<K: CacheKey, V>(es: Seq<CacheEntry<K, V>>, now: u64, ttl_ms: u64)
    requires
        forall|t: int, u: int|
            0 <= t < u < es.len() ==> (#[trigger] es[t]).key@ != (#[trigger] es[u]).key@,
    ensures
        forall|t: int, u: int|
            0 <= t < u < keep_fresh(es, now, ttl_ms).len() ==> (#[trigger] keep_fresh(
                es,
                now,
                ttl_ms,
            )[t]).key@ != (#[trigger] keep_fresh(es, now, ttl_ms)[u]).key@,
    decreases es.len(),
{
    if es.len() > 0 {
        assert(forall|t: int| 0 <= t < es.skip(1).len() ==> es.skip(1)[t] == es[t + 1]);
        lemma_keep_fresh_wf(es.skip(1), now, ttl_ms);
        lemma_keep_fresh_elems(es.skip(1), now, ttl_ms);
        let kept = keep_fresh(es, now, ttl_ms);
        let rest = keep_fresh(es.skip(1), now, ttl_ms);
        assert forall|t: int, u: int| 0 <= t < u < kept.len() implies (#[trigger] kept[t]).key@
            != (#[trigger] kept[u]).key@ by {
            if fresh_at(es[0].inserted_at_ms, now, ttl_ms) {
                if t == 0 {
                    assert(kept[u] == rest[u - 1]);
                    assert(es.skip(1).contains(rest[u - 1]));
                    let w = choose|w: int|
                        0 <= w < es.skip(1).len() && es.skip(1)[w] == rest[u - 1];
                    assert(es[w + 1] == kept[u]);
                    assert(es[0].key@ != es[w + 1].key@);
                } else {
                    assert(kept[t] == rest[t - 1] && kept[u] == rest[u - 1]);
                }
            } else {
                assert(kept[t] == rest[t] && kept[u] == rest[u]);
            }
        }
    }
}

/// What cleanup leaves for each key: the fresh entry, or nothing.
pub proof fn lemma_keep_fresh_entry<K: CacheKey, V>(
    es: Seq<CacheEntry<K, V>>,
    now: u64,
    ttl_ms: u64,
    k: <K as View>::V,
)
    requires
        forall|t: int, u: int|
            0 <= t < u < es.len() ==> (#[trigger] es[t]).key@ != (#[trigger] es[u]).key@,
    ensures
        entry_for(keep_fresh(es, now, ttl_ms), k) == (match entry_for(es, k) {
            Some(e) => if fresh_at(e.inserted_at_ms, now, ttl_ms) {
                Some(e)
            } else {
                None::<CacheEntry<K, V>>
            },
            None => None::<CacheEntry<K, V>>,
        }),
    decreases es.len(),
{
    if es.len() == 0 {
    } else {
        assert(forall|t: int| 0 <= t < es.skip(1).len() ==> es.skip(1)[t] == es[t + 1]);
        lemma_keep_fresh_entry(es.skip(1), now, ttl_ms, k);
        let kept = keep_fresh(es, now, ttl_ms);
        let rest = keep_fresh(es.skip(1), now, ttl_ms);
        if es[0].key@ == k {
            if fresh_at(es[0].inserted_at_ms, now, ttl_ms) {
                assert(kept[0] == es[0]);
                assert(entry_for(kept, k) == Some(es[0])) by {
                    assert(kept.skip(0) =~= kept);
                }
            } else {
                assert(kept =~= rest);
                assert(forall|t: int|
                    0 <= t < es.skip(1).len() ==> (#[trigger] es.skip(1)[t]).key@ != k);
                lemma_entry_for_missing(es.skip(1), k);
                lemma_keep_fresh_elems(es.skip(1), now, ttl_ms);
                assert forall|t: int| 0 <= t < rest.len() implies (#[trigger] rest[t]).key@
                    != k by {
                    assert(es.skip(1).contains(rest[t]));
                    let w = choose|w: int| 0 <= w < es.skip(1).len() && es.skip(1)[w] == rest[t];
                }
                lemma_entry_for_missing(rest, k);
            }
        } else {
            if fresh_at(es[0].inserted_at_ms, now, ttl_ms) {
                assert(kept[0] == es[0]);
                assert(kept.skip(1) =~= rest);
            } else {
                assert(kept =~= rest);
            }
        }
    }
}

/// Cache time-to-live law: an entry inserted at time `t` is invisible to a
/// read at or past `t` plus the time to live, and a cleanup then drops it
/// from the map, shrinking the entry count.
pub proof fn lemma_cache_ttl<K: CacheKey, V>(s: CacheState<K, V>, k: <K as View>::V, now: u64)
    requires
        s.wf(),
        entry_for(s.entries@, k) is Some,
        now >= entry_for(s.entries@, k)->0.inserted_at_ms + s.ttl_ms,
    ensures
        s.lookup_fresh(k, now) is None,
        entry_for(keep_fresh(s.entries@, now, s.ttl_ms), k) is None,
        keep_fresh(s.entries@, now, s.ttl_ms).len() < s.entries@.len(),
{
    let e = entry_for(s.entries@, k)->0;
    assert(!fresh_at(e.inserted_at_ms, now, s.ttl_ms));
    lemma_keep_fresh_entry(s.entries@, now, s.ttl_ms, k);
    lemma_keep_len_drop(s.entries@, now, s.ttl_ms, k);
}

// ---------------------------------------------------------------------------
// The shared, clocked cache
// ---------------------------------------------------------------------------
/// The lock invariant of a shared cache: the state is well formed and its
/// time to live never changes.
pub struct TtlInv {
    pub ttl_ms: u64,
}

impl<K: CacheKey, V> RwLockPredicate<CacheState<K, V>> for TtlInv {
    open spec fn inv(self, v: CacheState<K, V>) -> bool {
        v.wf() && v.ttl_ms == self.ttl_ms
    }
}

/// A thread-safe cache with time-based expiration: a `CacheState` behind a
/// reader-writer lock, timed by a monotonic clock. Clones share the same
/// underlying map. Reads past the time to live find nothing; expired entries
/// keep their slot until `cleanup_expired` or an overwrite; no eviction
/// beyond the time to live.
#[derive(Clone)]
pub struct TimedCache<K: CacheKey, V> {
    inner: Arc<RwLock<CacheState<K, V>, TtlInv>>,
    clock: MonotonicClock,
    ttl_ms: u64,
}

impl<K: CacheKey, V: Clone> TimedCache<K, V> {
    /// The fixed time to live, in milliseconds.
    pub closed spec fn spec_ttl_ms(&self) -> u64 {
        self.ttl_ms
    }

    /// Create a new cache with the given time to live in seconds.
    pub fn new(ttl_seconds: u64) -> (r: Self)
        ensures
            r.spec_ttl_ms() == (if ttl_seconds <= 0xffffffffffffffffu64 / 1000 {
                (ttl_seconds * 1000) as u64
            } else {
                0xffffffffffffffffu64
            }),
    {
        let ttl_ms: u64 = if ttl_seconds <= 0xffffffffffffffffu64 / 1000 {
            ttl_seconds * 1000
        } else {
            0xffffffffffffffffu64
        };
        let state = CacheState::<K, V>::new(ttl_ms);
        let inner = Arc::new(RwLock::new(state, Ghost(TtlInv { ttl_ms })));
        TimedCache { inner, clock: MonotonicClock::start(), ttl_ms }
    }

    /// Insert a value, replacing any previous entry under the same key and
    /// resetting its timestamp.
    pub fn insert(&self, key: K, value: V) {
        let now = self.clock.now_millis();
        let (mut state, handle) = self.inner.acquire_write();
        state.insert_at(key, value, now);
        handle.release_write(state);
    }

    /// Read a key: its value if present and not yet expired.
    pub fn get(&self, key: &K) -> Option<V> {
        let now = self.clock.now_millis();
        let handle = self.inner.acquire_read();
        let r = match handle.borrow().get_at(key, now) {
            Some(v) => Some(v.clone()),
            None => None,
        };
        handle.release_read();
        r
    }

    /// Whether a key is present and not yet expired.
    pub fn contains_key(&self, key: &K) -> bool {
        self.get(key).is_some()
    }

    /// Remove a key, expired or not.
    pub fn remove(&self, key: &K) {
        let (mut state, handle) = self.inner.acquire_write();
        state.remove_key(key);
        handle.release_write(state);
    }

    /// Remove every entry.
    pub fn clear(&self) {
        let (mut state, handle) = self.inner.acquire_write();
        state.clear_all();
        handle.release_write(state);
    }

    /// Drop every entry that has expired; fresh entries stay with their
    /// timestamps.
    pub fn cleanup_expired(&self) {
        let now = self.clock.now_millis();
        let (mut state, handle) = self.inner.acquire_write();
        state.cleanup_expired_at(now);
        handle.release_write(state);
    }

    /// How many entries the cache holds, expired ones included.
    pub fn len(&self) -> usize {
        let handle = self.inner.acquire_read();
        let n = handle.borrow().len();
        handle.release_read();
        n
    }

    /// Whether the cache holds no entries at all.
    pub fn is_empty(&self) -> bool {
        self.len() == 0
    }

    /// The time to live, in milliseconds.
    pub fn ttl(&self) -> (r: u64)
        ensures
            r == self.spec_ttl_ms(),
    {
        self.ttl_ms
    }

    /// A short description of the cache, for diagnostics.
    pub fn describe(&self) -> String {
        let mut s = text::str_to_string("TimedCache { ttl_ms: ");
        s.append(text::u64_to_string(self.ttl_ms).as_str());
        s.append(", entries: ");
        s.append(text::u64_to_string(self.len() as u64).as_str());
        s.append(" }");
        s
    }
}

proof fn lemma_keep_len_drop<K: CacheKey, V>(
    es: Seq<CacheEntry<K, V>>,
    now: u64,
    ttl_ms: u64,
    k: <K as View>::V,
)
    requires
        entry_for(es, k) is Some,
        !fresh_at(entry_for(es, k)->0.inserted_at_ms, now, ttl_ms),
    ensures
        keep_fresh(es, now, ttl_ms).len() < es.len(),
    decreases es.len(),
{
    lemma_keep_fresh_elems(es, now, ttl_ms);
    if es[0].key@ == k {
        lemma_keep_fresh_elems(es.skip(1), now, ttl_ms);
    } else {
        lemma_keep_len_drop(es.skip(1), now, ttl_ms, k);
    }
}

} // verus!
