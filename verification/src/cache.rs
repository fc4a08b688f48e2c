//! The metadata cache: per-(cluster, kind) snapshots with staleness
//! tracking. The cache is the single source of truth the presentation
//! layer reads from; only the refresh scheduler and the watcher write
//! into it. An entry never holds a fetch error as its value: on failure
//! the previous value is retained and only the failure counter changes.

use vstd::prelude::*;
use crate::assoc::{assoc_lookup, keys_unique, lemma_lookup_absent, lemma_lookup_at, lemma_lookup_update};
use crate::metadata::{ClusterId, FetchResult, Key, ResourceKind, Snapshot};

verus! {

/// Refresh policy: one refresh interval per resource kind, and the number
/// of consecutive fetch failures beyond which an entry is reported stale.
#[derive(Clone, Copy)]
pub struct RefreshConfig {
    pub brokers_interval: u64,
    pub topics_interval: u64,
    pub groups_interval: u64,
    pub reassignment_interval: u64,
    pub failure_threshold: u32,
}

impl RefreshConfig {
    /// The refresh interval configured for `kind`.
    pub open spec fn spec_interval_for(&self, kind: ResourceKind) -> u64 {
        match kind {
            ResourceKind::Brokers => self.brokers_interval,
            ResourceKind::Topics => self.topics_interval,
            ResourceKind::Groups => self.groups_interval,
            ResourceKind::Reassignment => self.reassignment_interval,
        }
    }

    #[verifier::when_used_as_spec(spec_interval_for)]
    pub fn interval_for(&self, kind: ResourceKind) -> (r: u64)
        ensures
            r == self.spec_interval_for(kind),
    {
        match kind {
            ResourceKind::Brokers => self.brokers_interval,
            ResourceKind::Topics => self.topics_interval,
            ResourceKind::Groups => self.groups_interval,
            ResourceKind::Reassignment => self.reassignment_interval,
        }
    }
}

/// One cached snapshot with its staleness bookkeeping. `value` is the last
/// successfully fetched snapshot, `last_success` the fetch time of that
/// success, and `failures` the count of consecutive failed refreshes since.
pub struct CacheEntry {
    pub value: Option<Snapshot>,
    pub last_success: u64,
    pub failures: u32,
}

/// An entry is reported stale when it has no value yet, when its value is
/// older than one refresh interval, or when the consecutive-failure count
/// has reached the configured threshold.
pub open spec fn entry_is_stale(e: CacheEntry, now: u64, interval: u64, threshold: u32) -> bool {
    ||| e.value is None
    ||| e.failures >= threshold
    ||| now - e.last_success > interval
}

/// A successful refresh replaces the value, resets the timestamp and the
/// failure counter. A success whose fetch time is older than the recorded
/// one lost a completion race and is discarded: whichever refresh fetched
/// last is authoritative, by fetch time, not issue order.
pub open spec fn entry_after_success(e: CacheEntry, snap: Snapshot, fetch_time: u64) -> CacheEntry {
    if fetch_time >= e.last_success {
        CacheEntry { value: Some(snap), last_success: fetch_time, failures: 0 }
    } else {
        e
    }
}

/// A failed refresh leaves value and timestamp untouched and counts one
/// more consecutive failure (saturating at the counter's width).
pub open spec fn entry_after_failure(e: CacheEntry) -> CacheEntry {
    CacheEntry {
        value: e.value,
        last_success: e.last_success,
        failures: if e.failures < u32::MAX { (e.failures + 1) as u32 } else { e.failures },
    }
}

/// The state of an entry that has never seen a fetch result.
pub open spec fn fresh_entry() -> CacheEntry {
    CacheEntry { value: None, last_success: 0, failures: 0 }
}

/// The entry that results from applying one fetch outcome to the previous
/// entry state (or to no entry at all).
pub open spec fn entry_apply(prev: Option<CacheEntry>, r: FetchResult, fetch_time: u64) -> CacheEntry {
    let cur = match prev {
        Some(e) => e,
        None => fresh_entry(),
    };
    match r {
        FetchResult::Success(snap) => entry_after_success(cur, snap, fetch_time),
        FetchResult::Failure => entry_after_failure(cur),
    }
}

/// The entry after `k` consecutive failed refreshes.
pub open spec fn entry_after_failures(e: CacheEntry, k: nat) -> CacheEntry
    decreases k,
{
    if k == 0 {
        e
    } else {
        entry_after_failure(entry_after_failures(e, (k - 1) as nat))
    }
}

/// Consecutive failures leave value and timestamp untouched and only add
/// up in the counter.
proof fn lemma_failures_accumulate(e: CacheEntry, k: nat)
    requires
        e.failures + k <= u32::MAX,
    ensures
        entry_after_failures(e, k).value == e.value,
        entry_after_failures(e, k).last_success == e.last_success,
        entry_after_failures(e, k).failures == e.failures + k,
    decreases k,
{
    if k > 0 {
        lemma_failures_accumulate(e, (k - 1) as nat);
    }
}

/// Staleness through the failure threshold, and recovery from it: after
/// `k >= threshold` consecutive fetch failures an entry still holds its
/// last good value and timestamp, its counter reads `k`, and it is
/// reported stale at any time; the next successful fetch resets the
/// counter to zero, replaces the value, and — while the new snapshot is
/// within one refresh interval — the entry is not stale.
pub proof fn lemma_staleness_threshold(
    e: CacheEntry,
    k: nat,
    now: u64,
    interval: u64,
    threshold: u32,
    snap: Snapshot,
    fetch_time: u64,
    now2: u64,
)
    requires
        e.failures == 0,
        threshold >= 1,
        k >= threshold,
        k <= u32::MAX,
        fetch_time >= e.last_success,
        now2 >= fetch_time,
        now2 - fetch_time <= interval,
    ensures
        ({
            let failed = entry_after_failures(e, k);
            let recovered = entry_after_success(failed, snap, fetch_time);
            &&& failed.value == e.value
            &&& failed.last_success == e.last_success
            &&& failed.failures == k
            &&& entry_is_stale(failed, now, interval, threshold)
            &&& recovered.value == Some(snap)
            &&& recovered.failures == 0
            &&& !entry_is_stale(recovered, now2, interval, threshold)
        }),
{
    lemma_failures_accumulate(e, k);
}

/// The metadata cache. Entries for different keys are fully independent;
/// `get` never blocks and always returns a consistent, fully written entry.
pub struct Cache {
    config: RefreshConfig,
    entries: Vec<(Key, CacheEntry)>,
}

impl Cache {
    /// The entries as an association sequence (one binding per key).
    pub closed spec fn entries_seq(self) -> Seq<(Key, CacheEntry)> {
        self.entries@
    }

    /// The refresh policy this cache was built with.
    pub closed spec fn spec_config(&self) -> RefreshConfig {
        self.config
    }

    #[verifier::when_used_as_spec(spec_config)]
    pub fn config(&self) -> (r: RefreshConfig)
        ensures
            r == self.spec_config(),
    {
        self.config
    }

    /// The entry currently cached under `k`, if any.
    pub open spec fn lookup(self, k: Key) -> Option<CacheEntry> {
        assoc_lookup(self.entries_seq(), k)
    }

    /// Well-formedness: at most one entry per key.
    pub closed spec fn wf(self) -> bool {
        keys_unique(self.entries@)
    }

    /// An empty cache with the given refresh policy.
    pub fn new(config: RefreshConfig) -> (r: Cache)
        ensures
            r.wf(),
            r.spec_config() == config,
            forall|k: Key| r.lookup(k) is None,
    {
        let r = Cache { config, entries: Vec::new() };
        proof {
            assert forall|k: Key| r.lookup(k) is None by {
                assert(r.entries_seq().len() == 0);
            }
        }
        r
    }

    /// Index of the entry bound to `key`, if one exists.
    fn find(&self, key: Key) -> (r: Option<usize>)
        ensures
            match r {
                Some(i) => i < self.entries@.len() && self.entries@[i as int].0 == key,
                None => forall|j: int| 0 <= j < self.entries@.len() ==> self.entries@[j].0 != key,
            },
    {
        let n = self.entries.len();
        let mut i: usize = 0;
        while i < n
            invariant
                n == self.entries@.len(),
                i <= n,
                forall|j: int| 0 <= j < i ==> self.entries@[j].0 != key,
            decreases n - i,
        {
            if self.entries[i].0 == key {
                return Some(i);
            }
            i += 1;
        }
        None
    }

    /// Read the entry for `(cluster, kind)`: the cached value, if any, and
    /// whether it is stale under the cache's refresh policy at time `now`.
    /// Reading never blocks and never changes the cache.
    pub fn get(&self, cluster: ClusterId, kind: ResourceKind, now: u64) -> (r: (Option<&Snapshot>, bool))
        requires
            self.wf(),
        ensures
            ({
                let key = Key { cluster, kind };
                match self.lookup(key) {
                    None => r.0 is None && r.1 == true,
                    Some(e) => {
                        &&& match r.0 {
                            None => e.value is None,
                            Some(p) => e.value matches Some(v) && *p == v,
                        }
                        &&& r.1 == entry_is_stale(
                            e,
                            now,
                            self.spec_config().spec_interval_for(kind),
                            self.spec_config().failure_threshold,
                        )
                    },
                }
            }),
    {
        let key = Key { cluster, kind };
        match self.find(key) {
            Some(i) => {
                proof {
                    lemma_lookup_at(self.entries@, i as int);
                }
                let e = &self.entries[i].1;
                match &e.value {
                    Some(v) => {
                        let stale = e.failures >= self.config.failure_threshold
                            || (now > e.last_success
                                && now - e.last_success > self.config.interval_for(kind));
                        (Some(v), stale)
                    },
                    None => (None, true),
                }
            },
            None => {
                proof {
                    lemma_lookup_absent(self.entries@, key);
                }
                (None, true)
            },
        }
    }

    /// Apply one fetch outcome to the entry for `(cluster, kind)`, creating
    /// the entry if the key is new. Used only by the refresh scheduler and
    /// the watcher. No other entry changes.
    pub fn put(&mut self, cluster: ClusterId, kind: ResourceKind, result: FetchResult, fetch_time: u64)
        requires
            old(self).wf(),
        ensures
            final(self).wf(),
            final(self).spec_config() == old(self).spec_config(),
            ({
                let key = Key { cluster, kind };
                &&& final(self).lookup(key)
                    == Some(entry_apply(old(self).lookup(key), result, fetch_time))
                &&& forall|k2: Key|
                    k2 != key ==> final(self).lookup(k2) == old(self).lookup(k2)
            }),
    {
        let key = Key { cluster, kind };
        match self.find(key) {
            Some(i) => {
                proof {
                    lemma_lookup_at(self.entries@, i as int);
                }
                match result {
                    FetchResult::Success(snap) => {
                        if fetch_time >= self.entries[i].1.last_success {
                            let e = &mut self.entries[i];
                            e.1 = CacheEntry { value: Some(snap), last_success: fetch_time, failures: 0 };
                        }
                    },
                    FetchResult::Failure => {
                        let e = &mut self.entries[i];
                        let f = e.1.failures;
                        if f < u32::MAX {
                            e.1.failures = f + 1;
                        }
                    },
                }
                proof {
                    self.lemma_after_update(*old(self), key, i as int);
                }
            },
            None => {
                proof {
                    lemma_lookup_absent(self.entries@, key);
                }
                let entry = match result {
                    FetchResult::Success(snap) => CacheEntry {
                        value: Some(snap),
                        last_success: fetch_time,
                        failures: 0,
                    },
                    FetchResult::Failure => CacheEntry { value: None, last_success: 0, failures: 1 },
                };
                self.entries.push((key, entry));
                proof {
                    let s0 = old(self).entries_seq();
                    let s1 = self.entries_seq();
                    assert(s1.last() == (key, entry));
                    assert(s1.drop_last() =~= s0);
                    assert forall|i2: int, j2: int| 0 <= i2 < j2 < s1.len() implies s1[i2].0 != s1[j2].0 by {
                        if j2 < s1.len() - 1 {
                            assert(s1[i2] == s0[i2]);
                            assert(s1[j2] == s0[j2]);
                        } else {
                            assert(s1[i2] == s0[i2]);
                            assert(s0[i2].0 != key);
                        }
                    }
                    assert forall|k2: Key| k2 != key implies self.lookup(k2) == old(self).lookup(k2) by {
                        assert(assoc_lookup(s1, k2) == assoc_lookup(s0, k2));
                    }
                }
            },
        }
    }

    /// After an in-place update of the entry at index `i` (same key), the
    /// looked-up bindings of all other keys are unchanged.
    proof fn lemma_after_update(self, pre: Cache, key: Key, i: int)
        requires
            pre.wf(),
            0 <= i < pre.entries_seq().len(),
            pre.entries_seq()[i].0 == key,
            self.entries_seq().len() == pre.entries_seq().len(),
            self.entries_seq()[i].0 == key,
            forall|j: int|
                0 <= j < pre.entries_seq().len() && j != i
                    ==> self.entries_seq()[j] == pre.entries_seq()[j],
        ensures
            self.wf(),
            self.lookup(key) == Some(self.entries_seq()[i].1),
            forall|k2: Key| k2 != key ==> self.lookup(k2) == pre.lookup(k2),
    {
        lemma_lookup_update(pre.entries_seq(), self.entries_seq(), key, i);
    }

    /// Drop every entry of `cluster`, leaving all other clusters' entries
    /// untouched. Used during reconciliation when a cluster leaves the
    /// configuration.
    pub fn evict(&mut self, cluster: ClusterId)
        requires
            old(self).wf(),
        ensures
            final(self).wf(),
            final(self).spec_config() == old(self).spec_config(),
            forall|k: Key| k.cluster == cluster ==> final(self).lookup(k) is None,
            forall|k: Key| k.cluster != cluster ==> final(self).lookup(k) == old(self).lookup(k),
    {
        let mut tmp: Vec<(Key, CacheEntry)> = Vec::new();
        core::mem::swap(&mut self.entries, &mut tmp);
        let mut kept: Vec<(Key, CacheEntry)> = Vec::new();
        proof {
            assert(tmp@ =~= old(self).entries_seq());
        }
        while tmp.len() > 0
            invariant
                keys_unique(tmp@),
                keys_unique(kept@),
                forall|j: int| 0 <= j < kept@.len() ==> kept@[j].0.cluster != cluster,
                forall|i: int, j: int|
                    0 <= i < tmp@.len() && 0 <= j < kept@.len() ==> tmp@[i].0 != kept@[j].0,
                forall|k: Key|
                    k.cluster != cluster ==> assoc_lookup(old(self).entries_seq(), k) == (
                        match assoc_lookup(kept@, k) {
                            Some(v) => Some(v),
                            None => assoc_lookup(tmp@, k),
                        }),
            decreases tmp@.len(),
        {
            let ghost pre_tmp = tmp@;
            let ghost pre_kept = kept@;
            let x = tmp.pop().unwrap();
            proof {
                assert(pre_tmp.last() == x);
                assert(tmp@ =~= pre_tmp.drop_last());
            }
            if x.0.cluster == cluster {
                proof {
                    assert forall|k: Key|
                        k.cluster != cluster implies assoc_lookup(old(self).entries_seq(), k) == (
                            match assoc_lookup(kept@, k) {
                                Some(v) => Some(v),
                                None => assoc_lookup(tmp@, k),
                            }) by {
                        assert(k != x.0);
                        assert(assoc_lookup(pre_tmp, k) == assoc_lookup(tmp@, k));
                    }
                }
            } else {
                kept.push(x);
                proof {
                    assert(kept@.last() == x);
                    assert(kept@.drop_last() =~= pre_kept);
                    assert forall|i2: int, j2: int|
                        0 <= i2 < j2 < kept@.len() implies kept@[i2].0 != kept@[j2].0 by {
                        if j2 < kept@.len() - 1 {
                            assert(kept@[i2] == pre_kept[i2]);
                            assert(kept@[j2] == pre_kept[j2]);
                        } else {
                            assert(kept@[i2] == pre_kept[i2]);
                        }
                    }
                    assert forall|i2: int, j2: int|
                        0 <= i2 < tmp@.len() && 0 <= j2 < kept@.len() implies tmp@[i2].0 != kept@[j2].0 by {
                        assert(tmp@[i2] == pre_tmp[i2]);
                        if j2 < kept@.len() - 1 {
                            assert(kept@[j2] == pre_kept[j2]);
                        } else {
                            assert(kept@[j2] == x);
                        }
                    }
                    assert forall|k: Key|
                        k.cluster != cluster implies assoc_lookup(old(self).entries_seq(), k) == (
                            match assoc_lookup(kept@, k) {
                                Some(v) => Some(v),
                                None => assoc_lookup(tmp@, k),
                            }) by {
                        if k == x.0 {
                            assert(assoc_lookup(kept@, k) == Some(x.1));
                            assert(assoc_lookup(pre_kept, k) is None) by {
                                assert(forall|j: int|
                                    0 <= j < pre_kept.len() ==> #[trigger] pre_kept[j].0 != k);
                                lemma_lookup_absent(pre_kept, k);
                            }
                            assert(assoc_lookup(pre_tmp, k) == Some(x.1));
                        } else {
                            assert(assoc_lookup(kept@, k) == assoc_lookup(pre_kept, k));
                            assert(assoc_lookup(pre_tmp, k) == assoc_lookup(tmp@, k));
                        }
                    }
                }
            }
        }
        self.entries = kept;
        proof {
            assert forall|k: Key| k.cluster == cluster implies self.lookup(k) is None by {
                assert(forall|j: int|
                    0 <= j < self.entries_seq().len() ==> #[trigger] self.entries_seq()[j].0 != k);
                lemma_lookup_absent(self.entries_seq(), k);
            }
            assert forall|k: Key|
                k.cluster != cluster implies self.lookup(k) == old(self).lookup(k) by {
                assert(tmp@.len() == 0);
                match assoc_lookup(self.entries_seq(), k) {
                    Some(v) => {},
                    None => {
                        assert(assoc_lookup(tmp@, k) is None);
                    },
                }
            }
        }
    }
}

} // verus!
