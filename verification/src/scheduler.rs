//! The refresh scheduler's in-flight bookkeeping. Every `(cluster, kind)`
//! key is refreshed by an independent periodic timer; on each tick the
//! scheduler starts a fetch only if none is already in flight for that
//! exact key, so refresh ticks coalesce and never queue or stack. A fetch
//! failure is converted into the cache's failure counter at this boundary;
//! backoff is implicit in the tick interval, never a separate retry loop.

use vstd::prelude::*;
use crate::cache::{entry_apply, Cache};
use crate::metadata::{ClusterId, FetchResult, Key, ResourceKind};

verus! {

/// What one scheduler tick decided for its key.
#[derive(Clone, Copy, PartialEq, Eq, Structural, Debug)]
pub enum TickDecision {
    /// No fetch was in flight: one was started and the key is now marked.
    StartFetch,
    /// A fetch for this key is still in flight: the tick is a no-op.
    AlreadyInFlight,
}

/// Tracks which keys have a fetch in flight.
pub struct RefreshScheduler {
    inflight: Vec<Key>,
}

/// How one tick on `key` relates the scheduler state before it to the
/// state after it: a key already in flight leaves everything unchanged,
/// otherwise the key is marked and a fetch starts. This is the exact
/// contract of [`RefreshScheduler::begin_tick`].
pub open spec fn tick_step(
    pre: RefreshScheduler,
    post: RefreshScheduler,
    key: Key,
    d: TickDecision,
) -> bool {
    if pre.in_flight(key) {
        &&& d == TickDecision::AlreadyInFlight
        &&& post == pre
    } else {
        &&& d == TickDecision::StartFetch
        &&& post.in_flight(key)
        &&& forall|k2: Key| k2 != key ==> post.in_flight(k2) == pre.in_flight(k2)
    }
}

impl RefreshScheduler {
    /// Whether a fetch for `k` is currently in flight.
    pub closed spec fn in_flight(self, k: Key) -> bool {
        self.inflight@.contains(k)
    }

    /// Well-formedness: each key is marked at most once.
    pub closed spec fn wf(self) -> bool {
        forall|i: int, j: int|
            0 <= i < j < self.inflight@.len() ==> self.inflight@[i] != self.inflight@[j]
    }

    /// A scheduler with no fetch in flight.
    pub fn new() -> (r: RefreshScheduler)
        ensures
            r.wf(),
            forall|k: Key| !r.in_flight(k),
    {
        let r = RefreshScheduler { inflight: Vec::new() };
        proof {
            assert forall|k: Key| !r.in_flight(k) by {
                assert(r.inflight@.len() == 0);
            }
        }
        r
    }

    /// Index of `key` in the in-flight list, if it is marked.
    fn find(&self, key: Key) -> (r: Option<usize>)
        ensures
            match r {
                Some(i) => i < self.inflight@.len() && self.inflight@[i as int] == key,
                None => forall|j: int| 0 <= j < self.inflight@.len() ==> self.inflight@[j] != key,
            },
    {
        let n = self.inflight.len();
        let mut i: usize = 0;
        while i < n
            invariant
                n == self.inflight@.len(),
                i <= n,
                forall|j: int| 0 <= j < i ==> self.inflight@[j] != key,
            decreases n - i,
        {
            if self.inflight[i] == key {
                return Some(i);
            }
            i += 1;
        }
        None
    }

    /// One periodic tick for `(cluster, kind)`. If a refresh for this exact
    /// key is already in flight the tick is a no-op; otherwise the key is
    /// marked in flight and the caller must invoke the matching fetch
    /// collaborator, reporting its outcome through [`Self::on_fetch_complete`].
    pub fn begin_tick(&mut self, cluster: ClusterId, kind: ResourceKind) -> (d: TickDecision)
        requires
            old(self).wf(),
        ensures
            final(self).wf(),
            tick_step(*old(self), *final(self), Key { cluster, kind }, d),
    {
        let key = Key { cluster, kind };
        match self.find(key) {
            Some(_) => TickDecision::AlreadyInFlight,
            None => {
                let ghost pre = self.inflight@;
                self.inflight.push(key);
                proof {
                    assert(self.inflight@.last() == key);
                    assert(self.inflight@.drop_last() =~= pre);
                    assert forall|i2: int, j2: int|
                        0 <= i2 < j2 < self.inflight@.len()
                            implies self.inflight@[i2] != self.inflight@[j2] by {
                        assert(self.inflight@[i2] == pre[i2]);
                        if j2 < self.inflight@.len() - 1 {
                            assert(self.inflight@[j2] == pre[j2]);
                        }
                    }
                    assert forall|k2: Key|
                        k2 != key implies self.in_flight(k2) == old(self).in_flight(k2) by {
                        if pre.contains(k2) {
                            let w = choose|w: int| 0 <= w < pre.len() && pre[w] == k2;
                            assert(self.inflight@[w] == k2);
                        } else if self.inflight@.contains(k2) {
                            let w = choose|w: int|
                                0 <= w < self.inflight@.len() && self.inflight@[w] == k2;
                            assert(w < self.inflight@.len() - 1);
                            assert(pre[w] == k2);
                        }
                    }
                }
                TickDecision::StartFetch
            },
        }
    }

    /// Clear the in-flight marker for `(cluster, kind)`. All other keys'
    /// markers are untouched.
    pub fn complete(&mut self, cluster: ClusterId, kind: ResourceKind)
        requires
            old(self).wf(),
        ensures
            final(self).wf(),
            ({
                let key = Key { cluster, kind };
                &&& !final(self).in_flight(key)
                &&& forall|k2: Key|
                    k2 != key ==> final(self).in_flight(k2) == old(self).in_flight(k2)
            }),
    {
        let key = Key { cluster, kind };
        match self.find(key) {
            Some(i) => {
                let ghost pre = self.inflight@;
                self.inflight.remove(i);
                proof {
                    assert(self.inflight@ =~= pre.remove(i as int));
                    assert forall|i2: int, j2: int|
                        0 <= i2 < j2 < self.inflight@.len()
                            implies self.inflight@[i2] != self.inflight@[j2] by {
                        let a: int = if i2 < i { i2 } else { i2 + 1 };
                        let b: int = if j2 < i { j2 } else { j2 + 1 };
                        assert(self.inflight@[i2] == pre[a]);
                        assert(self.inflight@[j2] == pre[b]);
                    }
                    assert forall|j: int|
                        0 <= j < self.inflight@.len() implies self.inflight@[j] != key by {
                        let a: int = if j < i { j } else { j + 1 };
                        assert(self.inflight@[j] == pre[a]);
                    }
                    assert(!self.in_flight(key));
                    assert forall|k2: Key|
                        k2 != key implies self.in_flight(k2) == old(self).in_flight(k2) by {
                        if pre.contains(k2) {
                            let w = choose|w: int| 0 <= w < pre.len() && pre[w] == k2;
                            let b: int = if w < i { w } else { w - 1 };
                            assert(pre[w] != key);
                            assert(w != i);
                            assert(self.inflight@[b] == pre[w]);
                        } else if self.inflight@.contains(k2) {
                            let w = choose|w: int|
                                0 <= w < self.inflight@.len() && self.inflight@[w] == k2;
                            let a: int = if w < i { w } else { w + 1 };
                            assert(pre[a] == k2);
                        }
                    }
                }
            },
            None => {
                proof {
                    assert(!self.in_flight(key));
                }
            },
        }
    }

    /// Completion of the fetch started by a tick: write the outcome into
    /// the cache (success replaces the snapshot, failure only advances the
    /// failure counter) and clear the in-flight marker, so the next tick
    /// may start a fresh fetch.
    pub fn on_fetch_complete(
        &mut self,
        cache: &mut Cache,
        cluster: ClusterId,
        kind: ResourceKind,
        result: FetchResult,
        fetch_time: u64,
    )
        requires
            old(self).wf(),
            old(cache).wf(),
        ensures
            final(self).wf(),
            final(cache).wf(),
            final(cache).spec_config() == old(cache).spec_config(),
            ({
                let key = Key { cluster, kind };
                &&& !final(self).in_flight(key)
                &&& forall|k2: Key|
                    k2 != key ==> final(self).in_flight(k2) == old(self).in_flight(k2)
                &&& final(cache).lookup(key)
                    == Some(entry_apply(old(cache).lookup(key), result, fetch_time))
                &&& forall|k2: Key|
                    k2 != key ==> final(cache).lookup(k2) == old(cache).lookup(k2)
            }),
    {
        cache.put(cluster, kind, result, fetch_time);
        self.complete(cluster, kind);
    }
}

/// Coalescing: within one run of tick events on the same key, each obeying
/// a tick's contract and with no completion in between, exactly the first
/// tick starts a fetch; every later tick finds the key in flight, starts
/// nothing, and leaves the scheduler unchanged.
pub proof fn lemma_ticks_coalesce(
    states: Seq<RefreshScheduler>,
    decisions: Seq<TickDecision>,
    key: Key,
)
    requires
        decisions.len() >= 1,
        states.len() == decisions.len() + 1,
        !states[0].in_flight(key),
        forall|i: int|
            0 <= i < decisions.len() ==> #[trigger] tick_step(states[i], states[i + 1], key, decisions[i]),
    ensures
        decisions[0] == TickDecision::StartFetch,
        forall|i: int| 1 <= i < decisions.len() ==> decisions[i] == TickDecision::AlreadyInFlight,
        forall|i: int| 1 <= i < states.len() ==> #[trigger] states[i] == states[1],
{
    assert(tick_step(states[0], states[0int + 1], key, decisions[0]));
    lemma_in_flight_persists(states, decisions, key, 1);
}

/// Once `key` is in flight, every further tick on it is a no-op: from
/// position `from` on, all states equal `states[from]` and every decision
/// is `AlreadyInFlight`.
proof fn lemma_in_flight_persists(
    states: Seq<RefreshScheduler>,
    decisions: Seq<TickDecision>,
    key: Key,
    from: int,
)
    requires
        states.len() == decisions.len() + 1,
        1 <= from < states.len(),
        states[from].in_flight(key),
        forall|i: int|
            0 <= i < decisions.len() ==> #[trigger] tick_step(states[i], states[i + 1], key, decisions[i]),
    ensures
        forall|i: int| from <= i < decisions.len() ==> decisions[i] == TickDecision::AlreadyInFlight,
        forall|i: int| from <= i < states.len() ==> #[trigger] states[i] == states[from],
    decreases states.len() - from,
{
    if from < decisions.len() {
        assert(tick_step(states[from], states[from + 1], key, decisions[from]));
        assert(states[from + 1].in_flight(key));
        lemma_in_flight_persists(states, decisions, key, from + 1);
    }
}

} // verus!
