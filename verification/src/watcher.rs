//! The coordination-service watcher: one periodic task per cluster reads
//! the well-known reassignment path and writes the outcome into the
//! metadata cache. The watcher is fail-open by a named rule, not by
//! accident: a missing document is the defined value "no reassignment in
//! progress", while a connection error or a malformed document leaves the
//! previously cached value untouched and only advances the failure
//! counter. A watcher outage is therefore never visible as a pending
//! reassignment, only as staleness.

use vstd::prelude::*;
use crate::cache::{entry_after_failure, fresh_entry, Cache};
use crate::metadata::{ClusterId, FetchResult, Key, ReassignmentModel, ResourceKind, Snapshot};
use crate::reassignment::{parse_reassignment_doc, spec_parse_doc};

verus! {

/// What one poll of the reassignment path returned, as handed over by the
/// coordination-service client.
#[derive(Debug)]
pub enum ZkReadResult {
    /// The path holds no document: no reassignment is in progress.
    Missing,
    /// The raw bytes of the document at the path.
    Data(Vec<u8>),
    /// The read itself failed (connection or session error).
    ConnError,
}

/// The watcher's fail-open rule. `Some(doc)` means the poll succeeded and
/// `doc` is the value to cache (`None` inside stands for "no reassignment
/// in progress"); `None` means the poll failed — a connection error or
/// malformed bytes — and the cache must retain its previous value, with
/// one more counted failure.
pub open spec fn spec_watch_outcome(read: ZkReadResult) -> Option<Option<ReassignmentModel>> {
    match read {
        ZkReadResult::Missing => Some(None),
        ZkReadResult::Data(bytes) => match spec_parse_doc(bytes@) {
            Some(d) => Some(Some(d)),
            None => None,
        },
        ZkReadResult::ConnError => None,
    }
}

/// The cached value holds exactly the reassignment state `docm`.
pub open spec fn reassignment_snapshot_matches(
    v: Option<Snapshot>,
    docm: Option<ReassignmentModel>,
) -> bool {
    match v {
        Some(Snapshot::Reassignment(d)) => match (d, docm) {
            (Option::None, Option::None) => true,
            (Option::Some(dd), Option::Some(mm)) => dd@ == mm,
            _ => false,
        },
        _ => false,
    }
}

/// Apply one poll of the reassignment path to the cache entry
/// `(cluster, Reassignment)`. On a successful read the parsed state —
/// possibly "no reassignment" — replaces the cached value; on a failed
/// read (connection error or malformed document) the previous value and
/// its timestamp stay untouched and the failure counter advances exactly
/// once. No other cache entry changes.
pub fn apply_reassignment_read(
    cache: &mut Cache,
    cluster: ClusterId,
    read: ZkReadResult,
    fetch_time: u64,
)
    requires
        old(cache).wf(),
    ensures
        final(cache).wf(),
        final(cache).spec_config() == old(cache).spec_config(),
        ({
            let key = Key { cluster, kind: ResourceKind::Reassignment };
            let prev = match old(cache).lookup(key) {
                Some(e) => e,
                None => fresh_entry(),
            };
            &&& forall|k2: Key| k2 != key ==> final(cache).lookup(k2) == old(cache).lookup(k2)
            &&& match spec_watch_outcome(read) {
                None => final(cache).lookup(key) == Some(entry_after_failure(prev)),
                Some(docm) => {
                    if fetch_time >= prev.last_success {
                        &&& final(cache).lookup(key) matches Some(e)
                            && e.failures == 0
                            && e.last_success == fetch_time
                            && reassignment_snapshot_matches(e.value, docm)
                    } else {
                        final(cache).lookup(key) == Some(prev)
                    }
                },
            }
        }),
{
    match read {
        ZkReadResult::Missing => {
            cache.put(
                cluster,
                ResourceKind::Reassignment,
                FetchResult::Success(Snapshot::Reassignment(None)),
                fetch_time,
            );
        },
        ZkReadResult::Data(bytes) => {
            match parse_reassignment_doc(&bytes) {
                Some(doc) => {
                    cache.put(
                        cluster,
                        ResourceKind::Reassignment,
                        FetchResult::Success(Snapshot::Reassignment(Some(doc))),
                        fetch_time,
                    );
                },
                None => {
                    cache.put(cluster, ResourceKind::Reassignment, FetchResult::Failure, fetch_time);
                },
            }
        },
        ZkReadResult::ConnError => {
            cache.put(cluster, ResourceKind::Reassignment, FetchResult::Failure, fetch_time);
        },
    }
}

} // verus!
