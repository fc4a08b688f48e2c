use kafka_view::cache::{Cache, RefreshConfig};
use kafka_view::metadata::{ClusterId, FetchResult, ResourceKind, Snapshot};

fn config() -> RefreshConfig {
    RefreshConfig {
        brokers_interval: 30,
        topics_interval: 30,
        groups_interval: 30,
        reassignment_interval: 30,
        failure_threshold: 3,
    }
}

#[test]
fn get_on_empty_cache_is_absent_and_stale() {
    let cache = Cache::new(config());
    let (value, stale) = cache.get(ClusterId(1), ResourceKind::Brokers, 0);
    assert!(value.is_none());
    assert!(stale);
}

#[test]
fn success_stores_value_fresh() {
    let mut cache = Cache::new(config());
    cache.put(
        ClusterId(1),
        ResourceKind::Brokers,
        FetchResult::Success(Snapshot::Brokers(vec![10, 11])),
        100,
    );
    let (value, stale) = cache.get(ClusterId(1), ResourceKind::Brokers, 110);
    assert_eq!(value, Some(&Snapshot::Brokers(vec![10, 11])));
    assert!(!stale);
}

#[test]
fn value_older_than_interval_is_stale() {
    let mut cache = Cache::new(config());
    cache.put(
        ClusterId(1),
        ResourceKind::Topics,
        FetchResult::Success(Snapshot::Topics(vec![])),
        100,
    );
    let (value, stale) = cache.get(ClusterId(1), ResourceKind::Topics, 131);
    assert!(value.is_some());
    assert!(stale);
    let (_, fresh) = cache.get(ClusterId(1), ResourceKind::Topics, 130);
    assert!(!fresh);
}

#[test]
fn failures_below_threshold_keep_entry_fresh() {
    let mut cache = Cache::new(config());
    cache.put(
        ClusterId(1),
        ResourceKind::Groups,
        FetchResult::Success(Snapshot::Groups(vec![])),
        100,
    );
    cache.put(ClusterId(1), ResourceKind::Groups, FetchResult::Failure, 110);
    cache.put(ClusterId(1), ResourceKind::Groups, FetchResult::Failure, 120);
    let (value, stale) = cache.get(ClusterId(1), ResourceKind::Groups, 125);
    assert_eq!(value, Some(&Snapshot::Groups(vec![])));
    assert!(!stale);
}

#[test]
fn topics_fail_three_ticks_then_recover() {
    // Cluster "prod" (id 1), topics refreshed every 30s, threshold 3:
    // a pre-existing snapshot, then failures on ticks 1 to 3, then a
    // success on tick 4.
    let prod = ClusterId(1);
    let mut cache = Cache::new(config());
    let snapshot = Snapshot::Topics(vec![]);
    cache.put(prod, ResourceKind::Topics, FetchResult::Success(snapshot.clone()), 0);

    cache.put(prod, ResourceKind::Topics, FetchResult::Failure, 30);
    cache.put(prod, ResourceKind::Topics, FetchResult::Failure, 60);
    cache.put(prod, ResourceKind::Topics, FetchResult::Failure, 90);
    let (value, stale) = cache.get(prod, ResourceKind::Topics, 90);
    assert_eq!(value, Some(&snapshot));
    assert!(stale);

    let fresh = Snapshot::Topics(vec![]);
    cache.put(prod, ResourceKind::Topics, FetchResult::Success(fresh.clone()), 120);
    let (value, stale) = cache.get(prod, ResourceKind::Topics, 125);
    assert_eq!(value, Some(&fresh));
    assert!(!stale);
    // another single failure right after the reset does not reach the
    // threshold again: the counter restarted from zero
    cache.put(prod, ResourceKind::Topics, FetchResult::Failure, 150);
    let (_, stale) = cache.get(prod, ResourceKind::Topics, 150);
    assert!(!stale);
}

#[test]
fn older_completion_loses_to_newer_fetch_time() {
    let mut cache = Cache::new(config());
    cache.put(
        ClusterId(1),
        ResourceKind::Brokers,
        FetchResult::Success(Snapshot::Brokers(vec![2])),
        200,
    );
    // an overlapping refresh that fetched earlier completes later: discarded
    cache.put(
        ClusterId(1),
        ResourceKind::Brokers,
        FetchResult::Success(Snapshot::Brokers(vec![1])),
        150,
    );
    let (value, _) = cache.get(ClusterId(1), ResourceKind::Brokers, 210);
    assert_eq!(value, Some(&Snapshot::Brokers(vec![2])));
}

#[test]
fn evict_drops_only_that_cluster() {
    let mut cache = Cache::new(config());
    cache.put(
        ClusterId(1),
        ResourceKind::Brokers,
        FetchResult::Success(Snapshot::Brokers(vec![1])),
        10,
    );
    cache.put(
        ClusterId(2),
        ResourceKind::Brokers,
        FetchResult::Success(Snapshot::Brokers(vec![2])),
        10,
    );
    cache.evict(ClusterId(1));
    let (gone, stale) = cache.get(ClusterId(1), ResourceKind::Brokers, 11);
    assert!(gone.is_none());
    assert!(stale);
    let (kept, _) = cache.get(ClusterId(2), ResourceKind::Brokers, 11);
    assert_eq!(kept, Some(&Snapshot::Brokers(vec![2])));
}

#[test]
fn failure_on_unknown_key_creates_valueless_entry() {
    let mut cache = Cache::new(config());
    cache.put(ClusterId(9), ResourceKind::Reassignment, FetchResult::Failure, 5);
    let (value, stale) = cache.get(ClusterId(9), ResourceKind::Reassignment, 6);
    assert!(value.is_none());
    assert!(stale);
}
