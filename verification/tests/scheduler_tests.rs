use kafka_view::cache::{Cache, RefreshConfig};
use kafka_view::metadata::{ClusterId, FetchResult, ResourceKind, Snapshot};
use kafka_view::scheduler::{RefreshScheduler, TickDecision};

fn config() -> RefreshConfig {
    RefreshConfig {
        brokers_interval: 30,
        topics_interval: 30,
        groups_interval: 30,
        reassignment_interval: 30,
        failure_threshold: 3,
    }
}

#[test]
fn ticks_on_same_key_coalesce() {
    let mut sched = RefreshScheduler::new();
    let first = sched.begin_tick(ClusterId(1), ResourceKind::Brokers);
    assert_eq!(first, TickDecision::StartFetch);
    // while the fetch is in flight, every further tick is a no-op
    assert_eq!(sched.begin_tick(ClusterId(1), ResourceKind::Brokers), TickDecision::AlreadyInFlight);
    assert_eq!(sched.begin_tick(ClusterId(1), ResourceKind::Brokers), TickDecision::AlreadyInFlight);
    sched.complete(ClusterId(1), ResourceKind::Brokers);
    assert_eq!(sched.begin_tick(ClusterId(1), ResourceKind::Brokers), TickDecision::StartFetch);
}

#[test]
fn distinct_keys_are_independent() {
    let mut sched = RefreshScheduler::new();
    assert_eq!(sched.begin_tick(ClusterId(1), ResourceKind::Brokers), TickDecision::StartFetch);
    assert_eq!(sched.begin_tick(ClusterId(1), ResourceKind::Topics), TickDecision::StartFetch);
    assert_eq!(sched.begin_tick(ClusterId(2), ResourceKind::Brokers), TickDecision::StartFetch);
    assert_eq!(sched.begin_tick(ClusterId(1), ResourceKind::Topics), TickDecision::AlreadyInFlight);
}

#[test]
fn fetch_completion_writes_cache_and_unmarks() {
    let mut sched = RefreshScheduler::new();
    let mut cache = Cache::new(config());
    assert_eq!(sched.begin_tick(ClusterId(1), ResourceKind::Brokers), TickDecision::StartFetch);
    sched.on_fetch_complete(
        &mut cache,
        ClusterId(1),
        ResourceKind::Brokers,
        FetchResult::Success(Snapshot::Brokers(vec![7])),
        40,
    );
    let (value, stale) = cache.get(ClusterId(1), ResourceKind::Brokers, 45);
    assert_eq!(value, Some(&Snapshot::Brokers(vec![7])));
    assert!(!stale);
    assert_eq!(sched.begin_tick(ClusterId(1), ResourceKind::Brokers), TickDecision::StartFetch);
}

#[test]
fn failed_fetch_only_counts_against_the_entry() {
    let mut sched = RefreshScheduler::new();
    let mut cache = Cache::new(config());
    cache.put(
        ClusterId(1),
        ResourceKind::Brokers,
        FetchResult::Success(Snapshot::Brokers(vec![7])),
        0,
    );
    assert_eq!(sched.begin_tick(ClusterId(1), ResourceKind::Brokers), TickDecision::StartFetch);
    sched.on_fetch_complete(&mut cache, ClusterId(1), ResourceKind::Brokers, FetchResult::Failure, 30);
    let (value, stale) = cache.get(ClusterId(1), ResourceKind::Brokers, 30);
    assert_eq!(value, Some(&Snapshot::Brokers(vec![7])));
    assert!(!stale);
}
