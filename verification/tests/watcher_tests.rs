use kafka_view::cache::{Cache, RefreshConfig};
use kafka_view::metadata::{ClusterId, ResourceKind, Snapshot};
use kafka_view::watcher::{apply_reassignment_read, ZkReadResult};

fn config() -> RefreshConfig {
    RefreshConfig {
        brokers_interval: 30,
        topics_interval: 30,
        groups_interval: 30,
        reassignment_interval: 30,
        failure_threshold: 3,
    }
}

#[test]
fn missing_document_is_a_defined_value_not_an_error() {
    let cluster = ClusterId(1);
    let mut cache = Cache::new(config());
    apply_reassignment_read(&mut cache, cluster, ZkReadResult::Missing, 100);
    let (value, stale) = cache.get(cluster, ResourceKind::Reassignment, 105);
    assert_eq!(value, Some(&Snapshot::Reassignment(None)));
    assert!(!stale);
}

#[test]
fn well_formed_document_is_cached() {
    let cluster = ClusterId(1);
    let mut cache = Cache::new(config());
    let doc = br#"{"version":1,"partitions":[{"topic":"orders","partition":3,"replicas":[1,2,4]}]}"#;
    apply_reassignment_read(&mut cache, cluster, ZkReadResult::Data(doc.to_vec()), 50);
    let (value, stale) = cache.get(cluster, ResourceKind::Reassignment, 55);
    assert!(!stale);
    match value {
        Some(Snapshot::Reassignment(Some(r))) => {
            assert_eq!(r.version, 1);
            assert_eq!(r.partitions.len(), 1);
            assert_eq!(r.partitions[0].topic, b"orders".to_vec());
            assert_eq!(r.partitions[0].partition, 3);
            assert_eq!(r.partitions[0].replicas, vec![1, 2, 4]);
        }
        other => panic!("unexpected cached value: {:?}", other),
    }
}

#[test]
fn malformed_document_leaves_entry_unchanged_and_counts_one_failure() {
    let cluster = ClusterId(1);
    let mut cache = Cache::new(config());
    apply_reassignment_read(&mut cache, cluster, ZkReadResult::Missing, 10);

    apply_reassignment_read(&mut cache, cluster, ZkReadResult::Data(b"not json".to_vec()), 20);
    let (value, stale) = cache.get(cluster, ResourceKind::Reassignment, 22);
    assert_eq!(value, Some(&Snapshot::Reassignment(None)));
    assert!(!stale); // exactly one counted failure, threshold is 3

    // two more malformed reads reach the threshold: stale, value untouched
    apply_reassignment_read(&mut cache, cluster, ZkReadResult::Data(b"{".to_vec()), 24);
    apply_reassignment_read(&mut cache, cluster, ZkReadResult::Data(vec![0, 1, 2]), 26);
    let (value, stale) = cache.get(cluster, ResourceKind::Reassignment, 28);
    assert_eq!(value, Some(&Snapshot::Reassignment(None)));
    assert!(stale);
}

#[test]
fn connection_error_is_fail_open() {
    let cluster = ClusterId(1);
    let mut cache = Cache::new(config());
    let doc = br#"{"version":1,"partitions":[]}"#;
    apply_reassignment_read(&mut cache, cluster, ZkReadResult::Data(doc.to_vec()), 10);

    apply_reassignment_read(&mut cache, cluster, ZkReadResult::ConnError, 20);
    let (value, stale) = cache.get(cluster, ResourceKind::Reassignment, 21);
    // the outage is not visible as a reassignment: the last good value stays
    match value {
        Some(Snapshot::Reassignment(Some(r))) => {
            assert_eq!(r.version, 1);
            assert_eq!(r.partitions.len(), 0);
        }
        other => panic!("unexpected cached value: {:?}", other),
    }
    assert!(!stale);
}
