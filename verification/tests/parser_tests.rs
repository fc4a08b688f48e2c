use kafka_view::reassignment::parse_reassignment_doc;

fn parse(s: &str) -> Option<kafka_view::metadata::Reassignment> {
    parse_reassignment_doc(&s.as_bytes().to_vec())
}

#[test]
fn parses_empty_partition_list() {
    let d = parse(r#"{"version":1,"partitions":[]}"#).expect("well-formed");
    assert_eq!(d.version, 1);
    assert_eq!(d.partitions.len(), 0);
}

#[test]
fn parses_single_partition_move() {
    let d = parse(r#"{"version":1,"partitions":[{"topic":"t","partition":0,"replicas":[5]}]}"#)
        .expect("well-formed");
    assert_eq!(d.version, 1);
    assert_eq!(d.partitions.len(), 1);
    assert_eq!(d.partitions[0].topic, b"t".to_vec());
    assert_eq!(d.partitions[0].partition, 0);
    assert_eq!(d.partitions[0].replicas, vec![5]);
}

#[test]
fn parses_several_moves_and_replicas() {
    let doc = r#"{"version":2,"partitions":[{"topic":"a.b-c","partition":12,"replicas":[1,2,3]},{"topic":"other","partition":7,"replicas":[]}]}"#;
    let d = parse(doc).expect("well-formed");
    assert_eq!(d.version, 2);
    assert_eq!(d.partitions.len(), 2);
    assert_eq!(d.partitions[0].topic, b"a.b-c".to_vec());
    assert_eq!(d.partitions[0].replicas, vec![1, 2, 3]);
    assert_eq!(d.partitions[1].topic, b"other".to_vec());
    assert_eq!(d.partitions[1].partition, 7);
    assert_eq!(d.partitions[1].replicas, Vec::<u64>::new());
}

#[test]
fn largest_number_fits_and_one_more_does_not() {
    let d = parse(r#"{"version":18446744073709551615,"partitions":[]}"#).expect("within 64 bits");
    assert_eq!(d.version, u64::MAX);
    assert!(parse(r#"{"version":18446744073709551616,"partitions":[]}"#).is_none());
}

#[test]
fn rejects_malformed_documents() {
    assert!(parse("").is_none());
    assert!(parse("not json").is_none());
    assert!(parse("{").is_none());
    assert!(parse(r#"{"version":1}"#).is_none());
    assert!(parse(r#"{"version":,"partitions":[]}"#).is_none());
    assert!(parse(r#"{"version":1,"partitions":}"#).is_none());
    assert!(parse(r#"{"version":1,"partitions":["#).is_none());
    assert!(parse(r#"{"version":1,"partitions":[]} "#).is_none()); // trailing byte
    assert!(parse(r#" {"version":1,"partitions":[]}"#).is_none()); // leading byte
    assert!(parse(r#"{"version":1,"partitions":[{"topic":"t","partition":0}]}"#).is_none());
    assert!(parse(r#"{"version":1,"partitions":[{"topic":"t","partition":0,"replicas":[5],}]}"#).is_none());
    assert!(parse("{\"version\":1,\"partitions\":[{\"topic\":\"a\\\"b\",\"partition\":0,\"replicas\":[]}]}").is_none()); // escape in topic
    assert!(parse("{\"version\":1,\"partitions\":[{\"topic\":\"a\tb\",\"partition\":0,\"replicas\":[]}]}").is_none()); // control byte in topic
    assert!(parse(r#"{"version":1,"partitions":[{"topic":"t","partition":-1,"replicas":[]}]}"#).is_none());
}
