use kafka_view::live_consumer::{LiveConsumerStore, NextOutcome, SessionState, StartError};
use kafka_view::metadata::{ClusterId, Message};

fn msg(offset: u64) -> Message {
    Message { offset, payload: vec![offset as u8] }
}

#[test]
fn session_lifecycle_reaches_streaming() {
    let mut store = LiveConsumerStore::new(2, 10, 100, 60);
    let id = store.start_tail(ClusterId(1), b"orders".to_vec(), 0, 0).expect("under caps");
    assert_eq!(store.session_state(id), Some(SessionState::Initializing));
    store.confirm_ready(id);
    assert_eq!(store.session_state(id), Some(SessionState::Streaming));
}

#[test]
fn per_topic_cap_rejects_and_creates_nothing() {
    let mut store = LiveConsumerStore::new(2, 10, 100, 60);
    store.start_tail(ClusterId(1), b"orders".to_vec(), 0, 0).expect("first");
    store.start_tail(ClusterId(1), b"orders".to_vec(), 0, 0).expect("second");
    assert_eq!(store.session_count(), 2);
    let r = store.start_tail(ClusterId(1), b"orders".to_vec(), 0, 0);
    assert_eq!(r, Err(StartError::CapacityExceeded));
    assert_eq!(store.session_count(), 2); // directory size unchanged
    // a different topic of the same cluster is still allowed
    store.start_tail(ClusterId(1), b"payments".to_vec(), 0, 0).expect("other topic");
}

#[test]
fn global_cap_rejects_and_creates_nothing() {
    let mut store = LiveConsumerStore::new(10, 2, 100, 60);
    store.start_tail(ClusterId(1), b"a".to_vec(), 0, 0).expect("first");
    store.start_tail(ClusterId(2), b"b".to_vec(), 0, 0).expect("second");
    let r = store.start_tail(ClusterId(3), b"c".to_vec(), 0, 0);
    assert_eq!(r, Err(StartError::CapacityExceeded));
    assert_eq!(store.session_count(), 2);
}

#[test]
fn messages_flow_oldest_first() {
    let mut store = LiveConsumerStore::new(2, 10, 100, 60);
    let id = store.start_tail(ClusterId(1), b"orders".to_vec(), 0, 0).expect("start");
    store.confirm_ready(id);
    store.push_message(id, msg(0));
    store.push_message(id, msg(1));
    assert_eq!(store.next_message(id, 1), NextOutcome::Delivered(msg(0)));
    assert_eq!(store.next_message(id, 2), NextOutcome::Delivered(msg(1)));
    assert_eq!(store.next_message(id, 3), NextOutcome::Pending);
}

#[test]
fn slow_client_drops_oldest_and_counts() {
    // buffer capacity 100, 150 messages arrive before the client reads:
    // exactly 50 dropped, the 100 most recent remain, in order
    let mut store = LiveConsumerStore::new(2, 10, 100, 60);
    let id = store.start_tail(ClusterId(1), b"orders".to_vec(), 0, 0).expect("start");
    store.confirm_ready(id);
    for offset in 0..150 {
        store.push_message(id, msg(offset));
    }
    assert_eq!(store.dropped_count(id), Some(50));
    for offset in 50..150 {
        assert_eq!(store.next_message(id, offset), NextOutcome::Delivered(msg(offset)));
    }
    assert_eq!(store.next_message(id, 151), NextOutcome::Pending);
}

#[test]
fn stop_tail_flushes_closes_and_ends_session() {
    let mut store = LiveConsumerStore::new(2, 10, 100, 60);
    let id = store.start_tail(ClusterId(1), b"orders".to_vec(), 7, 0).expect("start");
    store.confirm_ready(id);
    store.push_message(id, msg(7));
    store.push_message(id, msg(8));
    let outcome = store.stop_tail(id).expect("was registered");
    assert!(outcome.close_subscription); // the live subscription must be closed now
    assert_eq!(outcome.flushed, vec![msg(7), msg(8)]); // remainder flushed in order
    assert_eq!(store.session_count(), 0); // deregistered: it reached Closed
    assert_eq!(store.next_message(id, 1), NextOutcome::EndOfSession);
    assert!(store.stop_tail(id).is_none());
}

#[test]
fn subscription_fault_is_terminal() {
    let mut store = LiveConsumerStore::new(2, 10, 100, 60);
    let id = store.start_tail(ClusterId(1), b"orders".to_vec(), 0, 0).expect("start");
    store.confirm_ready(id);
    store.push_message(id, msg(0));
    store.on_subscription_fault(id);
    assert_eq!(store.session_state(id), Some(SessionState::Error));
    // the fault reaches the client as a terminal event, then the session is gone
    assert_eq!(store.next_message(id, 1), NextOutcome::EndOfSession);
    assert_eq!(store.session_count(), 0);
    assert_eq!(store.next_message(id, 2), NextOutcome::EndOfSession);
    // no auto-restart: a fresh start gets a new id
    let id2 = store.start_tail(ClusterId(1), b"orders".to_vec(), 5, 3).expect("new session");
    assert_ne!(id, id2);
}

#[test]
fn messages_to_unconfirmed_or_unknown_sessions_are_ignored() {
    let mut store = LiveConsumerStore::new(2, 10, 100, 60);
    let id = store.start_tail(ClusterId(1), b"orders".to_vec(), 0, 0).expect("start");
    store.push_message(id, msg(0)); // still Initializing: not buffered
    assert_eq!(store.next_message(id, 1), NextOutcome::Pending);
    store.push_message(99, msg(0)); // unknown session: no effect
    assert_eq!(store.session_count(), 1);
}

#[test]
fn idle_sessions_are_reported_for_forced_stop() {
    let mut store = LiveConsumerStore::new(2, 10, 100, 60);
    let a = store.start_tail(ClusterId(1), b"a".to_vec(), 0, 0).expect("first");
    let b = store.start_tail(ClusterId(1), b"b".to_vec(), 0, 0).expect("second");
    store.confirm_ready(a);
    store.confirm_ready(b);
    assert_eq!(store.next_message(b, 50), NextOutcome::Pending); // b polled at 50
    let idle = store.idle_sessions(70); // a unpolled for 70s, b for 20s
    assert_eq!(idle, vec![a]);
    let outcome = store.stop_tail(a).expect("idle session stopped");
    assert!(outcome.close_subscription);
    assert!(store.idle_sessions(70).is_empty());
}
