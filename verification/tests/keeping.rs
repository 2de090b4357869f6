use tokad::clock::{Timestamp, EXPIRE, REFRESH, REPLICATE, REPUBLISH, SECOND};
use tokad::data::{Node, Store, StoreRequest, Stub};
use tokad::error::{Status, TokadError};
use tokad::hash::key_hash;
use tokad::routing::bucket_index;
use tokad::sending::SendStep;
use tokad::tokad::State;

fn at(nanos: i128) -> Timestamp {
    Timestamp { nanos }
}

fn node(id: u128) -> Node {
    Node { id, ip: "10.0.0.1".to_string(), port: 4000 }
}

fn state() -> State {
    State::new(7, 4000, at(0), &vec![0; 32])
}

fn request(value: &[u8], publish_time: Timestamp) -> StoreRequest {
    StoreRequest {
        store: Store { key: key_hash(value), value: value.to_vec() },
        publish: true,
        publish_time,
    }
}

#[test]
fn a_kept_value_is_there() {
    let mut state = state();
    let key = key_hash(b"abc");
    assert_eq!(state.value(key), None);
    state.keep(request(b"abc", at(10)), at(20));
    assert_eq!(state.value(key), Some(b"abc".to_vec()));
    assert!(!state.store[&key].publish);
    assert_eq!(state.store[&key].publish_time, at(10));
    assert_eq!(state.store[&key].replication_time, at(20));
}

#[test]
fn a_second_copy_renews_the_first() {
    let mut state = state();
    let key = key_hash(b"abc");
    state.keep(request(b"abc", at(10)), at(20));
    state.keep(request(b"abc", at(5)), at(30));
    assert_eq!(state.store[&key].publish_time, at(10));
    assert_eq!(state.store[&key].replication_time, at(30));
    state.keep(request(b"abc", at(25)), at(40));
    assert_eq!(state.store[&key].publish_time, at(25));
    assert_eq!(state.store.len(), 1);
}

#[test]
fn an_own_value_stays_and_is_published_again() {
    let mut state = state();
    state.raw_publish_at(1, b"mine", at(0), at(0));
    let sweep = state.sweep(at(REPUBLISH - 1));
    assert!(sweep.republish.is_empty());
    assert_eq!(sweep.replicate.len(), 1);
    let sweep = state.sweep(at(REPUBLISH));
    assert_eq!(sweep.republish.len(), 1);
    assert_eq!(sweep.republish[0].0, 1);
    assert_eq!(sweep.republish[0].1.publish_time, at(REPUBLISH));
    assert!(sweep.replicate.is_empty());
    let sweep = state.sweep(at(100 * EXPIRE));
    assert_eq!(sweep.republish.len(), 1);
    assert_eq!(state.value(1), Some(b"mine".to_vec()));
}

#[test]
fn a_foreign_value_expires() {
    let mut state = state();
    let key = key_hash(b"abc");
    state.keep(request(b"abc", at(0)), at(EXPIRE));
    assert!(state.sweep(at(EXPIRE)).replicate.is_empty());
    assert!(state.value(key).is_some());
    let sweep = state.sweep(at(EXPIRE + 1));
    assert!(sweep.replicate.is_empty() && sweep.republish.is_empty());
    assert!(state.value(key).is_none());
}

#[test]
fn a_renewed_value_expires_later() {
    let mut state = state();
    let key = key_hash(b"abc");
    state.keep(request(b"abc", at(0)), at(0));
    state.keep(request(b"abc", at(REPUBLISH)), at(REPUBLISH));
    state.sweep(at(EXPIRE + 1));
    assert!(state.value(key).is_some());
}

#[test]
fn a_value_is_handed_on_when_its_copy_is_old() {
    let mut state = state();
    let key = key_hash(b"abc");
    state.keep(request(b"abc", at(0)), at(0));
    assert!(state.sweep(at(REPLICATE)).replicate.is_empty());
    let sweep = state.sweep(at(REPLICATE + 1));
    assert_eq!(sweep.replicate.len(), 1);
    assert_eq!(sweep.replicate[0].0, key);
    assert_eq!(sweep.replicate[0].1.replication_time, at(REPLICATE + 1));
    assert!(state.sweep(at(REPLICATE + 1)).replicate.is_empty());
}

#[test]
fn due_buckets_are_named_once() {
    let mut delays = vec![0; 32];
    delays[3] = SECOND as u64;
    let mut state = State::new(7, 4000, at(0), &delays);
    assert!(state.take_due_buckets(at(REFRESH)).is_empty());
    let due = state.take_due_buckets(at(REFRESH + 1));
    assert_eq!(due.len(), 31);
    assert!(!due.contains(&3));
    assert!(state.take_due_buckets(at(REFRESH + 1)).is_empty());
    assert_eq!(state.take_due_buckets(at(REFRESH + SECOND + 1)), vec![3]);
}

#[test]
fn a_bucket_is_refreshed_with_a_key_of_its_own() {
    let mut state = state();
    assert_eq!(state.get_ref().refresh_bucket(0), None);
    state.refresh(node(0x8000_0000));
    state.refresh(node(6));
    for _ in 0..20 {
        let key = state.get_ref().refresh_bucket(0).unwrap();
        assert_eq!(bucket_index(key ^ 7), 0);
    }
    assert_eq!(state.get_ref().refresh_bucket(31), Some(6));
}

#[test]
fn a_published_value_is_kept_and_sent() {
    let mut state = state();
    let (key, request) = state.publish(b"abc");
    assert_eq!(key, 0x273a8db5);
    assert_eq!(request.store, Store { key, value: b"abc".to_vec() });
    assert!(request.publish);
    assert!(state.store[&key].publish);
    assert!(state.store[&key].publish_time.nanos <= request.publish_time.nanos);
    let request = state.raw_publish(5, b"any");
    assert_eq!(request.store.key, 5);
    assert_eq!(state.value(5), Some(b"any".to_vec()));
}

#[test]
fn a_local_value_is_not_published() {
    let mut state = state();
    state.local_store(5, b"here".to_vec());
    assert_eq!(state.value(5), Some(b"here".to_vec()));
    assert!(!state.store[&5].publish);
}

#[test]
fn a_local_value_carries_its_instants() {
    let mut state = state();
    state.local_store_at(5, b"here".to_vec(), at(3), at(4));
    assert_eq!(state.store[&5].publish_time, at(3));
    assert_eq!(state.store[&5].replication_time, at(4));
}

#[test]
fn a_value_is_sent_to_all_but_the_node_itself() {
    let state = state();
    let close = vec![node(6), node(7), node(9)];
    let sends = state.get_ref().lookup_and_store(close, 5, b"v", at(3_000_000), false).left;
    assert_eq!(sends.len(), 2);
    assert_eq!((sends[0].0.id, sends[1].0.id), (6, 9));
    assert_eq!(sends[1].1.key, 5u128.to_le_bytes().to_vec());
    assert_eq!(sends[1].1.value, b"v".to_vec());
    assert_eq!(sends[1].1.publish_time, 3);
    assert!(!sends[1].1.publish);
    assert_eq!(sends[1].1.source.as_ref().unwrap().id, 7u128.to_le_bytes().to_vec());
}

/// The nodes that get a value when the given ones fail, and what comes of it.
fn send(close: &[u128], failing: &[u128]) -> (Vec<u128>, Result<(), TokadError>) {
    let state = state();
    let close = close.iter().map(|id| node(*id)).collect();
    let mut sending = state.get_ref().lookup_and_store(close, 5, b"v", at(0), true);
    let mut sent = Vec::new();
    let mut step = sending.start();
    loop {
        match step {
            SendStep::Send(node, _) => {
                sent.push(node.id);
                let outcome = if failing.contains(&node.id) {
                    Err(Status::new(14, format!("{} is down", node.id)))
                } else {
                    Ok(Stub { id: node.id, port: 1 })
                };
                step = sending.on_reply(outcome);
            }
            SendStep::Done(result) => return (sent, result),
        }
    }
}

#[test]
fn sending_stops_at_the_first_failure() {
    assert_eq!(send(&[], &[]), (vec![], Ok(())));
    assert_eq!(send(&[7], &[7]), (vec![], Ok(())));
    assert_eq!(send(&[1, 2, 7, 3], &[]), (vec![1, 2, 3], Ok(())));
    let down = TokadError::NetworkStatus(Status::new(14, "2 is down".to_string()));
    assert_eq!(send(&[1, 2, 7, 3], &[2, 3]), (vec![1, 2], Err(down)));
}

#[test]
fn errands_say_who_published() {
    let mut state = state();
    state.raw_publish_at(1, b"mine", at(0), at(0));
    state.keep(request(b"abc", at(REPUBLISH - 5)), at(0));
    let errands = state.sweep(at(REPUBLISH)).errands();
    assert_eq!(errands.len(), 2);
    assert_eq!((errands[0].key, errands[0].publish), (1, true));
    assert_eq!(errands[0].value, b"mine".to_vec());
    assert_eq!(errands[0].publish_time, at(REPUBLISH));
    assert_eq!((errands[1].key, errands[1].publish), (key_hash(b"abc"), false));
    assert_eq!(errands[1].publish_time, at(REPUBLISH - 5));
}

#[test]
fn a_published_value_is_found_after_any_sweep() {
    let mut state = state();
    state.raw_publish_at(1, b"mine", at(0), at(0));
    for n in 0..5 {
        state.sweep(at(n * EXPIRE));
        assert_eq!(state.value(1), Some(b"mine".to_vec()));
    }
}
