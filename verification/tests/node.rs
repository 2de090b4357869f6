use tokad::clock::{Timestamp, REFRESH};
use tokad::data::{Node, Stub};
use tokad::error::INVALID_ARGUMENT;
use tokad::hash::ID_MASK;
use tokad::tokad::{Data, State, DEFAULT_PORT};

fn at(nanos: i128) -> Timestamp {
    Timestamp { nanos }
}

#[test]
fn a_socket_needs_an_address_and_a_port() {
    let mut node = Node { id: 1, ip: "10.0.0.1".to_string(), port: 65535 };
    assert_eq!(node.sock(Some("ip")), Some(("ip", 65535)));
    assert_eq!(node.sock::<&str>(None), None);
    node.port = 65536;
    assert_eq!(node.sock(Some("ip")), None);
}

#[test]
fn a_node_that_cannot_be_reached_is_an_invalid_argument() {
    let node = Node { id: 1, ip: "nowhere".to_string(), port: 80 };
    assert_eq!(node.dial(Some(7)), Ok((7, 80)));
    let status = node.dial::<u8>(None).unwrap_err();
    assert_eq!(status.code, INVALID_ARGUMENT);
    assert_eq!(status.message, "Invalid or unparseable IP/port in node metadata");
}

#[test]
fn nodes_are_made_from_sockets_and_stubs() {
    let node = Node::from_sock(0, "::1".to_string(), 50051);
    assert_eq!(node, Node { id: 0, ip: "::1".to_string(), port: 50051 });
    let node = Node::from_stub(Stub { id: 4, port: 9 }, "1.2.3.4".to_string());
    assert_eq!(node.to_string(), "(4 1.2.3.4 9)");
}

#[test]
fn a_state_starts_empty() {
    let state = State::default();
    assert!(state.id <= ID_MASK);
    assert_eq!(state.port, DEFAULT_PORT);
    assert_eq!(state.buckets.len(), 32);
    assert!(state.buckets.iter().all(|b| b.is_empty()));
    assert!(state.store.is_empty());
    assert_eq!(state.refresh.len(), 32);
    for t in &state.refresh {
        assert!(state.start_time.nanos <= t.nanos && t.nanos <= state.start_time.nanos + REFRESH);
    }
    assert!(state.refresh.iter().any(|t| t.nanos != state.refresh[0].nanos));
}

#[test]
fn states_differ_in_their_identifiers() {
    let ids: Vec<u128> = (0..8).map(|_| State::default().id).collect();
    assert!(ids.iter().any(|id| *id != ids[0]));
}

#[test]
fn a_state_names_itself() {
    let state = State::new(7, 80, at(0), &vec![1; 32]);
    let stub = state.stub();
    assert_eq!((stub.id, stub.port), (7, 80));
    assert_eq!(state.get_ref().id, 7);
    assert_eq!(state.refresh[5], at(1));
}

#[test]
fn values_carry_their_times() {
    let entry = Data::new_at(b"v".to_vec(), at(3), at(5));
    assert!(!entry.publish);
    assert_eq!((entry.publish_time, entry.replication_time), (at(3), at(5)));
    let mut entry = Data::publish_at(b"v".to_vec(), at(5));
    assert!(entry.publish);
    assert_eq!((entry.publish_time, entry.replication_time), (at(5), at(5)));
    entry.refresh_at(at(4), at(9));
    assert_eq!((entry.publish_time, entry.replication_time), (at(5), at(9)));
    entry.refresh_at(at(8), at(10));
    assert_eq!((entry.publish_time, entry.replication_time), (at(8), at(10)));
}

#[test]
fn values_are_stamped_by_the_clock() {
    let before = Timestamp::now();
    let entry = Data::new(b"v".to_vec(), at(3));
    assert!(before.nanos <= entry.replication_time.nanos);
    assert_eq!(entry.publish_time, at(3));
    let mut own = Data::publish(b"v".to_vec());
    assert_eq!(own.publish_time, own.replication_time);
    assert!(before.nanos <= own.publish_time.nanos);
    own.refresh(at(3));
    assert!(own.publish_time.nanos <= own.replication_time.nanos);
}

#[test]
fn a_started_node_keeps_its_port_and_time() {
    let before = Timestamp::now();
    let state = State::listening(1234);
    let after = Timestamp::now();
    assert_eq!(state.port, 1234);
    assert_eq!(state.stub().port, 1234);
    assert!(before.nanos <= state.start_time.nanos && state.start_time.nanos <= after.nanos);
}

#[test]
fn an_identifier_is_the_low_end_of_a_number() {
    let state = State::numbered(0xabcd_1234_5678, 80, at(5), &vec![2; 32]);
    assert_eq!(state.id, 0x1234_5678);
    assert_eq!((state.port, state.start_time), (80, at(5)));
    assert!(state.refresh.iter().all(|t| *t == at(7)));
    assert_eq!(State::numbered(7, 80, at(0), &vec![0; 32]).id, 7);
    assert_eq!(State::numbered(u128::MAX, 80, at(0), &vec![0; 32]).id, ID_MASK);
    assert_eq!(State::numbered(ID_MASK + 1, 80, at(0), &vec![0; 32]).id, 0);
}
