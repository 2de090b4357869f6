use tokad::client::{
    learn_found, learn_nodes, learn_pong, read_found, read_nodes, FollowUp, Outcome, Trouble,
};
use tokad::clock::Timestamp;
use tokad::data::{DataError, Node, Nodes, Store, StoreOrNodes, StoreRequest, Stub};
use tokad::error::{Status, INVALID_ARGUMENT};
use tokad::hash::key_hash;
use tokad::proto;
use tokad::server::{Note, NoteLevel};
use tokad::tokad::State;

fn node(id: u128) -> Node {
    Node { id, ip: "10.0.0.1".to_string(), port: 4000 }
}

fn state(known: &[u128]) -> State {
    let mut state = State::new(7, 4000, Timestamp { nanos: 0 }, &vec![0; 32]);
    for id in known {
        state.refresh(node(*id));
    }
    state
}

fn sender() -> State {
    State::new(9, 5000, Timestamp { nanos: 0 }, &vec![0; 32])
}

fn info(text: &str) -> Note {
    Note { level: NoteLevel::Info, text: text.to_string() }
}

fn ip() -> Option<String> {
    Some("1.2.3.4".to_string())
}

fn request(value: &[u8], millis: u64) -> proto::StoreRequest {
    StoreRequest {
        store: Store { key: key_hash(value), value: value.to_vec() },
        publish: true,
        publish_time: Timestamp::from_millis(millis),
    }
    .rep(Stub { id: 9, port: 5000 })
}

fn at(millis: u64) -> Timestamp {
    Timestamp::from_millis(millis)
}

#[test]
fn a_ping_is_answered_and_noted() {
    let state = state(&[]);
    let handled = state.get_ref().ping(&sender().ping_message(), ip());
    assert_eq!(handled.contact, Some(Node { id: 9, ip: "1.2.3.4".to_string(), port: 5000 }));
    assert_eq!(handled.notes, vec![info("source: 9 1.2.3.4 5000")]);
    let stub = Stub::try_from(&handled.reply.unwrap()).unwrap();
    assert_eq!((stub.id, stub.port), (7, 4000));
}

#[test]
fn a_ping_from_nowhere_is_answered() {
    let state = state(&[]);
    let handled = state.get_ref().ping(&sender().ping_message(), None);
    assert_eq!(handled.contact, None);
    assert_eq!(handled.notes, vec![info("source: 9 ? 5000")]);
    assert!(handled.reply.is_ok());
}

#[test]
fn a_request_without_a_sender_is_refused() {
    let missing = Some(DataError::MissingField("missing source".to_string()));
    let mut state = state(&[1]);
    let handled = state.get_ref().ping(&proto::Ping { source: None }, ip());
    assert_eq!(handled.reply.err(), missing);
    assert!(handled.contact.is_none() && handled.notes.is_empty());
    let key = proto::Key { source: None, key: vec![] };
    assert_eq!(state.get_ref().find_node(key.clone(), ip()).reply.err(), missing);
    assert_eq!(state.get_ref().find_value(key, ip()).reply.err(), missing);
    let mut message = request(b"abc", 1);
    message.source = None;
    let handled = state.store(message, ip());
    assert_eq!(handled.reply.err(), missing);
    assert!(handled.contact.is_none());
    assert!(state.store.is_empty());
}

#[test]
fn a_bad_key_is_refused_but_its_sender_is_noted() {
    let state = state(&[1]);
    let mut message = sender().key_message(5);
    message.key = vec![1, 2];
    let handled = state.get_ref().find_node(message.clone(), ip());
    assert_eq!(handled.reply.err(), Some(DataError::InvalidIdLength(2)));
    assert_eq!(handled.contact.map(|n| n.id), Some(9));
    assert_eq!(handled.notes.len(), 1);
    let handled = state.get_ref().find_value(message, ip());
    assert_eq!(handled.reply.err(), Some(DataError::InvalidIdLength(2)));
    assert_eq!(handled.contact.map(|n| n.id), Some(9));
}

#[test]
fn the_nodes_near_a_key_are_answered() {
    let state = state(&[1, 2]);
    let handled = state.get_ref().find_node(sender().key_message(5), ip());
    assert_eq!(handled.notes, vec![info("source: 9 1.2.3.4 5000"), info("target: 5")]);
    let (stub, nodes) = read_nodes(handled.reply.unwrap(), vec![Ok(()), Ok(())]).unwrap();
    assert_eq!(stub.id, 7);
    assert_eq!(nodes, Nodes { nodes: vec![node(1), node(2)] });
}

#[test]
fn a_value_handed_over_is_found_again() {
    let mut state = state(&[1]);
    let key = key_hash(b"abc");
    let handled = state.store_at(request(b"abc", 1000), ip(), at(1000), at(2000));
    assert!(handled.reply.is_ok());
    assert_eq!(handled.notes[1], info(&format!("{}: abc", key)));
    assert_eq!(handled.contact.map(|n| n.id), Some(9));
    assert_eq!(state.store[&key].publish_time, at(1000));
    assert_eq!(state.store[&key].replication_time, at(2000));
    let handled = state.get_ref().find_value(sender().key_message(key), ip());
    assert_eq!(handled.notes.len(), 3);
    assert_eq!(
        handled.notes[2],
        Note { level: NoteLevel::Debug, text: "value found!".to_string() },
    );
    let (stub, found) = read_found(handled.reply.unwrap(), vec![]).unwrap();
    assert_eq!(stub.id, 7);
    assert_eq!(found, StoreOrNodes::Store(Store { key, value: b"abc".to_vec() }));
}

#[test]
fn a_request_is_checked_against_the_clock() {
    let mut state = state(&[]);
    let handled = state.store(request(b"abc", 1000), ip());
    assert!(handled.reply.is_ok());
    assert_eq!(state.value(key_hash(b"abc")), Some(b"abc".to_vec()));
    let handled = state.store(request(b"later", u64::MAX), ip());
    assert!(matches!(handled.reply, Err(DataError::TimeTravel { .. })));
    assert_eq!(state.store.len(), 1);
}

#[test]
fn a_refused_value_changes_nothing() {
    let mut state = state(&[]);
    let mut foreign = request(b"abc", 1000);
    foreign.value = b"abd".to_vec();
    let handled = state.store_at(foreign, ip(), at(1000), at(1000));
    assert!(matches!(handled.reply, Err(DataError::HashMismatch { .. })));
    assert_eq!(handled.contact.map(|n| n.id), Some(9));
    assert_eq!(handled.notes.len(), 1);
    let handled = state.store_at(request(b"abc", 1000), ip(), at(999), at(999));
    assert!(matches!(handled.reply, Err(DataError::TimeTravel { .. })));
    assert!(state.store.is_empty());
}

#[test]
fn a_value_that_is_not_here_is_answered_with_nodes() {
    let state = state(&[1]);
    let handled = state.get_ref().find_value(sender().key_message(5), ip());
    let (_, found) = read_found(handled.reply.unwrap(), vec![Ok(())]).unwrap();
    assert_eq!(found, StoreOrNodes::Nodes(Nodes { nodes: vec![node(1)] }));
}

#[test]
fn answers_are_read_with_the_sender_first() {
    let message = proto::Nodes { source: None, nodes: vec![] };
    assert_eq!(
        read_nodes(message, vec![]).err(),
        Some(DataError::MissingField("missing source".to_string())),
    );
    let message = Nodes { nodes: vec![node(1)] }.rep(Stub { id: 1, port: 1 });
    assert_eq!(
        read_nodes(message, vec![Err("bad".to_string())]).err(),
        Some(DataError::InvalidIp("bad".to_string())),
    );
    assert_eq!(
        read_found(proto::StoreOrNodes { oneof: None }, vec![]).err(),
        Some(DataError::MissingField("missing store or node".to_string())),
    );
}

#[test]
fn answers_tell_who_lives() {
    let mut state = state(&[]);
    assert!(state.follow_up(node(1), FollowUp::Heard).is_none());
    assert_eq!(state.buckets.iter().map(|b| b.len()).sum::<usize>(), 1);
    assert!(state.follow_up(node(1), FollowUp::Nothing).is_none());
    assert_eq!(state.buckets.iter().map(|b| b.len()).sum::<usize>(), 1);
    assert!(state.follow_up(node(1), FollowUp::Gone).is_none());
    assert_eq!(state.buckets.iter().map(|b| b.len()).sum::<usize>(), 0);
    for i in 1..=4 {
        state.follow_up(node(0x8000_0000 + i), FollowUp::Heard);
    }
    let probe = state.follow_up(node(0x8000_0009), FollowUp::Heard).unwrap();
    assert_eq!(probe.test.id, 0x8000_0001);
}

#[test]
fn a_question_without_a_connection_tells_nothing() {
    let learned = learn_pong(Outcome::Unreachable("down"));
    assert!(matches!(learned.result, Err(Trouble::Network("down"))));
    assert_eq!(learned.follow_up, FollowUp::Nothing);
    assert_eq!(learn_nodes(Outcome::Unreachable(1)).follow_up, FollowUp::Nothing);
    assert_eq!(learn_found(Outcome::Unreachable(1)).follow_up, FollowUp::Nothing);
}

#[test]
fn a_question_without_an_answer_tells_that_a_node_is_gone() {
    let learned = learn_pong(Outcome::Refused("late"));
    assert!(matches!(learned.result, Err(Trouble::Network("late"))));
    assert_eq!(learned.follow_up, FollowUp::Gone);
    assert_eq!(learn_nodes(Outcome::Refused(1)).follow_up, FollowUp::Gone);
    assert_eq!(learn_found(Outcome::Refused(1)).follow_up, FollowUp::Gone);
}

#[test]
fn an_answer_that_cannot_be_read_tells_the_same() {
    let learned = learn_pong::<u8>(Outcome::Answered(proto::Pong { source: None }));
    let expected = Status::new(
        INVALID_ARGUMENT,
        "Payload error: Missing field: missing source".to_string(),
    );
    match learned.result {
        Err(Trouble::Payload(status)) => assert_eq!(status, expected),
        other => panic!("{:?}", other),
    }
    assert_eq!(learned.follow_up, FollowUp::Gone);
}

#[test]
fn an_answer_tells_that_a_node_lives() {
    let own = Stub { id: 1, port: 1 };
    let learned = learn_pong::<u8>(Outcome::Answered(proto::Pong { source: Some(own.rep()) }));
    assert_eq!(learned.result.unwrap().id, 1);
    assert_eq!(learned.follow_up, FollowUp::Heard);
    let nodes = Nodes { nodes: vec![node(3)] };
    let answer = (nodes.clone().rep(own), vec![Ok(())]);
    let learned = learn_nodes::<u8>(Outcome::Answered(answer));
    assert_eq!(learned.result.unwrap().1, nodes);
    assert_eq!(learned.follow_up, FollowUp::Heard);
    let answer = (nodes.clone().or_store().rep(own), vec![Ok(())]);
    let learned = learn_found::<u8>(Outcome::Answered(answer));
    assert_eq!(learned.result.unwrap().1, nodes.or_store());
    assert_eq!(learned.follow_up, FollowUp::Heard);
}

#[test]
fn a_node_joins_through_another() {
    let mut state = state(&[]);
    let (probe, own) = state.join(Stub { id: 9, port: 5000 }, "1.2.3.4".to_string());
    assert!(probe.is_none());
    assert_eq!(own, 7);
    assert_eq!(state.print_buckets(), vec!["28: (9 1.2.3.4 5000)"]);
}
