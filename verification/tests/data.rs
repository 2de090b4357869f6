use tokad::clock::Timestamp;
use tokad::data::{
    check_port, check_source, parse_id, DataError, Key, Node, Nodes, Store, StoreOrNodes,
    StoreRequest, Stub,
};
use tokad::hash::key_hash;
use tokad::proto;

fn stub() -> Stub {
    Stub { id: 77, port: 50051 }
}

fn node(id: u128) -> Node {
    Node { id, ip: "10.0.0.1".to_string(), port: 4000 }
}

fn request(value: &[u8], millis: u64) -> StoreRequest {
    StoreRequest {
        store: Store { key: key_hash(value), value: value.to_vec() },
        publish: true,
        publish_time: Timestamp::from_millis(millis),
    }
}

#[test]
fn identifiers_are_read_back_and_cut() {
    assert_eq!(parse_id(&5u128.to_le_bytes()), Ok(5));
    assert_eq!(parse_id(&(0x1_0000_0005u128).to_le_bytes()), Ok(5));
    assert_eq!(parse_id(&[1, 2, 3]), Err(DataError::InvalidIdLength(3)));
    assert_eq!(parse_id(&[]), Err(DataError::InvalidIdLength(0)));
}

#[test]
fn ports_have_sixteen_bits() {
    assert_eq!(check_port(65535), Ok(65535));
    let reason = u16::try_from(65536u32).unwrap_err().to_string();
    assert_eq!(check_port(65536), Err(DataError::InvalidPort(reason)));
}

#[test]
fn a_stub_comes_back_from_its_message() {
    let message = stub().rep();
    assert_eq!(message.id, 77u128.to_le_bytes().to_vec());
    let back = message.unrep().unwrap();
    assert_eq!((back.id, back.port), (77, 50051));
    let far = proto::Stub { id: 1u128.to_le_bytes().to_vec(), port: 70000 };
    assert!(matches!(far.unrep(), Err(DataError::InvalidPort(_))));
    let short = proto::Stub { id: vec![1], port: 70000 };
    assert_eq!(short.unrep().err(), Some(DataError::InvalidIdLength(1)));
}

#[test]
fn a_message_without_a_source_is_refused() {
    let missing = DataError::MissingField("missing source".to_string());
    assert_eq!(check_source(&None).err(), Some(missing.clone()));
    assert_eq!(Stub::try_from(&proto::Ping { source: None }).err(), Some(missing.clone()));
    assert_eq!(Stub::try_from(&proto::Pong { source: None }).err(), Some(missing.clone()));
    let key = proto::Key { source: None, key: vec![] };
    assert_eq!(Stub::try_from(&key).err(), Some(missing.clone()));
    let nodes = proto::Nodes { source: None, nodes: vec![] };
    assert_eq!(Stub::try_from(&nodes).err(), Some(missing.clone()));
    let store = proto::Store { source: None, key: vec![], value: vec![] };
    assert_eq!(Stub::try_from(&store).err(), Some(missing.clone()));
    let mut request = request(b"v", 1).rep(stub());
    request.source = None;
    assert_eq!(Stub::try_from(&request).err(), Some(missing));
    let found = proto::StoreOrNodes { oneof: None };
    assert_eq!(
        Stub::try_from(&found).err(),
        Some(DataError::MissingField("missing store or node".to_string())),
    );
}

#[test]
fn a_node_comes_back_from_its_message() {
    let back = node(9).rep().unrep(Ok(())).unwrap();
    assert_eq!(back, node(9));
    assert_eq!(
        node(9).rep().unrep(Err("no address".to_string())),
        Err(DataError::InvalidIp("no address".to_string())),
    );
    let mut message = node(9).rep();
    message.port = 1 << 20;
    assert!(matches!(message.unrep(Ok(())), Err(DataError::InvalidPort(_))));
}

#[test]
fn nodes_come_back_from_their_message() {
    let nodes = Nodes { nodes: vec![node(1), node(2)] };
    let message = nodes.clone().rep(stub());
    assert_eq!(Stub::try_from(&message).map(|s| s.id), Ok(77));
    assert_eq!(message.clone().unrep(vec![Ok(()), Ok(())]), Ok(nodes));
    assert_eq!(
        message.unrep(vec![Ok(()), Err("bad".to_string())]),
        Err(DataError::InvalidIp("bad".to_string())),
    );
}

#[test]
fn a_key_comes_back_from_its_message() {
    let message = Key { key: 1234 }.rep(stub());
    assert_eq!(message.unrep(), Ok(Key { key: 1234 }));
}

#[test]
fn a_value_comes_back_under_its_own_key_alone() {
    let store = Store { key: key_hash(b"abc"), value: b"abc".to_vec() };
    assert_eq!(store.clone().rep(stub()).unrep(), Ok(store));
    let other = Store { key: 1, value: b"abc".to_vec() };
    assert_eq!(
        other.rep(stub()).unrep(),
        Err(DataError::HashMismatch { expected: 0x273a8db5, actual: 1 }),
    );
}

#[test]
fn a_request_comes_back_unless_it_is_early() {
    let message = request(b"abc", 5000).rep(stub());
    assert_eq!(message.publish_time, 5000);
    assert_eq!(message.clone().unrep_at(Timestamp::from_millis(5000)), Ok(request(b"abc", 5000)));
    assert_eq!(
        message.clone().unrep_at(Timestamp::from_millis(4999)),
        Err(DataError::TimeTravel {
            now: Timestamp::from_millis(4999),
            received: Timestamp::from_millis(5000),
        }),
    );
    assert_eq!(message.unrep(), Ok(request(b"abc", 5000)));
    assert!(matches!(
        request(b"abc", u64::MAX).rep(stub()).unrep(),
        Err(DataError::TimeTravel { .. }),
    ));
    let mut foreign = request(b"abc", 5000).rep(stub());
    foreign.value = b"abd".to_vec();
    assert!(matches!(foreign.unrep(), Err(DataError::HashMismatch { .. })));
}

#[test]
fn the_outcome_of_a_search_comes_back() {
    let found = Store { key: key_hash(b"abc"), value: b"abc".to_vec() }.or_nodes();
    let message = found.clone().rep(stub());
    assert_eq!(Stub::try_from(&message).map(|s| s.id), Ok(77));
    assert_eq!(message.unrep(vec![]), Ok(found));
    let near = Nodes { nodes: vec![node(3)] }.or_store();
    let message = near.clone().rep(stub());
    assert_eq!(Stub::try_from(&message).map(|s| s.id), Ok(77));
    assert_eq!(message.unrep(vec![Ok(())]), Ok(near));
    assert_eq!(
        proto::StoreOrNodes { oneof: None }.unrep(vec![]),
        Err::<StoreOrNodes, DataError>(DataError::MissingField(
            "missing store or node".to_string(),
        )),
    );
}

#[test]
fn message_errors_are_shown() {
    assert_eq!(DataError::InvalidIp("x".to_string()).to_string(), "Invalid IP address: x");
    assert_eq!(DataError::InvalidPort("x".to_string()).to_string(), "Invalid port: x");
    assert_eq!(
        DataError::InvalidIdLength(3).to_string(),
        "Invalid ID length: expected 16 bytes, got 3 bytes",
    );
    assert_eq!(DataError::MissingField("x".to_string()).to_string(), "Missing field: x");
    assert_eq!(
        DataError::HashMismatch { expected: 1, actual: 2 }.to_string(),
        "HashMismatch: expected 1, got 2 bytes",
    );
    assert_eq!(
        DataError::TimeTravel {
            now: Timestamp::from_millis(1000),
            received: Timestamp::from_millis(2500),
        }
        .to_string(),
        "Future timestamp: now SystemTime { tv_sec: 1, tv_nsec: 0 }, \
         received SystemTime { tv_sec: 2, tv_nsec: 500000000 }",
    );
}

#[test]
fn a_value_is_shown_behind_its_key() {
    assert_eq!(Store { key: 5, value: b"hi".to_vec() }.to_string(), "5: hi");
    assert_eq!(Store { key: 5, value: vec![255] }.to_string(), "5: [255]");
}

#[test]
fn stubs_and_nodes_are_empty_by_default() {
    assert_eq!(Node::default(), Node { id: 0, ip: String::new(), port: 0 });
    assert_eq!((Stub::default().id, Stub::default().port), (0, 0));
}
