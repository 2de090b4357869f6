use tokad::clock::Timestamp;
use tokad::data::{Node, Nodes, Store, StoreOrNodes};
use tokad::lookup::{Lookup, ValueReply, ValueSearch, ValueStep};
use tokad::tokad::State;

fn node(id: u128) -> Node {
    Node { id, ip: "10.0.0.1".to_string(), port: 4000 }
}

fn ids(nodes: &[Node]) -> Vec<u128> {
    nodes.iter().map(|n| n.id).collect()
}

fn state(known: &[u128]) -> State {
    let mut state = State::new(0x100, 4000, Timestamp { nanos: 0 }, &vec![0; 32]);
    for id in known {
        state.refresh(node(*id));
    }
    state
}

/// A network in which each node knows some others.
fn neighbours(id: u128) -> Vec<Node> {
    (1..=6).map(|i| node((id * 7 + i * 3) % 64 + 1)).collect()
}

fn run(search: &mut Lookup, asks: Vec<Node>, dead: &[u128]) -> Vec<u128> {
    let mut open = asks;
    let mut asked = Vec::new();
    while !search.is_done() {
        let next = open.remove(0);
        asked.push(next.id);
        let reply = if dead.contains(&next.id) { None } else { Some(neighbours(next.id)) };
        open.extend(search.on_reply(next, reply));
        assert_eq!(open.len(), search.under_way);
        assert!(search.under_way <= 3);
    }
    asked
}

#[test]
fn a_lonely_node_finds_itself() {
    let state = state(&[]);
    let (search, asks) = state.get_ref().lookup_node(5);
    assert!(asks.is_empty() && search.is_done());
    let found = search.conclude();
    assert_eq!(ids(&found), vec![0x100]);
    assert_eq!(found[0].ip, "::1");
}

#[test]
fn the_nearest_are_asked_first() {
    let state = state(&[1, 2, 4, 8, 16]);
    let (search, asks) = state.get_ref().lookup_node(5);
    assert_eq!(ids(&asks), vec![4, 1, 2]);
    assert_eq!(ids(&search.queue), vec![8]);
    assert_eq!(search.seen, vec![4, 1, 2, 8, 0x100]);
    assert_eq!(search.under_way, 3);
}

#[test]
fn an_answer_adds_new_nodes_in_their_place() {
    let state = state(&[1, 2, 4, 8, 16]);
    let (mut search, asks) = state.get_ref().lookup_node(5);
    let next = search.on_reply(asks[0].clone(), Some(vec![node(5), node(1), node(9), node(9)]));
    assert_eq!(ids(&next), vec![5]);
    assert_eq!(ids(&search.queue), vec![9, 8]);
    assert_eq!(ids(&search.finished), vec![4, 0x100]);
    assert_eq!(search.under_way, 3);
}

#[test]
fn a_failure_adds_nothing() {
    let state = state(&[1, 2, 4, 8, 16]);
    let (mut search, asks) = state.get_ref().lookup_node(5);
    let next = search.on_reply(asks[0].clone(), None);
    assert_eq!(ids(&next), vec![8]);
    assert_eq!(ids(&search.finished), vec![0x100]);
}

#[test]
fn a_node_beyond_those_that_answered_is_dropped() {
    let mut search = Lookup {
        key: 0,
        queue: vec![node(50), node(60)],
        seen: vec![1, 2, 3, 4, 5, 50, 60],
        finished: vec![node(1), node(2), node(3), node(4)],
        under_way: 2,
    };
    assert!(search.on_reply(node(5), None).is_empty());
    assert_eq!(ids(&search.queue), vec![60]);
    assert_eq!(search.under_way, 1);
    assert!(search.on_reply(node(6), None).is_empty());
    assert!(search.is_done());
    assert_eq!(ids(&search.conclude()), vec![1, 2, 3, 4]);
}

#[test]
fn every_lookup_ends_and_asks_nobody_twice() {
    for key in [0u128, 5, 33, 64, 0xffff] {
        let state = state(&[1, 9, 17, 40]);
        let (mut search, asks) = state.get_ref().lookup_node(key);
        let mut asked = run(&mut search, asks, &[9, 30, 31]);
        let count = asked.len();
        asked.sort();
        asked.dedup();
        assert_eq!(asked.len(), count);
        assert!(!asked.contains(&0x100));
        let found = search.conclude();
        assert!(found.len() <= 4);
        assert!(found.windows(2).all(|w| w[0].id ^ key < w[1].id ^ key));
        assert!(found.iter().all(|n| n.id == 0x100 || asked.contains(&n.id)));
        assert!(found.iter().all(|n| ![9, 30, 31].contains(&n.id)));
    }
}

#[test]
fn nobody_nearer_that_was_heard_of_is_left_out() {
    let key = 20;
    let state = state(&[1, 9, 17, 40]);
    let (mut search, asks) = state.get_ref().lookup_node(key);
    run(&mut search, asks, &[]);
    let seen = search.seen.clone();
    let found = ids(&search.conclude());
    assert_eq!(found.len(), 4);
    let farthest = found.iter().map(|id| id ^ key).max().unwrap();
    for id in seen {
        assert!(found.contains(&id) || id ^ key > farthest);
    }
}

#[test]
fn a_value_kept_here_is_found_at_once() {
    let mut state = state(&[1]);
    state.local_store(5, b"v".to_vec());
    match state.get_ref().lookup_value(5) {
        ValueSearch::Found(found) => {
            assert_eq!(found, StoreOrNodes::Store(Store { key: 5, value: b"v".to_vec() }));
        }
        ValueSearch::Search(..) => panic!("not found"),
    }
}

#[test]
fn a_value_found_elsewhere_ends_the_search() {
    let state = state(&[1, 2, 4, 8, 16]);
    let (mut search, asks) = match state.get_ref().lookup_value(5) {
        ValueSearch::Search(search, asks) => (search, asks),
        ValueSearch::Found(_) => panic!("found"),
    };
    let near = StoreOrNodes::Nodes(Nodes { nodes: vec![node(5)] });
    match search.on_value_reply(asks[0].clone(), ValueReply::Answer(near)) {
        ValueStep::Ask(next) => assert_eq!(ids(&next), vec![5]),
        ValueStep::Found(_) => panic!("found"),
    }
    match search.on_value_reply(asks[1].clone(), ValueReply::Failed) {
        ValueStep::Ask(next) => assert_eq!(ids(&next), vec![8]),
        ValueStep::Found(_) => panic!("found"),
    }
    let value = StoreOrNodes::Store(Store { key: 5, value: b"v".to_vec() });
    match search.on_value_reply(node(5), ValueReply::Answer(value.clone())) {
        ValueStep::Found(found) => assert_eq!(found, value),
        ValueStep::Ask(_) => panic!("not found"),
    }
}

#[test]
fn a_value_that_nobody_has_gives_the_nearest_nodes() {
    let state = state(&[1]);
    let (mut search, asks) = match state.get_ref().lookup_value(5) {
        ValueSearch::Search(search, asks) => (search, asks),
        ValueSearch::Found(_) => panic!("found"),
    };
    let none = StoreOrNodes::Nodes(Nodes { nodes: vec![] });
    search.on_value_reply(asks[0].clone(), ValueReply::Answer(none));
    assert!(search.is_done());
    match search.conclude_value() {
        StoreOrNodes::Nodes(nodes) => assert_eq!(ids(&nodes.nodes), vec![1, 0x100]),
        StoreOrNodes::Store(_) => panic!("found"),
    }
}

#[test]
fn a_whole_search_remembers_and_leaves_out_only_the_farther() {
    for key in [0u128, 20, 0x101, 0xffff] {
        let state = state(&[1, 9, 17, 40]);
        let (mut search, asks) = state.get_ref().lookup_node(key);
        let asked = run(&mut search, asks, &[17, 22]);
        for id in [1, 9, 17, 40, 0x100] {
            assert!(search.seen.contains(&id));
        }
        let answered: Vec<u128> =
            asked.iter().copied().filter(|id| ![17, 22].contains(id)).collect();
        for id in &answered {
            assert!(neighbours(*id).iter().all(|n| search.seen.contains(&n.id)));
        }
        let found = search.conclude();
        assert!(!found.is_empty());
        let farthest = found.iter().map(|n| n.id ^ key).max().unwrap();
        for id in answered.into_iter().chain([0x100]) {
            assert!(ids(&found).contains(&id) || (found.len() == 4 && id ^ key > farthest));
        }
        for n in found.iter().filter(|n| n.id == 0x100) {
            assert_eq!((n.ip.as_str(), n.port), ("::1", 4000));
        }
    }
}
