use tokad::clock::Timestamp;
use tokad::data::Node;
use tokad::order::{choose_nearest, place, sort_by_distance};
use tokad::routing::{bucket_index, bucket_range};
use tokad::table::Probe;
use tokad::tokad::{State, K};

fn node(id: u128) -> Node {
    Node { id, ip: "10.0.0.1".to_string(), port: 4000 }
}

fn state(id: u128) -> State {
    State::new(id, 4000, Timestamp { nanos: 0 }, &vec![0; 32])
}

fn ids(nodes: &[Node]) -> Vec<u128> {
    nodes.iter().map(|n| n.id).collect()
}

#[test]
fn buckets_go_by_leading_bits() {
    assert_eq!(bucket_index(0x8000_0000), 0);
    assert_eq!(bucket_index(0xffff_ffff), 0);
    assert_eq!(bucket_index(0x7fff_ffff), 1);
    assert_eq!(bucket_index(1), 31);
    assert_eq!(bucket_index(2), 30);
}

#[test]
fn a_bucket_range_holds_its_bucket_exactly() {
    assert_eq!(bucket_range(0, 0), (0x8000_0000, 0xffff_ffff));
    assert_eq!(bucket_range(0, 31), (1, 1));
    assert_eq!(bucket_range(0xffff_ffff, 0), (0, 0x7fff_ffff));
    assert_eq!(bucket_range(0x1234_5678, 4), (0x1800_0000, 0x1fff_ffff));
    for bid in 0..32 {
        let (first, last) = bucket_range(0x1234_5678, bid);
        assert_eq!(bucket_index(first ^ 0x1234_5678), bid);
        assert_eq!(bucket_index(last ^ 0x1234_5678), bid);
    }
}

#[test]
fn a_node_is_placed_behind_closer_ones() {
    let mut nodes = vec![node(1), node(4), node(8)];
    place(&mut nodes, node(5), 0);
    assert_eq!(ids(&nodes), vec![1, 4, 5, 8]);
    let mut twin = node(4);
    twin.port = 1;
    place(&mut nodes, twin, 0);
    assert_eq!(ids(&nodes), vec![1, 4, 4, 5, 8]);
    assert_eq!(nodes[1].port, 1);
}

#[test]
fn nodes_are_sorted_by_distance() {
    let sorted = sort_by_distance(vec![node(1), node(2), node(3), node(4)], 3);
    assert_eq!(ids(&sorted), vec![3, 2, 1, 4]);
}

#[test]
fn the_nearest_are_chosen() {
    let few = vec![node(9), node(1), node(5)];
    assert_eq!(choose_nearest(few.clone(), 0, 4), few);
    let mut chosen = ids(&choose_nearest(
        vec![node(9), node(1), node(5), node(2), node(12), node(7)], 0, 4,
    ));
    chosen.sort();
    assert_eq!(chosen, vec![1, 2, 5, 7]);
}

#[test]
fn a_heard_node_stands_last_in_its_bucket() {
    let mut state = state(0);
    assert!(state.refresh(node(0x8000_0001)).is_none());
    assert!(state.refresh(node(0x8000_0002)).is_none());
    assert!(state.refresh(node(0x8000_0001)).is_none());
    assert_eq!(ids(&state.buckets[0]), vec![0x8000_0002, 0x8000_0001]);
    assert!(state.refresh(node(1)).is_none());
    assert_eq!(ids(&state.buckets[31]), vec![1]);
}

#[test]
fn a_known_node_keeps_its_old_address() {
    let mut state = state(0);
    state.refresh(node(1));
    let mut moved = node(1);
    moved.port = 9;
    state.refresh(moved);
    assert_eq!(state.buckets[31][0].port, 4000);
}

#[test]
fn a_node_does_not_note_itself_or_the_nameless() {
    let mut state = state(5);
    assert!(state.refresh(node(5)).is_none());
    assert!(state.refresh(node(0)).is_none());
    state.retire(node(5));
    state.retire(node(0));
    assert!(state.buckets.iter().all(|b| b.is_empty()));
}

#[test]
fn a_retired_node_is_gone() {
    let mut state = state(0);
    state.refresh(node(0x8000_0001));
    state.refresh(node(0x8000_0002));
    state.retire(node(0x8000_0001));
    state.retire(node(0x8000_0007));
    assert_eq!(ids(&state.buckets[0]), vec![0x8000_0002]);
}

#[test]
fn a_full_bucket_prefers_old_nodes_that_live() {
    let mut state = state(0);
    for i in 1..=4 {
        state.refresh(node(0x8000_0000 + i));
    }
    assert_eq!(state.buckets[0].len(), K);
    let probe = state.refresh(node(0x8000_0009)).unwrap();
    assert_eq!((probe.node.id, probe.test.id), (0x8000_0009, 0x8000_0001));
    assert_eq!(
        ids(&state.buckets[0]),
        vec![0x8000_0002, 0x8000_0003, 0x8000_0004, 0x8000_0001],
    );
    state.settle(probe, true);
    assert_eq!(
        ids(&state.buckets[0]),
        vec![0x8000_0002, 0x8000_0003, 0x8000_0004, 0x8000_0001],
    );
    let probe = state.refresh(node(0x8000_0009)).unwrap();
    assert_eq!(probe.test.id, 0x8000_0002);
    state.settle(probe, false);
    assert_eq!(
        ids(&state.buckets[0]),
        vec![0x8000_0003, 0x8000_0004, 0x8000_0001, 0x8000_0009],
    );
}

#[test]
fn a_tested_node_that_left_makes_room() {
    let mut state = state(0);
    for i in 1..=4 {
        state.refresh(node(0x8000_0000 + i));
    }
    let probe = state.refresh(node(0x8000_0009)).unwrap();
    state.retire(node(0x8000_0001));
    state.settle(probe, true);
    assert_eq!(
        ids(&state.buckets[0]),
        vec![0x8000_0002, 0x8000_0003, 0x8000_0004, 0x8000_0009],
    );
}

#[test]
fn a_node_may_come_twice_when_two_tests_cross() {
    let mut state = state(0);
    for i in 1..=4 {
        state.refresh(node(0x8000_0000 + i));
    }
    let first = state.refresh(node(0x8000_0009)).unwrap();
    let second = state.refresh(node(0x8000_0009)).unwrap();
    state.settle(first, false);
    state.settle(second, false);
    assert_eq!(ids(&state.buckets[0]).iter().filter(|id| **id == 0x8000_0009).count(), 2);
}

#[test]
fn a_full_bucket_turns_away_who_was_not_tested_in_time() {
    let mut state = state(0);
    for i in 1..=4 {
        state.refresh(node(0x8000_0000 + i));
    }
    let gone = Probe { node: node(0x8000_0009), test: node(0x8000_0008) };
    state.settle(gone, false);
    assert_eq!(
        ids(&state.buckets[0]),
        vec![0x8000_0001, 0x8000_0002, 0x8000_0003, 0x8000_0004],
    );
}

#[test]
fn the_nearest_known_nodes_come_from_all_buckets() {
    let mut state = state(0);
    for id in [1, 2, 4, 8, 16, 0x8000_0000] {
        state.refresh(node(id));
    }
    let mut near = ids(&state.nearest(0));
    near.sort();
    assert_eq!(near, vec![1, 2, 4, 8]);
    let mut far = ids(&state.nearest(0xffff_ffff));
    far.sort();
    assert_eq!(far, vec![4, 8, 16, 0x8000_0000]);
}
