//! Lists of nodes in the order of their distance from a key.

use vstd::multiset::Multiset;
use vstd::prelude::*;
use vstd::seq_lib::{to_multiset_insert, to_multiset_remove};

use crate::data::Node;

verus! {

/// How far a node is from a key.
pub open spec fn far(node: Node, key: u128) -> u128 {
    node.id ^ key
}

/// Whether a list goes from close to far.
pub open spec fn by_distance(nodes: Seq<Node>, key: u128) -> bool {
    forall|i: int, j: int|
        0 <= i <= j < nodes.len() ==> far(#[trigger] nodes[i], key) <= far(
            #[trigger] nodes[j],
            key,
        )
}

/// How many nodes at the start of a list are closer to the key than `distance`.
pub open spec fn closer(nodes: Seq<Node>, distance: u128, key: u128) -> nat
    decreases nodes.len(),
{
    if nodes.len() == 0 || far(nodes[0], key) >= distance {
        0
    } else {
        1 + closer(nodes.drop_first(), distance, key)
    }
}

/// What `closer` counts in a list that goes from close to far: all nodes before the position are
/// closer, and none from it on.
pub proof fn closer_divides(nodes: Seq<Node>, distance: u128, key: u128)
    ensures
        closer(nodes, distance, key) <= nodes.len(),
        forall|i: int|
            0 <= i < closer(nodes, distance, key) ==> far(#[trigger] nodes[i], key) < distance,
        closer(nodes, distance, key) < nodes.len() ==> far(
            nodes[closer(nodes, distance, key) as int],
            key,
        ) >= distance,
        by_distance(nodes, key) ==> forall|i: int|
            closer(nodes, distance, key) <= i < nodes.len() ==> far(#[trigger] nodes[i], key)
                >= distance,
    decreases nodes.len(),
{
    if nodes.len() > 0 && far(nodes[0], key) < distance {
        let rest = nodes.drop_first();
        closer_divides(rest, distance, key);
        assert forall|i: int| 0 <= i < closer(nodes, distance, key) implies far(
            #[trigger] nodes[i],
            key,
        ) < distance by {
            if i > 0 {
                assert(nodes[i] == rest[i - 1]);
            }
        }
    }
}

/// A list with a node added in its place: behind all closer ones, before all others.
pub open spec fn placed(nodes: Seq<Node>, node: Node, key: u128) -> Seq<Node> {
    nodes.insert(closer(nodes, far(node, key), key) as int, node)
}

/// Adding a node in its place keeps the order.
pub proof fn placed_in_order(nodes: Seq<Node>, node: Node, key: u128)
    requires
        by_distance(nodes, key),
    ensures
        by_distance(placed(nodes, node, key), key),
        placed(nodes, node, key).len() == nodes.len() + 1,
        placed(nodes, node, key).to_multiset() == nodes.to_multiset().insert(node),
{
    let at = closer(nodes, far(node, key), key) as int;
    closer_divides(nodes, far(node, key), key);
    to_multiset_insert(nodes, at, node);
    let list = placed(nodes, node, key);
    assert forall|i: int, j: int| 0 <= i <= j < list.len() implies far(#[trigger] list[i], key)
        <= far(#[trigger] list[j], key) by {
        let a = if i <= at { i } else { i - 1 };
        let b = if j <= at { j } else { j - 1 };
        assert(i != at ==> list[i] == nodes[a]);
        assert(j != at ==> list[j] == nodes[b]);
    }
}

/// Adds a node in its place.
pub fn place(nodes: &mut Vec<Node>, node: Node, key: u128)
    requires
        by_distance(old(nodes)@, key),
    ensures
        final(nodes)@ == placed(old(nodes)@, node, key),
        by_distance(final(nodes)@, key),
{
    let distance: u128 = node.id ^ key;
    let mut at: usize = 0;
    let ghost whole = closer(nodes@, distance, key);
    assert(nodes@.skip(0) =~= nodes@);
    while at < nodes.len() && nodes[at].id ^ key < distance
        invariant
            at <= nodes@.len(),
            nodes@ == old(nodes)@,
            whole == at + closer(nodes@.skip(at as int), distance, key),
        decreases nodes@.len() - at,
    {
        assert(nodes@.skip(at as int).drop_first() =~= nodes@.skip(at + 1));
        at = at + 1;
    }
    proof {
        placed_in_order(nodes@, node, key);
    }
    nodes.insert(at, node);
}

/// Puts a list in the order of distance.
pub fn sort_by_distance(nodes: Vec<Node>, key: u128) -> (sorted: Vec<Node>)
    ensures
        by_distance(sorted@, key),
        sorted@.to_multiset() == nodes@.to_multiset(),
        sorted@.len() == nodes@.len(),
{
    let mut left: Vec<Node> = nodes;
    let mut sorted: Vec<Node> = Vec::new();
    proof {
        nodes@.to_multiset_ensures();
        sorted@.to_multiset_ensures();
        assert(sorted@.to_multiset().add(left@.to_multiset()) =~= nodes@.to_multiset());
    }
    while left.len() > 0
        invariant
            by_distance(sorted@, key),
            sorted@.len() + left@.len() == nodes@.len(),
            sorted@.to_multiset().add(left@.to_multiset()) == nodes@.to_multiset(),
        decreases left@.len(),
    {
        let ghost before = left@;
        let ghost done = sorted@;
        let node: Node = left.remove(0);
        proof {
            to_multiset_remove(before, 0);
            before.to_multiset_ensures();
            assert(before.contains(before[0]));
            placed_in_order(done, node, key);
        }
        place(&mut sorted, node, key);
        assert(sorted@.to_multiset().add(left@.to_multiset()) =~= done.to_multiset().add(
            before.to_multiset(),
        ));
    }
    proof {
        left@.to_multiset_ensures();
        assert(left@.to_multiset() =~= Multiset::<Node>::empty());
        assert(sorted@.to_multiset() =~= nodes@.to_multiset());
    }
    sorted
}

/// Whether `chosen` are the `count` nodes of `all` that are nearest to the key: all of them, in
/// their order, where there are no more, else `count` of them such that no other is nearer.
pub open spec fn nearest_of(chosen: Seq<Node>, all: Seq<Node>, key: u128, count: nat) -> bool {
    if all.len() <= count {
        chosen == all
    } else {
        &&& chosen.len() == count
        &&& chosen.to_multiset().subset_of(all.to_multiset())
        &&& forall|a: Node, b: Node|
            #![trigger chosen.to_multiset().count(a), all.to_multiset().count(b)]
            chosen.to_multiset().count(a) > 0 && all.to_multiset().count(b)
                > chosen.to_multiset().count(b) ==> far(a, key) <= far(b, key)
    }
}

/// Chooses the nodes that are nearest to a key.
pub fn choose_nearest(all: Vec<Node>, key: u128, count: usize) -> (chosen: Vec<Node>)
    ensures
        nearest_of(chosen@, all@, key, count as nat),
{
    if all.len() <= count {
        return all;
    }
    let mut chosen: Vec<Node> = sort_by_distance(all, key);
    let ghost sorted = chosen@;
    chosen.truncate(count);
    proof {
        let rest = sorted.skip(count as int);
        assert(sorted =~= chosen@ + rest);
        vstd::seq_lib::lemma_multiset_commutative(chosen@, rest);
        assert(sorted.to_multiset() =~= chosen@.to_multiset().add(rest.to_multiset()));
        chosen@.to_multiset_ensures();
        rest.to_multiset_ensures();
        assert forall|a: Node, b: Node|
            #![trigger chosen@.to_multiset().count(a), all@.to_multiset().count(b)]
            chosen@.to_multiset().count(a) > 0 && all@.to_multiset().count(b)
                > chosen@.to_multiset().count(b) implies far(a, key) <= far(b, key) by {
            assert(chosen@.contains(a));
            assert(rest.to_multiset().count(b) > 0);
            assert(rest.contains(b));
            let i = choose|i: int| 0 <= i < chosen@.len() && chosen@[i] == a;
            let j = choose|j: int| 0 <= j < rest.len() && rest[j] == b;
            assert(sorted[i] == a);
            assert(sorted[count + j] == b);
        }
    }
    chosen
}

/// A node is placed where it belongs: the list keeps its nodes in their order, unchanged, all that
/// stand before the node are nearer to the key, and none that stand behind it is. Near is told by
/// the exclusive or of identifier and key.
pub proof fn a_node_is_placed_where_it_belongs(nodes: Seq<Node>, node: Node, key: u128)
    requires
        by_distance(nodes, key),
    ensures
        exists|p: int|
            #![trigger nodes.take(p)]
            {
                &&& 0 <= p <= nodes.len()
                &&& placed(nodes, node, key) == nodes.take(p) + seq![node] + nodes.skip(p)
                &&& forall|i: int| 0 <= i < p ==> ((#[trigger] nodes[i]).id ^ key) < (node.id ^ key)
                &&& forall|i: int|
                    p <= i < nodes.len() ==> ((#[trigger] nodes[i]).id ^ key) >= (node.id ^ key)
            },
{
    let p = closer(nodes, far(node, key), key) as int;
    closer_divides(nodes, far(node, key), key);
    assert(placed(nodes, node, key) =~= nodes.take(p) + seq![node] + nodes.skip(p));
    assert forall|i: int| 0 <= i < p implies ((#[trigger] nodes[i]).id ^ key) < (node.id
        ^ key) by {
        assert(far(nodes[i], key) < far(node, key));
    }
    assert forall|i: int| p <= i < nodes.len() implies ((#[trigger] nodes[i]).id ^ key) >= (node.id
        ^ key) by {
        assert(far(nodes[i], key) >= far(node, key));
    }
}

/// A list that goes from close to far has no node behind a farther one.
pub proof fn close_nodes_stand_first(nodes: Seq<Node>, key: u128)
    ensures
        by_distance(nodes, key) <==> forall|i: int, j: int|
            0 <= i < j < nodes.len() ==> ((#[trigger] nodes[i]).id ^ key) <= ((
            #[trigger] nodes[j]).id ^ key),
{
    if forall|i: int, j: int|
        0 <= i < j < nodes.len() ==> ((#[trigger] nodes[i]).id ^ key) <= ((#[trigger] nodes[j]).id
            ^ key) {
        assert forall|i: int, j: int| 0 <= i <= j < nodes.len() implies far(#[trigger] nodes[i], key)
            <= far(#[trigger] nodes[j], key) by {
            if i < j {
                assert((nodes[i].id ^ key) <= (nodes[j].id ^ key));
            }
        }
    }
    if by_distance(nodes, key) {
        assert forall|i: int, j: int| 0 <= i < j < nodes.len() implies ((#[trigger] nodes[i]).id
            ^ key) <= ((#[trigger] nodes[j]).id ^ key) by {
            assert(far(nodes[i], key) <= far(nodes[j], key));
        }
    }
}

/// The nearest of a list are nodes of the list, unchanged and none more often than there; as many
/// as are asked for, or all in their order where there are no more; and nobody left out is nearer
/// than one of them.
pub proof fn the_nearest_are_chosen(chosen: Seq<Node>, all: Seq<Node>, key: u128, count: nat)
    requires
        nearest_of(chosen, all, key, count),
    ensures
        chosen.len() == if all.len() < count {
            all.len()
        } else {
            count
        },
        all.len() <= count ==> chosen == all,
        chosen.to_multiset().subset_of(all.to_multiset()),
        forall|i: int| 0 <= i < chosen.len() ==> all.contains(#[trigger] chosen[i]),
        forall|a: Node, b: Node| #[trigger]
            chosen.contains(a) && #[trigger] all.contains(b) && !chosen.contains(b) ==> (a.id ^ key)
                <= (b.id ^ key),
{
    chosen.to_multiset_ensures();
    all.to_multiset_ensures();
    assert forall|i: int| 0 <= i < chosen.len() implies all.contains(#[trigger] chosen[i]) by {
        assert(chosen.contains(chosen[i]));
        assert(chosen.to_multiset().count(chosen[i]) > 0);
        assert(all.to_multiset().count(chosen[i]) > 0);
    }
    assert forall|a: Node, b: Node| #[trigger]
        chosen.contains(a) && #[trigger] all.contains(b) && !chosen.contains(b) implies (a.id ^ key)
        <= (b.id ^ key) by {
        assert(chosen.to_multiset().count(a) > 0);
        assert(all.to_multiset().count(b) > 0);
        assert(chosen.to_multiset().count(b) == 0);
        assert(far(a, key) <= far(b, key));
    }
}

} // verus!
