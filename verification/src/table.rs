//! The routing table: which nodes it holds, and how it learns and forgets.

use vstd::prelude::*;

use crate::data::Node;
use crate::hash::{ID_BITS, ID_MASK};
use crate::order::{choose_nearest, nearest_of};
use crate::routing::{bucket_index, bucket_of, distance_range};
use crate::tokad::{all_nodes, bucket_ok, ids_differ, table_distinct, table_ok, State, K};

verus! {

/// Where an identifier first stands in a bucket; the length of the bucket where it does not.
pub open spec fn seat(bucket: Seq<Node>, id: u128) -> nat
    decreases bucket.len(),
{
    if bucket.len() == 0 || bucket[0].id == id {
        0
    } else {
        1 + seat(bucket.drop_first(), id)
    }
}

/// What `seat` finds.
pub proof fn seat_found(bucket: Seq<Node>, id: u128)
    ensures
        seat(bucket, id) <= bucket.len(),
        seat(bucket, id) < bucket.len() ==> bucket[seat(bucket, id) as int].id == id,
        forall|i: int| 0 <= i < seat(bucket, id) ==> (#[trigger] bucket[i]).id != id,
    decreases bucket.len(),
{
    if bucket.len() > 0 && bucket[0].id != id {
        let rest = bucket.drop_first();
        seat_found(rest, id);
        assert forall|i: int| 0 <= i < seat(bucket, id) implies (#[trigger] bucket[i]).id
            != id by {
            if i > 0 {
                assert(bucket[i] == rest[i - 1]);
            }
        }
    }
}

/// Whether an identifier stands in a bucket.
pub open spec fn holds(bucket: Seq<Node>, id: u128) -> bool {
    seat(bucket, id) < bucket.len()
}

/// A bucket without the first node of the given identifier.
pub open spec fn without(bucket: Seq<Node>, id: u128) -> Seq<Node> {
    if holds(bucket, id) {
        bucket.remove(seat(bucket, id) as int)
    } else {
        bucket
    }
}

/// A bucket in which the first node of the given identifier has moved to the end.
pub open spec fn moved_last(bucket: Seq<Node>, id: u128) -> Seq<Node> {
    let at = seat(bucket, id) as int;
    bucket.remove(at).push(bucket[at])
}

/// Whether an identifier can stand in the table of the node `id`: it is not its own, nor zero.
pub open spec fn foreign(id: u128, other: u128) -> bool {
    other != id && other != 0
}

/// A bucket after a node was heard of: a known node moves to the end with what was known of it, a
/// new one joins at the end while there is room, and where there is none the node at the front
/// goes to the end.
pub open spec fn heard(bucket: Seq<Node>, node: Node) -> Seq<Node> {
    if holds(bucket, node.id) {
        moved_last(bucket, node.id)
    } else if bucket.len() < K {
        bucket.push(node)
    } else {
        bucket.drop_first().push(bucket[0])
    }
}

/// A bucket after the node `test` was asked whether it is there, for the sake of `node`: if it
/// stands in the bucket, the one of the two that is to stay joins at the end in its place; if it
/// does not, `node` joins while there is room.
pub open spec fn settled(bucket: Seq<Node>, node: Node, test: Node, alive: bool) -> Seq<Node> {
    if holds(bucket, test.id) {
        without(bucket, test.id).push(
            if alive {
                test
            } else {
                node
            },
        )
    } else if bucket.len() < K {
        bucket.push(node)
    } else {
        bucket
    }
}

/// The table after a node was found to be gone.
pub open spec fn table_retired(id: u128, table: Seq<Seq<Node>>, gone: u128) -> Seq<Seq<Node>> {
    if foreign(id, gone) {
        let b = bucket_of(id, gone);
        table.update(b, without(table[b], gone))
    } else {
        table
    }
}

/// The table after a node was heard of.
pub open spec fn table_heard(id: u128, table: Seq<Seq<Node>>, node: Node) -> Seq<Seq<Node>> {
    if foreign(id, node.id) {
        let b = bucket_of(id, node.id);
        table.update(b, heard(table[b], node))
    } else {
        table
    }
}

/// The node to ask whether it is still there, so that the bucket may have room for `node`: the
/// front of a full bucket that does not hold `node`.
pub open spec fn doubted(id: u128, table: Seq<Seq<Node>>, node: Node) -> Option<Node> {
    if foreign(id, node.id) {
        let bucket = table[bucket_of(id, node.id)];
        if !holds(bucket, node.id) && bucket.len() >= K {
            Some(bucket[0])
        } else {
            None
        }
    } else {
        None
    }
}

/// Two nodes that want the same place in a bucket: `node`, which was heard of, and `test`, which
/// has been there longest and is to be asked whether it is still there.
#[derive(Debug)]
pub struct Probe {
    pub node: Node,
    pub test: Node,
}

impl Probe {
    /// Whether the two belong in the same bucket of the node `id`.
    pub open spec fn fits(&self, id: u128) -> bool {
        &&& foreign(id, self.node.id)
        &&& self.node.id <= ID_MASK
        &&& foreign(id, self.test.id)
        &&& self.test.id <= ID_MASK
        &&& bucket_of(id, self.node.id) == bucket_of(id, self.test.id)
    }
}

fn find_seat(bucket: &Vec<Node>, id: u128) -> (at: usize)
    ensures
        at == seat(bucket@, id),
        at <= bucket@.len(),
{
    let mut at: usize = 0;
    assert(bucket@.skip(0) =~= bucket@);
    while at < bucket.len() && bucket[at].id != id
        invariant
            at <= bucket@.len(),
            seat(bucket@, id) == at + seat(bucket@.skip(at as int), id),
        decreases bucket@.len() - at,
    {
        assert(bucket@.skip(at as int).drop_first() =~= bucket@.skip(at + 1));
        at = at + 1;
    }
    at
}

fn place_of(id: u128, other: u128) -> (bid: usize)
    requires
        id <= ID_MASK,
        other <= ID_MASK,
        other != id,
    ensures
        bid == bucket_of(id, other),
        bid < ID_BITS,
{
    proof {
        distance_range(id, other);
    }
    bucket_index(other ^ id)
}

impl State {
    /// The nodes of the table that are nearest to a key: at most as many as a bucket has room
    /// for.
    pub fn nearest(&self, key: u128) -> (nodes: Vec<Node>)
        ensures
            nearest_of(nodes@, all_nodes(self.table()), key, K as nat),
    {
        let mut nodes: Vec<Node> = Vec::new();
        let mut b: usize = 0;
        assert(nodes@ =~= all_nodes(self.table().take(0)));
        while b < self.buckets.len()
            invariant
                b <= self.buckets@.len(),
                nodes@ == all_nodes(self.table().take(b as int)),
            decreases self.buckets@.len() - b,
        {
            let bucket: &Vec<Node> = &self.buckets[b];
            let ghost before = nodes@;
            let mut i: usize = 0;
            assert(before + bucket@.take(0) =~= before);
            while i < bucket.len()
                invariant
                    i <= bucket@.len(),
                    nodes@ == before + bucket@.take(i as int),
                decreases bucket@.len() - i,
            {
                nodes.push(bucket[i].clone());
                i = i + 1;
                assert(bucket@.take(i as int) =~= bucket@.take(i - 1).push(bucket@[i - 1]));
                assert(nodes@ =~= before + bucket@.take(i as int));
            }
            proof {
                let longer = self.table().take(b + 1);
                assert(longer.drop_last() =~= self.table().take(b as int));
                assert(bucket@.take(bucket@.len() as int) =~= bucket@);
            }
            b = b + 1;
        }
        assert(self.table().take(self.buckets@.len() as int) =~= self.table());
        choose_nearest(nodes, key, K)
    }

    /// Forgets a node that is gone.
    pub fn retire(&mut self, node: Node)
        requires
            old(self).wf(),
            node.id <= ID_MASK,
        ensures
            final(self).wf(),
            final(self).table() == table_retired(old(self).id, old(self).table(), node.id),
            final(self).same_but_table(old(self)),
    {
        if node.id == self.id || node.id == 0 {
            return ;
        }
        let bid: usize = place_of(self.id, node.id);
        let ghost before = self.table();
        let at: usize = find_seat(&self.buckets[bid], node.id);
        if at < self.buckets[bid].len() {
            self.buckets[bid].remove(at);
        }
        proof {
            let after = self.table();
            assert(after =~= before.update(bid as int, without(before[bid as int], node.id)));
            retire_keeps_table(self.id, before, node.id);
        }
    }

    /// Notes that a node was heard of. Where there is no room for it, the answer names the node
    /// to ask whether it is still there, and `settle` takes its answer.
    pub fn refresh(&mut self, node: Node) -> (probe: Option<Probe>)
        requires
            old(self).wf(),
            node.id <= ID_MASK,
        ensures
            final(self).wf(),
            final(self).table() == table_heard(old(self).id, old(self).table(), node),
            final(self).same_but_table(old(self)),
            match (probe, doubted(old(self).id, old(self).table(), node)) {
                (Some(probe), Some(test)) => {
                    &&& probe.node == node
                    &&& probe.test == test
                    &&& probe.fits(old(self).id)
                },
                (None, None) => true,
                _ => false,
            },
    {
        if node.id == self.id || node.id == 0 {
            return None;
        }
        let bid: usize = place_of(self.id, node.id);
        let ghost before = self.table();
        proof {
            refresh_keeps_table(self.id, before, node);
        }
        let at: usize = find_seat(&self.buckets[bid], node.id);
        if at < self.buckets[bid].len() {
            let known: Node = self.buckets[bid].remove(at);
            self.buckets[bid].push(known);
            assert(self.table() =~= before.update(bid as int, heard(before[bid as int], node)));
            return None;
        }
        if self.buckets[bid].len() < K {
            self.buckets[bid].push(node);
            assert(self.table() =~= before.update(bid as int, heard(before[bid as int], node)));
            return None;
        }
        let front: Node = self.buckets[bid].remove(0);
        let test: Node = front.clone();
        self.buckets[bid].push(front);
        proof {
            let bucket = before[bid as int];
            assert(bucket_ok(self.id, bid as int, bucket));
            assert(bucket[0] == test);
            assert(bucket.remove(0) =~= bucket.drop_first());
            distance_range(self.id, test.id);
            assert(self.table() =~= before.update(bid as int, heard(bucket, node)));
        }
        Some(Probe { node, test })
    }

    /// Takes the answer to a probe: whether the node that was asked is still there.
    pub fn settle(&mut self, probe: Probe, alive: bool)
        requires
            old(self).wf(),
            probe.fits(old(self).id),
        ensures
            final(self).wf(),
            final(self).table() == table_settled(old(self).id, old(self).table(), probe, alive),
            final(self).same_but_table(old(self)),
    {
        let Probe { node, test } = probe;
        let bid: usize = place_of(self.id, node.id);
        let ghost before = self.table();
        let ghost joining = node;
        let ghost asked = test;
        proof {
            settle_keeps_table(self.id, before, probe, alive);
        }
        let at: usize = find_seat(&self.buckets[bid], test.id);
        if at < self.buckets[bid].len() {
            self.buckets[bid].remove(at);
            if alive {
                self.buckets[bid].push(test);
            } else {
                self.buckets[bid].push(node);
            }
        } else if self.buckets[bid].len() < K {
            self.buckets[bid].push(node);
        }
        assert(self.table() =~= before.update(
            bid as int,
            settled(before[bid as int], joining, asked, alive),
        ));
    }

    /// Whether two states differ in their tables at most.
    pub open spec fn same_but_table(&self, other: &State) -> bool {
        &&& self.id == other.id
        &&& self.port == other.port
        &&& self.refresh == other.refresh
        &&& self.store == other.store
        &&& self.start_time == other.start_time
    }
}

/// The table after the answer to a probe.
pub open spec fn table_settled(
    id: u128,
    table: Seq<Seq<Node>>,
    probe: Probe,
    alive: bool,
) -> Seq<Seq<Node>> {
    let b = bucket_of(id, probe.node.id);
    table.update(b, settled(table[b], probe.node, probe.test, alive))
}

// ---------------------------------------------------------------------------------------------
// Laws
// ---------------------------------------------------------------------------------------------

proof fn lemma_foreign_bucket(id: u128, other: u128)
    requires
        id <= ID_MASK,
        other <= ID_MASK,
        foreign(id, other),
    ensures
        0 <= bucket_of(id, other) < ID_BITS,
{
    distance_range(id, other);
    crate::routing::bucket_in_range(id ^ other);
}

/// Forgetting a node keeps the table in order: no bucket has too many nodes or one that belongs
/// elsewhere, and where no identifier stood twice in a bucket, none does.
pub proof fn retire_keeps_table(id: u128, table: Seq<Seq<Node>>, gone: u128)
    requires
        id <= ID_MASK,
        gone <= ID_MASK,
        table_ok(id, table),
    ensures
        table_ok(id, table_retired(id, table, gone)),
        table_distinct(table) ==> table_distinct(table_retired(id, table, gone)),
{
    if foreign(id, gone) {
        lemma_foreign_bucket(id, gone);
        let b = bucket_of(id, gone);
        assert(bucket_ok(id, b, table[b]));
        seat_found(table[b], gone);
    }
}

/// Hearing of a node keeps the table in order.
pub proof fn refresh_keeps_table(id: u128, table: Seq<Seq<Node>>, node: Node)
    requires
        id <= ID_MASK,
        node.id <= ID_MASK,
        table_ok(id, table),
    ensures
        table_ok(id, table_heard(id, table, node)),
        table_distinct(table) ==> table_distinct(table_heard(id, table, node)),
{
    if foreign(id, node.id) {
        lemma_foreign_bucket(id, node.id);
        let b = bucket_of(id, node.id);
        assert(bucket_ok(id, b, table[b]));
        seat_found(table[b], node.id);
        assert(table_distinct(table) ==> ids_differ(table[b]));
    }
}

/// The answer to a probe keeps the table in order. That no identifier stands twice is kept unless
/// the probed node is gone and the other one has come into the bucket in the meantime.
pub proof fn settle_keeps_table(id: u128, table: Seq<Seq<Node>>, probe: Probe, alive: bool)
    requires
        id <= ID_MASK,
        table_ok(id, table),
        probe.fits(id),
    ensures
        table_ok(id, table_settled(id, table, probe, alive)),
        table_distinct(table) && !holds(table[bucket_of(id, probe.node.id)], probe.node.id)
            ==> table_distinct(table_settled(id, table, probe, alive)),
        table_distinct(table) && alive && holds(
            table[bucket_of(id, probe.node.id)],
            probe.test.id,
        ) ==> table_distinct(table_settled(id, table, probe, alive)),
{
    lemma_foreign_bucket(id, probe.node.id);
    let b = bucket_of(id, probe.node.id);
    assert(bucket_ok(id, b, table[b]));
    seat_found(table[b], probe.test.id);
    seat_found(table[b], probe.node.id);
    assert(table_distinct(table) ==> ids_differ(table[b]));
}

/// A node that was heard of stands last in its bucket, unless the bucket is full and did not
/// hold it.
pub proof fn heard_node_stands_last(id: u128, table: Seq<Seq<Node>>, node: Node)
    requires
        id <= ID_MASK,
        node.id <= ID_MASK,
        table_ok(id, table),
        foreign(id, node.id),
        doubted(id, table, node) is None,
    ensures
        ({
            let bucket = table_heard(id, table, node)[bucket_of(id, node.id)];
            bucket.len() > 0 && bucket.last().id == node.id && holds(bucket, node.id)
        }),
{
    lemma_foreign_bucket(id, node.id);
    let b = bucket_of(id, node.id);
    seat_found(table[b], node.id);
    let bucket = table_heard(id, table, node)[b];
    seat_found(bucket, node.id);
    if !holds(bucket, node.id) {
        assert(bucket[bucket.len() - 1].id != node.id);
    }
}

/// A node that was retired does not stand in its bucket any more, if it stood there once at most.
pub proof fn retired_node_is_gone(id: u128, table: Seq<Seq<Node>>, gone: u128)
    requires
        id <= ID_MASK,
        gone <= ID_MASK,
        table_ok(id, table),
        table_distinct(table),
        foreign(id, gone),
    ensures
        !holds(table_retired(id, table, gone)[bucket_of(id, gone)], gone),
{
    lemma_foreign_bucket(id, gone);
    let b = bucket_of(id, gone);
    assert(ids_differ(table[b]));
    seat_found(table[b], gone);
    let at = seat(table[b], gone) as int;
    let bucket = table_retired(id, table, gone)[b];
    seat_found(bucket, gone);
    if holds(bucket, gone) {
        let now = seat(bucket, gone) as int;
        let was = if now < at { now } else { now + 1 };
        assert(holds(table[b], gone));
        assert(bucket[now] == table[b][was]);
    }
}

/// A node that knows a full bucket keeps it while the nodes in it answer: a new node comes in
/// only for one that does not. With an answer, the bucket holds the same nodes as before; without
/// one, it holds the new node last, in place of the one that stood at the front.
pub proof fn full_bucket_prefers_old_nodes(bucket: Seq<Node>, node: Node)
    requires
        bucket.len() == K,
        ids_differ(bucket),
        !holds(bucket, node.id),
    ensures
        settled(heard(bucket, node), node, bucket[0], true) == bucket.drop_first().push(bucket[0]),
        settled(heard(bucket, node), node, bucket[0], false) == bucket.drop_first().push(node),
{
    let turned = heard(bucket, node);
    let test = bucket[0];
    seat_found(turned, test.id);
    assert(turned.last() == test);
    if seat(turned, test.id) < turned.len() - 1 {
        let at = seat(turned, test.id) as int;
        assert(turned[at] == bucket[at + 1]);
    } else if seat(turned, test.id) == turned.len() {
        assert(turned[turned.len() - 1].id != test.id);
    }
    assert(without(turned, test.id) =~= bucket.drop_first());
}

/// Hearing of a node takes no other node out of the table. All buckets but its own stay as they
/// are, and so does the whole table where the node is this one or has no name. Its own bucket keeps
/// its nodes in their order, unchanged: a known node moves to the end as it was known, a new one
/// comes to the end while there is room, and a full bucket only turns its first node to the end.
pub proof fn hearing_takes_nobody_out(id: u128, table: Seq<Seq<Node>>, node: Node)
    requires
        id <= ID_MASK,
        node.id <= ID_MASK,
        table_ok(id, table),
    ensures
        ({
            let after = table_heard(id, table, node);
            let b = bucket_of(id, node.id);
            &&& after.len() == table.len()
            &&& node.id == id || node.id == 0 ==> after == table
            &&& node.id != id && node.id != 0 ==> {
                &&& 0 <= b < table.len()
                &&& forall|c: int| 0 <= c < table.len() && c != b ==> #[trigger] after[c] == table[c]
                &&& forall|n: Node| #[trigger] table[b].contains(n) ==> after[b].contains(n)
                &&& forall|n: Node| #[trigger]
                    after[b].contains(n) ==> table[b].contains(n) || n == node
                &&& (exists|i: int| 0 <= i < table[b].len() && (#[trigger] table[b][i]).id == node.id)
                    ==> {
                    &&& after[b].to_multiset() == table[b].to_multiset()
                    &&& after[b].last().id == node.id
                    &&& exists|i: int|
                        0 <= i < table[b].len() && (#[trigger] table[b][i]).id == node.id && (forall|
                            j: int,
                        |
                            0 <= j < i ==> (#[trigger] table[b][j]).id != node.id) && after[b]
                            == table[b].take(i) + table[b].skip(i + 1) + seq![table[b][i]]
                }
                &&& (forall|i: int|
                    0 <= i < table[b].len() ==> (#[trigger] table[b][i]).id != node.id) ==> {
                    &&& table[b].len() < K ==> after[b] == table[b] + seq![node]
                    &&& table[b].len() == K ==> after[b] == table[b].skip(1) + seq![table[b][0]]
                }
            }
        }),
{
    if foreign(id, node.id) {
        lemma_foreign_bucket(id, node.id);
        let b = bucket_of(id, node.id);
        let bucket = table[b];
        let next = table_heard(id, table, node)[b];
        assert(bucket_ok(id, b, bucket));
        seat_found(bucket, node.id);
        let at = seat(bucket, node.id) as int;
        if holds(bucket, node.id) {
            assert(bucket[at].id == node.id);
            assert(next =~= bucket.take(at) + bucket.skip(at + 1) + seq![bucket[at]]);
            lemma_turned(bucket, at);
            assert forall|n: Node| #[trigger] next.contains(n) implies bucket.contains(n) by {
                lemma_same_members(bucket, next, n);
            }
            assert forall|n: Node| #[trigger] bucket.contains(n) implies next.contains(n) by {
                lemma_same_members(bucket, next, n);
            }
        } else if bucket.len() < K {
            assert(next =~= bucket + seq![node]);
            assert(next[bucket.len() as int] == node);
            assert forall|n: Node| #[trigger] bucket.contains(n) implies next.contains(n) by {
                let i = choose|i: int| 0 <= i < bucket.len() && bucket[i] == n;
                assert(next[i] == n);
            }
        } else {
            assert(next =~= bucket.skip(1) + seq![bucket[0]]);
            assert(next =~= bucket.take(0) + bucket.skip(1) + seq![bucket[0]]);
            lemma_turned(bucket, 0);
            assert forall|n: Node| #[trigger] next.contains(n) implies bucket.contains(n) by {
                lemma_same_members(bucket, next, n);
            }
            assert forall|n: Node| #[trigger] bucket.contains(n) implies next.contains(n) by {
                lemma_same_members(bucket, next, n);
            }
        }
    }
}

/// Moving a node to the end keeps the nodes of a list.
proof fn lemma_turned(list: Seq<Node>, at: int)
    requires
        0 <= at < list.len(),
    ensures
        (list.take(at) + list.skip(at + 1) + seq![list[at]]).to_multiset() == list.to_multiset(),
{
    let rest = list.remove(at);
    let turned = list.take(at) + list.skip(at + 1) + seq![list[at]];
    assert(turned =~= rest.push(list[at]));
    list.to_multiset_ensures();
    vstd::seq_lib::to_multiset_remove(list, at);
    rest.to_multiset_ensures();
    assert(list.contains(list[at]));
    assert(turned.to_multiset() =~= list.to_multiset());
}

proof fn lemma_same_members(a: Seq<Node>, b: Seq<Node>, n: Node)
    requires
        a.to_multiset() == b.to_multiset(),
    ensures
        a.contains(n) <==> b.contains(n),
{
    a.to_multiset_ensures();
    b.to_multiset_ensures();
    assert(a.contains(n) <==> a.to_multiset().count(n) > 0);
    assert(b.contains(n) <==> b.to_multiset().count(n) > 0);
}

/// Forgetting a node takes out that node and no other: the first in its bucket that bears its
/// identifier leaves, all others stay in their order, and all other buckets stay as they are. The
/// table stays as it is where nobody bears the identifier, or it is this node's own or none.
pub proof fn forgetting_takes_one_out(id: u128, table: Seq<Seq<Node>>, gone: u128)
    requires
        id <= ID_MASK,
        gone <= ID_MASK,
        table_ok(id, table),
    ensures
        ({
            let after = table_retired(id, table, gone);
            let b = bucket_of(id, gone);
            &&& after.len() == table.len()
            &&& gone == id || gone == 0 ==> after == table
            &&& gone != id && gone != 0 ==> {
                &&& 0 <= b < table.len()
                &&& forall|c: int| 0 <= c < table.len() && c != b ==> #[trigger] after[c] == table[c]
                &&& (forall|i: int| 0 <= i < table[b].len() ==> (#[trigger] table[b][i]).id != gone)
                    ==> after[b] == table[b]
                &&& (exists|i: int| 0 <= i < table[b].len() && (#[trigger] table[b][i]).id == gone)
                    ==> exists|i: int|
                    0 <= i < table[b].len() && (#[trigger] table[b][i]).id == gone && (forall|j: int|
                        0 <= j < i ==> (#[trigger] table[b][j]).id != gone) && after[b]
                        == table[b].take(i) + table[b].skip(i + 1)
            }
        }),
{
    if foreign(id, gone) {
        lemma_foreign_bucket(id, gone);
        let b = bucket_of(id, gone);
        let bucket = table[b];
        seat_found(bucket, gone);
        let at = seat(bucket, gone) as int;
        if holds(bucket, gone) {
            assert(bucket[at].id == gone);
            assert(table_retired(id, table, gone)[b] =~= bucket.take(at) + bucket.skip(at + 1));
        }
    }
}

/// A node is put to the test exactly where one that is not known was heard of and its bucket is
/// full, and it is the one at the front, which was heard of longest ago.
pub proof fn the_oldest_of_a_full_bucket_is_tested(id: u128, table: Seq<Seq<Node>>, node: Node)
    requires
        id <= ID_MASK,
        node.id <= ID_MASK,
        table_ok(id, table),
    ensures
        ({
            let b = bucket_of(id, node.id);
            let tested = doubted(id, table, node);
            &&& tested is Some <==> {
                &&& node.id != id
                &&& node.id != 0
                &&& table[b].len() == K
                &&& forall|i: int| 0 <= i < table[b].len() ==> (#[trigger] table[b][i]).id != node.id
            }
            &&& tested is Some ==> tested->0 == table[b][0]
        }),
{
    if foreign(id, node.id) {
        lemma_foreign_bucket(id, node.id);
        let b = bucket_of(id, node.id);
        assert(bucket_ok(id, b, table[b]));
        seat_found(table[b], node.id);
    }
}

/// The answer to a test decides between two nodes and touches nobody else. Where the tested node
/// still stands in the bucket, it goes to the end if it lives, and else the new node takes the end
/// and it is out. Where it has left meanwhile, the new node joins at the end if there is room. All
/// others stay in their order, and all other buckets stay as they are.
pub proof fn a_test_decides_between_two(id: u128, table: Seq<Seq<Node>>, probe: Probe, alive: bool)
    requires
        id <= ID_MASK,
        table_ok(id, table),
        probe.fits(id),
    ensures
        ({
            let after = table_settled(id, table, probe, alive);
            let b = bucket_of(id, probe.node.id);
            let stays = if alive {
                probe.test
            } else {
                probe.node
            };
            &&& 0 <= b < table.len()
            &&& after.len() == table.len()
            &&& forall|c: int| 0 <= c < table.len() && c != b ==> #[trigger] after[c] == table[c]
            &&& (exists|i: int| 0 <= i < table[b].len() && (#[trigger] table[b][i]).id == probe.test.id)
                ==> exists|i: int|
                0 <= i < table[b].len() && (#[trigger] table[b][i]).id == probe.test.id && (forall|
                    j: int,
                |
                    0 <= j < i ==> (#[trigger] table[b][j]).id != probe.test.id) && after[b]
                    == table[b].take(i) + table[b].skip(i + 1) + seq![stays]
            &&& (forall|i: int|
                0 <= i < table[b].len() ==> (#[trigger] table[b][i]).id != probe.test.id) ==> {
                &&& table[b].len() < K ==> after[b] == table[b] + seq![probe.node]
                &&& table[b].len() == K ==> after[b] == table[b]
            }
        }),
{
    lemma_foreign_bucket(id, probe.node.id);
    let b = bucket_of(id, probe.node.id);
    let bucket = table[b];
    assert(bucket_ok(id, b, bucket));
    seat_found(bucket, probe.test.id);
    let at = seat(bucket, probe.test.id) as int;
    let next = table_settled(id, table, probe, alive)[b];
    if holds(bucket, probe.test.id) {
        assert(bucket[at].id == probe.test.id);
        let stays = if alive {
            probe.test
        } else {
            probe.node
        };
        assert(next =~= bucket.take(at) + bucket.skip(at + 1) + seq![stays]);
    } else if bucket.len() < K {
        assert(next =~= bucket + seq![probe.node]);
    }
}

} // verus!
