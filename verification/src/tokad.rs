//! What a node knows: the nodes that it has heard of, in buckets by their distance, and the
//! values that it keeps.

use std::collections::HashMap;
use std::ops::Deref;

use vstd::prelude::*;

use crate::clock::{
    clock_reading, later_of, Timestamp, EXPIRE, REFRESH, REPLICATE, REPUBLISH, SECOND,
};
use crate::data::NodeView;
use crate::hash::{cut, mask_cuts, ID_BITS, ID_MASK};
use crate::random::random_between;
use crate::routing::bucket_of;
use crate::text::{decimal, push_decimal};

pub use crate::data::{Key, Node, Nodes, Store, StoreOrNodes, StoreRequest, Stub};

verus! {

broadcast use {vstd::std_specs::hash::group_hash_axioms, vstd::string::group_string_axioms};

/// The number of nodes that a bucket has room for.
pub const K: usize = 4;

/// The number of requests that a lookup keeps under way.
pub const ALPHA: usize = 3;

/// The port on which a node listens if it is not told another.
pub const DEFAULT_PORT: u16 = 50051;

// ---------------------------------------------------------------------------------------------
// Values that a node keeps
// ---------------------------------------------------------------------------------------------

/// A value that a node keeps.
#[derive(Debug, Clone)]
pub struct Data {
    /// Whether this node published the value.
    pub publish: bool,
    /// When this node last got the value or handed it on.
    pub replication_time: Timestamp,
    /// When the value was last published.
    pub publish_time: Timestamp,
    pub data: Vec<u8>,
}

/// The view of a `Data`.
pub struct DataView {
    pub publish: bool,
    pub replication_time: Timestamp,
    pub publish_time: Timestamp,
    pub data: Seq<u8>,
}

impl View for Data {
    type V = DataView;

    open spec fn view(&self) -> DataView {
        DataView {
            publish: self.publish,
            replication_time: self.replication_time,
            publish_time: self.publish_time,
            data: self.data@,
        }
    }
}

/// A value that another node published at `publish_time` and that came here at `now`.
pub open spec fn received(data: Seq<u8>, publish_time: Timestamp, now: Timestamp) -> DataView {
    DataView { publish: false, replication_time: now, publish_time, data }
}

/// A value that this node publishes at `now`.
pub open spec fn published(data: Seq<u8>, now: Timestamp) -> DataView {
    DataView { publish: true, replication_time: now, publish_time: now, data }
}

/// A value of which another copy, published at `publish_time`, came at `now`.
pub open spec fn renewed(entry: DataView, publish_time: Timestamp, now: Timestamp) -> DataView {
    DataView {
        replication_time: now,
        publish_time: later_of(entry.publish_time, publish_time),
        ..entry
    }
}

impl Data {
    /// A value that another node published and that came just now.
    pub fn new(data: Vec<u8>, publish_time: Timestamp) -> (entry: Data)
        ensures
            exists|now: Timestamp|
                clock_reading(now) && entry@ == #[trigger] received(data@, publish_time, now),
    {
        Data::new_at(data, publish_time, Timestamp::now())
    }

    /// A value that another node published and that came at `now`.
    pub fn new_at(data: Vec<u8>, publish_time: Timestamp, now: Timestamp) -> (entry: Data)
        ensures
            entry@ == received(data@, publish_time, now),
            !entry.publish,
            entry.data@ == data@,
            entry.publish_time == publish_time,
            entry.replication_time == now,
    {
        Data { publish: false, replication_time: now, publish_time, data }
    }

    /// A value that this node publishes just now.
    pub fn publish(data: Vec<u8>) -> (entry: Data)
        ensures
            exists|now: Timestamp|
                clock_reading(now) && entry@ == #[trigger] published(data@, now),
    {
        Data::publish_at(data, Timestamp::now())
    }

    /// A value that this node publishes at `now`.
    pub fn publish_at(data: Vec<u8>, now: Timestamp) -> (entry: Data)
        ensures
            entry@ == published(data@, now),
            entry.publish,
            entry.data@ == data@,
            entry.publish_time == now,
            entry.replication_time == now,
    {
        Data { publish: true, replication_time: now, publish_time: now, data }
    }

    /// Notes that another copy came just now.
    pub fn refresh(&mut self, publish_time: Timestamp)
        ensures
            exists|now: Timestamp|
                clock_reading(now) && final(self)@ == #[trigger] renewed(
                    old(self)@,
                    publish_time,
                    now,
                ),
    {
        let now: Timestamp = Timestamp::now();
        self.refresh_at(publish_time, now);
    }

    /// Notes that another copy came at `now`.
    pub fn refresh_at(&mut self, publish_time: Timestamp, now: Timestamp)
        ensures
            final(self)@ == renewed(old(self)@, publish_time, now),
            final(self).publish == old(self).publish,
            final(self).data == old(self).data,
            final(self).replication_time == now,
            final(self).publish_time.nanos >= publish_time.nanos,
            final(self).publish_time.nanos >= old(self).publish_time.nanos,
            final(self).publish_time == publish_time || final(self).publish_time
                == old(self).publish_time,
    {
        self.replication_time = now;
        self.publish_time = self.publish_time.later(publish_time);
    }
}

/// Another copy of a value changes its two times and nothing else: it is still this node's own or
/// still another's, with the same bytes. The copy counts as come now, and of the two publishing
/// times the later one counts.
pub proof fn a_copy_changes_times_only(entry: DataView, publish_time: Timestamp, now: Timestamp)
    ensures
        ({
            let after = renewed(entry, publish_time, now);
            &&& after.publish == entry.publish
            &&& after.data == entry.data
            &&& after.replication_time == now
            &&& after.publish_time == publish_time || after.publish_time == entry.publish_time
            &&& after.publish_time.nanos >= publish_time.nanos
            &&& after.publish_time.nanos >= entry.publish_time.nanos
        }),
{
}

/// A value is a node's own exactly where the node published it; it carries the bytes and the
/// publishing time that came with it, and the instant at which it came.
pub proof fn a_value_carries_what_came_with_it(
    data: Seq<u8>,
    publish_time: Timestamp,
    now: Timestamp,
)
    ensures
        !received(data, publish_time, now).publish,
        received(data, publish_time, now).data == data,
        received(data, publish_time, now).publish_time == publish_time,
        received(data, publish_time, now).replication_time == now,
        published(data, now).publish,
        published(data, now).data == data,
        published(data, now).publish_time == now,
        published(data, now).replication_time == now,
{
}

// ---------------------------------------------------------------------------------------------
// Nodes
// ---------------------------------------------------------------------------------------------

/// How a node is shown.
pub open spec fn node_text(node: NodeView) -> Seq<char> {
    "("@ + decimal(node.id as nat) + " "@ + node.ip + " "@ + decimal(node.port as nat) + ")"@
}

impl Node {
    /// Where the node listens: `ip` is its address as parsed, or nothing where it cannot be
    /// parsed.
    pub fn sock<A>(&self, ip: Option<A>) -> (sock: Option<(A, u16)>)
        ensures
            sock == match ip {
                Some(ip) => if self.port <= u16::MAX {
                    Some((ip, self.port as u16))
                } else {
                    None
                },
                None => None,
            },
    {
        match ip {
            Some(ip) => if self.port <= u16::MAX as u32 {
                Some((ip, self.port as u16))
            } else {
                None
            },
            None => None,
        }
    }

    /// The node that listens at the given address and port.
    pub fn from_sock(id: u128, ip: String, port: u16) -> (node: Node)
        ensures
            node == (Node { id, ip, port: port as u32 }),
    {
        Node { id, ip, port: port as u32 }
    }

    /// The node that names itself by `stub` and has the given address.
    pub fn from_stub(stub: Stub, ip: String) -> (node: Node)
        ensures
            node == (Node { id: stub.id, ip, port: stub.port }),
    {
        Node { id: stub.id, ip, port: stub.port }
    }

    /// How the node is shown.
    pub fn to_string(&self) -> (s: String)
        ensures
            s@ == node_text(self@),
    {
        let mut s: String = "(".to_owned();
        push_decimal(&mut s, self.id);
        s.append(" ");
        s.append(self.ip.as_str());
        s.append(" ");
        push_decimal(&mut s, self.port as u128);
        s.append(")");
        s
    }
}

// ---------------------------------------------------------------------------------------------
// The state of a node
// ---------------------------------------------------------------------------------------------

/// The state of a node.
#[derive(Debug)]
pub struct State {
    pub id: u128,
    pub port: u16,
    /// The nodes heard of, in each bucket from the one heard of longest ago to the latest.
    pub buckets: Vec<Vec<Node>>,
    /// When each bucket was last looked after.
    pub refresh: Vec<Timestamp>,
    pub store: HashMap<u128, Data>,
    pub start_time: Timestamp,
}

/// Whether the identifiers of a bucket belong there and there are not too many.
pub open spec fn bucket_ok(id: u128, bid: int, bucket: Seq<Node>) -> bool {
    &&& bucket.len() <= K
    &&& forall|i: int|
        0 <= i < bucket.len() ==> {
            &&& (#[trigger] bucket[i]).id <= ID_MASK
            &&& bucket[i].id != 0
            &&& bucket_of(id, bucket[i].id) == bid
        }
}

/// Whether every bucket of a table is in order.
pub open spec fn table_ok(id: u128, table: Seq<Seq<Node>>) -> bool {
    &&& table.len() == ID_BITS
    &&& forall|b: int| 0 <= b < table.len() ==> bucket_ok(id, b, #[trigger] table[b])
}

/// Whether no identifier stands twice in a list.
pub open spec fn ids_differ(nodes: Seq<Node>) -> bool {
    forall|i: int, j: int|
        0 <= i < j < nodes.len() ==> (#[trigger] nodes[i]).id != (#[trigger] nodes[j]).id
}

/// Whether no identifier stands twice in a bucket.
pub open spec fn table_distinct(table: Seq<Seq<Node>>) -> bool {
    forall|b: int| 0 <= b < table.len() ==> ids_differ(#[trigger] table[b])
}

/// All nodes of a table, bucket by bucket.
pub open spec fn all_nodes(table: Seq<Seq<Node>>) -> Seq<Node>
    decreases table.len(),
{
    if table.len() == 0 {
        Seq::empty()
    } else {
        all_nodes(table.drop_last()) + table.last()
    }
}

/// The views of the values of a store.
pub open spec fn store_view(store: Map<u128, Data>) -> Map<u128, DataView> {
    store.map_values(|d: Data| d@)
}

impl State {
    /// The routing table.
    pub open spec fn table(&self) -> Seq<Seq<Node>> {
        Seq::new(self.buckets@.len(), |b: int| self.buckets@[b]@)
    }

    /// The values that the node keeps, by key.
    pub open spec fn contents(&self) -> Map<u128, DataView> {
        store_view(self.store@)
    }

    /// Whether the identifier is in range, every bucket is in order and every bucket has a timer.
    pub open spec fn wf(&self) -> bool {
        &&& self.id <= ID_MASK
        &&& table_ok(self.id, self.table())
        &&& self.refresh@.len() == ID_BITS
    }

    /// A node with the given identifier, which knows no other node and no value. The timer of
    /// each bucket is set to `now` with the given delay.
    pub fn new(id: u128, port: u16, now: Timestamp, delays: &Vec<u64>) -> (state: State)
        requires
            id <= ID_MASK,
            delays@.len() == ID_BITS,
            forall|i: int|
                0 <= i < delays@.len() ==> now.nanos + #[trigger] delays@[i] <= i128::MAX,
        ensures
            state.wf(),
            state.id == id,
            state.port == port,
            state.start_time == now,
            table_distinct(state.table()),
            forall|b: int| 0 <= b < ID_BITS ==> (#[trigger] state.table()[b]).len() == 0,
            forall|b: int|
                0 <= b < ID_BITS ==> (#[trigger] state.refresh@[b]).nanos == now.nanos + delays@[b],
            state.contents() == Map::<u128, DataView>::empty(),
    {
        let mut buckets: Vec<Vec<Node>> = Vec::new();
        let mut refresh: Vec<Timestamp> = Vec::new();
        let mut i: usize = 0;
        while i < ID_BITS
            invariant
                i <= ID_BITS,
                buckets@.len() == i,
                refresh@.len() == i,
                delays@.len() == ID_BITS,
                forall|j: int|
                    0 <= j < delays@.len() ==> now.nanos + #[trigger] delays@[j] <= i128::MAX,
                forall|b: int| 0 <= b < i ==> (#[trigger] buckets@[b])@.len() == 0,
                forall|b: int|
                    0 <= b < i ==> (#[trigger] refresh@[b]).nanos == now.nanos + delays@[b],
            decreases ID_BITS - i,
        {
            let delay: u64 = delays[i];
            assert(now.nanos + delays@[i as int] <= i128::MAX);
            buckets.push(Vec::new());
            refresh.push(Timestamp { nanos: now.nanos + delay as i128 });
            i = i + 1;
        }
        let store: HashMap<u128, Data> = HashMap::new();
        let state: State = State { id, port, buckets, refresh, store, start_time: now };
        assert(state.contents() =~= Map::<u128, DataView>::empty());
        state
    }
}

impl State {
    /// A node whose identifier is made of the number `number`: its low bits, as many as an
    /// identifier has. It knows no other node and no value, and the timer of each bucket is set to
    /// `now` with the given delay.
    pub fn numbered(number: u128, port: u16, now: Timestamp, delays: &Vec<u64>) -> (state: State)
        requires
            delays@.len() == ID_BITS,
            forall|i: int|
                0 <= i < delays@.len() ==> now.nanos + #[trigger] delays@[i] <= i128::MAX,
        ensures
            state.wf(),
            state.id == cut(number as nat),
            state.port == port,
            state.start_time == now,
            table_distinct(state.table()),
            forall|b: int| 0 <= b < ID_BITS ==> (#[trigger] state.table()[b]).len() == 0,
            forall|b: int|
                0 <= b < ID_BITS ==> (#[trigger] state.refresh@[b]).nanos == now.nanos + delays@[b],
            state.contents() == Map::<u128, DataView>::empty(),
    {
        proof {
            mask_cuts(number);
        }
        State::new(number & ID_MASK, port, now, delays)
    }

    /// A node as it starts, on the given port: with a random identifier, with nothing known, and
    /// with the timers of the buckets spread at random over one refresh interval from now.
    pub fn listening(port: u16) -> (state: State)
        ensures
            state.wf(),
            state.port == port,
            clock_reading(state.start_time),
            table_distinct(state.table()),
            forall|b: int| 0 <= b < ID_BITS ==> (#[trigger] state.table()[b]).len() == 0,
            forall|b: int|
                0 <= b < ID_BITS ==> {
                    &&& state.start_time.nanos <= (#[trigger] state.refresh@[b]).nanos
                    &&& state.refresh@[b].nanos <= state.start_time.nanos + REFRESH
                },
            state.contents() == Map::<u128, DataView>::empty(),
    {
        let number: u128 = random_between(1, u128::MAX);
        let now: Timestamp = Timestamp::now();
        let mut delays: Vec<u64> = Vec::new();
        while delays.len() < ID_BITS
            invariant
                delays@.len() <= ID_BITS,
                forall|i: int| 0 <= i < delays@.len() ==> #[trigger] delays@[i] <= REFRESH,
            decreases ID_BITS - delays@.len(),
        {
            let delay: u128 = random_between(0, REFRESH as u128);
            delays.push(delay as u64);
        }
        State::numbered(number, port, now, &delays)
    }
}

/// A node as it starts, on the default port.
impl Default for State {
    fn default() -> (state: State)
        ensures
            state.wf(),
            state.port == DEFAULT_PORT,
            clock_reading(state.start_time),
            table_distinct(state.table()),
            forall|b: int| 0 <= b < ID_BITS ==> (#[trigger] state.table()[b]).len() == 0,
            forall|b: int|
                0 <= b < ID_BITS ==> {
                    &&& state.start_time.nanos <= (#[trigger] state.refresh@[b]).nanos
                    &&& state.refresh@[b].nanos <= state.start_time.nanos + REFRESH
                },
            state.contents() == Map::<u128, DataView>::empty(),
    {
        State::listening(DEFAULT_PORT)
    }
}

/// A shared view of the state of a node.
#[derive(Debug, Clone, Copy)]
pub struct StateRef<'a> {
    pub state: &'a State,
}

impl State {
    /// A shared view of the state.
    pub fn get_ref(&self) -> (r: StateRef<'_>)
        ensures
            r.state == self,
    {
        StateRef { state: self }
    }

    /// How the node names itself in its messages.
    pub fn stub(&self) -> (stub: Stub)
        ensures
            stub == self.own_stub(),
    {
        Stub { id: self.id, port: self.port as u32 }
    }

    /// How the node names itself in its messages.
    pub open spec fn own_stub(&self) -> Stub {
        Stub { id: self.id, port: self.port as u32 }
    }
}

impl<'a> Deref for StateRef<'a> {
    type Target = State;

    fn deref(&self) -> (state: &State)
        ensures
            state == self.state,
    {
        self.state
    }
}

/// The nodes of a table are the nodes of its buckets, unchanged, each as often as it stands there
/// and no others.
pub proof fn a_table_is_all_its_buckets(table: Seq<Seq<Node>>)
    ensures
        forall|b: int, n: Node|
            0 <= b < table.len() && #[trigger] table[b].contains(n) ==> all_nodes(table).contains(n),
        forall|n: Node| #[trigger]
            all_nodes(table).contains(n) ==> exists|b: int|
                0 <= b < table.len() && #[trigger] table[b].contains(n),
        table.len() == 0 ==> all_nodes(table).len() == 0,
        table.len() > 0 ==> all_nodes(table).len() == all_nodes(table.drop_last()).len()
            + table.last().len(),
    decreases table.len(),
{
    if table.len() > 0 {
        let front = table.drop_last();
        let before = all_nodes(front);
        let all = all_nodes(table);
        a_table_is_all_its_buckets(front);
        assert forall|b: int, n: Node|
            0 <= b < table.len() && #[trigger] table[b].contains(n) implies all.contains(n) by {
            if b < front.len() {
                assert(front[b].contains(n));
                let k = choose|k: int| 0 <= k < before.len() && before[k] == n;
                assert(all[k] == n);
            } else {
                let k = choose|k: int| 0 <= k < table[b].len() && table[b][k] == n;
                assert(all[before.len() + k] == n);
            }
        }
        assert forall|n: Node| #[trigger] all.contains(n) implies exists|b: int|
            0 <= b < table.len() && #[trigger] table[b].contains(n) by {
            let k = choose|k: int| 0 <= k < all.len() && all[k] == n;
            if k < before.len() {
                assert(before[k] == n);
                assert(before.contains(n));
                let b = choose|b: int| 0 <= b < front.len() && #[trigger] front[b].contains(n);
                assert(table[b] == front[b]);
                assert(table[b].contains(n));
            } else {
                let last = table.len() - 1;
                assert(table[last][k - before.len()] == n);
                assert(table[last].contains(n));
            }
        }
    }
}

/// A node is shown with its identifier, its address and its port.
pub proof fn a_node_is_shown_with_all_it_has(node: NodeView)
    ensures
        node_text(node) == "("@ + decimal(node.id as nat) + " "@ + node.ip + " "@ + decimal(
            node.port as nat,
        ) + ")"@,
{
}

/// What a state holds is what its fields hold: the table is the buckets, the contents are the
/// store, and the node names itself by its identifier and its port.
pub proof fn a_state_is_its_fields(state: State, entry: Data)
    ensures
        state.table().len() == state.buckets@.len(),
        forall|b: int| 0 <= b < state.buckets@.len() ==> #[trigger] state.table()[b]
            == state.buckets@[b]@,
        state.contents().dom() == state.store@.dom(),
        forall|key: u128| #[trigger]
            state.store@.contains_key(key) ==> state.contents()[key] == state.store@[key]@,
        state.own_stub().id == state.id,
        state.own_stub().port == state.port,
        entry@.publish == entry.publish,
        entry@.data == entry.data@,
        entry@.publish_time == entry.publish_time,
        entry@.replication_time == entry.replication_time,
{
    assert(state.contents().dom() =~= state.store@.dom());
}

/// The numbers that all nodes of a network share.
pub proof fn nodes_share_their_numbers()
    ensures
        K == 4,
        ALPHA == 3,
        DEFAULT_PORT == 50051,
        ID_BITS == 32,
        ID_MASK == 0xffff_ffff,
        REFRESH == 40 * SECOND,
        EXPIRE == 240 * SECOND,
        REPLICATE == 20 * SECOND,
        REPUBLISH == 110 * SECOND,
        SECOND == 1_000_000_000,
{
}

} // verus!
