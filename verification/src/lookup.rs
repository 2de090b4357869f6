//! The search for the nodes nearest to a key, or for the value under it: ask the nearest nodes
//! known for nearer ones, a few at a time, until nobody nearer is left to ask.
//!
//! A lookup is moved by its caller, who sends each question that it names and hands back each
//! answer.

use vstd::prelude::*;

use crate::data::{
    ids_in_range, Node, NodeView, Nodes, Store, StoreOrNodes, StoreOrNodesView, StoreView, Stub,
};
use crate::hash::{ID_BITS, ID_MASK};
use crate::order::{
    a_node_is_placed_where_it_belongs,
    by_distance, closer, closer_divides, far, nearest_of, place, placed, placed_in_order,
    sort_by_distance,
};
use crate::routing::{bucket_of, distance_range};
use crate::tokad::{
    all_nodes, bucket_ok, ids_differ, table_distinct, table_ok, StateRef, ALPHA, K,
};

verus! {

broadcast use vstd::string::group_string_axioms;

/// A search under way.
#[derive(Debug)]
pub struct Lookup {
    /// What is searched for.
    pub key: u128,
    /// The nodes to ask, the nearest first.
    pub queue: Vec<Node>,
    /// The identifiers of all nodes heard of.
    pub seen: Vec<u128>,
    /// The nodes that have answered, and the searching node itself, the nearest first.
    pub finished: Vec<Node>,
    /// How many nodes have been asked and have not answered yet.
    pub under_way: usize,
}

/// The view of a `Lookup`.
pub struct LookupView {
    pub key: u128,
    pub queue: Seq<Node>,
    pub seen: Seq<u128>,
    pub finished: Seq<Node>,
    pub under_way: nat,
}

impl View for Lookup {
    type V = LookupView;

    open spec fn view(&self) -> LookupView {
        LookupView {
            key: self.key,
            queue: self.queue@,
            seen: self.seen@,
            finished: self.finished@,
            under_way: self.under_way as nat,
        }
    }
}

impl LookupView {
    /// Whether both lists go from near to far and no more questions are open than there may be.
    pub open spec fn wf(self) -> bool {
        &&& by_distance(self.queue, self.key)
        &&& by_distance(self.finished, self.key)
        &&& self.under_way <= ALPHA
    }
}

/// The identifiers of a list of nodes.
pub open spec fn ids(nodes: Seq<Node>) -> Seq<u128> {
    nodes.map_values(|n: Node| n.id)
}

/// The nodes to ask and those left to ask later: from the front of the queue, until enough
/// questions are open. A node farther away than `K` that have answered ends this, and is dropped.
pub open spec fn asked(
    queue: Seq<Node>,
    finished: Seq<Node>,
    key: u128,
    under_way: nat,
) -> (Seq<Node>, Seq<Node>)
    decreases queue.len(),
{
    if under_way >= ALPHA || queue.len() == 0 {
        (Seq::empty(), queue)
    } else if finished.len() >= K && far(finished[K - 1], key) < far(queue[0], key) {
        (Seq::empty(), queue.drop_first())
    } else {
        let (rest, left) = asked(queue.drop_first(), finished, key, under_way + 1);
        (seq![queue[0]] + rest, left)
    }
}

/// A search that has heard of the given nodes: those not seen before join the queue, each in its
/// place.
pub open spec fn informed(search: LookupView, nodes: Seq<Node>) -> LookupView
    decreases nodes.len(),
{
    if nodes.len() == 0 {
        search
    } else {
        let before = informed(search, nodes.drop_last());
        let node = nodes.last();
        if before.seen.contains(node.id) {
            before
        } else {
            LookupView {
                seen: before.seen.push(node.id),
                queue: placed(before.queue, node, before.key),
                ..before
            }
        }
    }
}

/// A search after the answer of a node: the nodes that it names, or nothing where it failed.
pub open spec fn answered(search: LookupView, node: Node, reply: Option<Seq<Node>>) -> LookupView {
    match reply {
        Some(nodes) => {
            let told = informed(search, nodes);
            LookupView { finished: placed(told.finished, node, told.key), ..told }
        },
        None => search,
    }
}

/// A search after one question less is open and as many as there may be are asked again.
pub open spec fn continued(search: LookupView) -> LookupView {
    let open = (search.under_way - 1) as nat;
    let (asks, left) = asked(search.queue, search.finished, search.key, open);
    LookupView { queue: left, under_way: open + asks.len(), ..search }
}

/// The nodes that are asked then.
pub open spec fn next_asks(search: LookupView) -> Seq<Node> {
    asked(search.queue, search.finished, search.key, (search.under_way - 1) as nat).0
}

/// The views of an optional list.
pub open spec fn reply_view(reply: Option<Vec<Node>>) -> Option<Seq<Node>> {
    match reply {
        Some(nodes) => Some(nodes@),
        None => None,
    }
}

/// The nearest of those that answered: as many as a bucket has room for.
pub open spec fn concluded(search: LookupView) -> Seq<Node> {
    if search.finished.len() > K {
        search.finished.take(K as int)
    } else {
        search.finished
    }
}

fn is_seen(seen: &Vec<u128>, id: u128) -> (found: bool)
    ensures
        found == seen@.contains(id),
{
    let mut i: usize = 0;
    while i < seen.len()
        invariant
            i <= seen@.len(),
            forall|j: int| 0 <= j < i ==> seen@[j] != id,
        decreases seen@.len() - i,
    {
        if seen[i] == id {
            return true;
        }
        i = i + 1;
    }
    false
}

impl Lookup {
    /// Takes nodes from the front of the queue to ask them.
    fn ask(&mut self) -> (asks: Vec<Node>)
        requires
            old(self).under_way <= ALPHA,
        ensures
            asks@ == asked(
                old(self)@.queue,
                old(self)@.finished,
                old(self).key,
                old(self)@.under_way,
            ).0,
            final(self)@ == (LookupView {
                queue: asked(
                    old(self)@.queue,
                    old(self)@.finished,
                    old(self).key,
                    old(self)@.under_way,
                ).1,
                under_way: old(self)@.under_way + asks@.len(),
                ..old(self)@
            }),
            final(self).under_way <= ALPHA,
    {
        let mut asks: Vec<Node> = Vec::new();
        let ghost all = asked(self@.queue, self@.finished, self.key, self@.under_way);
        assert(asks@ + all.0 =~= all.0);
        while self.under_way < ALPHA && self.queue.len() > 0
            invariant_except_break
                self.under_way <= ALPHA,
                all.0 == asks@ + asked(
                    self@.queue,
                    self@.finished,
                    self.key,
                    self@.under_way,
                ).0,
                all.1 == asked(self@.queue, self@.finished, self.key, self@.under_way).1,
            invariant
                self.under_way <= ALPHA,
                self.key == old(self).key,
                self.seen == old(self).seen,
                self.finished == old(self).finished,
                self.under_way == old(self).under_way + asks@.len(),
            ensures
                all.0 == asks@,
                all.1 == self@.queue,
            decreases self.queue@.len(),
        {
            let ghost before = self@;
            let ghost so_far = asks@;
            let node: Node = self.queue.remove(0);
            assert(self.queue@ =~= before.queue.drop_first());
            assert(node == before.queue[0]);
            if self.finished.len() >= K && self.finished[K - 1].id ^ self.key < node.id
                ^ self.key {
                assert(asks@ =~= all.0);
                break ;
            }
            asks.push(node);
            self.under_way = self.under_way + 1;
            assert(all.0 =~= asks@ + asked(
                self@.queue,
                self@.finished,
                self.key,
                self@.under_way,
            ).0);
        }
        asks
    }

    /// Hears of nodes.
    fn inform(&mut self, nodes: Vec<Node>)
        requires
            old(self)@.wf(),
        ensures
            final(self)@ == informed(old(self)@, nodes@),
            final(self)@.wf(),
    {
        let ghost start = self@;
        let mut i: usize = 0;
        assert(nodes@.take(0) =~= Seq::<Node>::empty());
        while i < nodes.len()
            invariant
                i <= nodes@.len(),
                self@.wf(),
                self@ == informed(start, nodes@.take(i as int)),
            decreases nodes@.len() - i,
        {
            assert(nodes@.take(i + 1).drop_last() =~= nodes@.take(i as int));
            if !is_seen(&self.seen, nodes[i].id) {
                let node: Node = nodes[i].clone();
                self.seen.push(node.id);
                place(&mut self.queue, node, self.key);
            }
            i = i + 1;
        }
        assert(nodes@.take(nodes@.len() as int) =~= nodes@);
    }

    /// Takes the answer of a node that was asked: the nodes that it names, or nothing where it
    /// failed. Gives the nodes to ask next.
    pub fn on_reply(&mut self, node: Node, reply: Option<Vec<Node>>) -> (asks: Vec<Node>)
        requires
            old(self)@.wf(),
            old(self).under_way > 0,
        ensures
            final(self)@ == continued(answered(old(self)@, node, reply_view(reply))),
            asks@ == next_asks(answered(old(self)@, node, reply_view(reply))),
            final(self)@.wf(),
    {
        let ghost start = self@;
        match reply {
            Some(nodes) => {
                self.inform(nodes);
                proof {
                    lemma_informed_keeps(start, nodes@);
                }
                place(&mut self.finished, node, self.key);
            },
            None => {},
        }
        proof {
            assert(self@ == answered(start, node, reply_view(reply)));
            lemma_asked_in_order(
                self@.queue,
                self@.finished,
                self.key,
                (self@.under_way - 1) as nat,
            );
        }
        self.under_way = self.under_way - 1;
        self.ask()
    }

    /// Takes the answer of a node that was asked for a value: the value itself ends the search.
    pub fn on_value_reply(&mut self, node: Node, reply: ValueReply) -> (step: ValueStep)
        requires
            old(self)@.wf(),
            old(self).under_way > 0,
        ensures
            match reply {
                ValueReply::Answer(StoreOrNodes::Store(store)) => {
                    &&& step == ValueStep::Found(StoreOrNodes::Store(store))
                    &&& *final(self) == *old(self)
                },
                ValueReply::Answer(StoreOrNodes::Nodes(nodes)) => {
                    &&& step matches ValueStep::Ask(asks)
                    &&& asks@ == next_asks(answered(old(self)@, node, Some(nodes.nodes@)))
                    &&& final(self)@ == continued(answered(old(self)@, node, Some(nodes.nodes@)))
                    &&& final(self)@.wf()
                },
                ValueReply::Failed => {
                    &&& step matches ValueStep::Ask(asks)
                    &&& asks@ == next_asks(answered(old(self)@, node, None))
                    &&& final(self)@ == continued(answered(old(self)@, node, None))
                    &&& final(self)@.wf()
                },
            },
    {
        match reply {
            ValueReply::Answer(StoreOrNodes::Store(store)) => ValueStep::Found(store.or_nodes()),
            ValueReply::Answer(StoreOrNodes::Nodes(nodes)) => ValueStep::Ask(
                self.on_reply(node, Some(nodes.nodes)),
            ),
            ValueReply::Failed => ValueStep::Ask(self.on_reply(node, None)),
        }
    }

    /// Whether nobody is left to wait for.
    pub fn is_done(&self) -> (done: bool)
        ensures
            done == (self.under_way == 0),
    {
        self.under_way == 0
    }

    /// What a search for nodes has found: the nearest of those that answered.
    pub fn conclude(self) -> (nodes: Vec<Node>)
        ensures
            nodes@ == concluded(self@),
    {
        let mut nodes: Vec<Node> = self.finished;
        nodes.truncate(K);
        nodes
    }

    /// What a search for a value gives where nobody had it: the nearest of those that answered.
    pub fn conclude_value(self) -> (found: StoreOrNodes)
        ensures
            found matches StoreOrNodes::Nodes(nodes) && nodes.nodes@ == concluded(self@),
    {
        Nodes { nodes: self.conclude() }.or_store()
    }
}

proof fn lemma_informed_keeps(search: LookupView, nodes: Seq<Node>)
    ensures
        informed(search, nodes).key == search.key,
        informed(search, nodes).finished == search.finished,
        informed(search, nodes).under_way == search.under_way,
    decreases nodes.len(),
{
    if nodes.len() > 0 {
        lemma_informed_keeps(search, nodes.drop_last());
    }
}

/// How a queue is divided: the nodes asked are its front, those left its end, and at most one
/// between them is dropped, which is farther away than `K` that have answered. Nodes are left, or
/// one is dropped, only where enough questions are open or such a node was met.
pub proof fn asked_divides(queue: Seq<Node>, finished: Seq<Node>, key: u128, under_way: nat)
    ensures
        ({
            let (asks, left) = asked(queue, finished, key, under_way);
            let dropped = queue.len() - left.len() - asks.len();
            &&& 0 <= dropped <= 1
            &&& asks == queue.take(asks.len() as int)
            &&& left == queue.skip(queue.len() - left.len())
            &&& under_way <= ALPHA ==> under_way + asks.len() <= ALPHA
            &&& dropped == 1 ==> finished.len() >= K && far(finished[K - 1], key) < far(
                queue[asks.len() as int],
                key,
            )
            &&& under_way + asks.len() < ALPHA ==> left.len() == 0 || dropped == 1
            &&& finished.len() < K ==> dropped == 0
        }),
    decreases queue.len(),
{
    if !(under_way >= ALPHA || queue.len() == 0) && !(finished.len() >= K && far(
        finished[K - 1],
        key,
    ) < far(queue[0], key)) {
        let rest = queue.drop_first();
        asked_divides(rest, finished, key, under_way + 1);
        let (asks, left) = asked(queue, finished, key, under_way);
        let (more, end) = asked(rest, finished, key, under_way + 1);
        assert(asks =~= queue.take(asks.len() as int)) by {
            assert forall|i: int| 0 <= i < asks.len() implies asks[i] == queue[i] by {
                if i > 0 {
                    assert(asks[i] == more[i - 1]);
                    assert(more[i - 1] == rest[i - 1]);
                }
            }
        }
        assert(left =~= queue.skip(queue.len() - left.len()));
        assert(more.len() < rest.len() ==> rest[more.len() as int] == queue[asks.len() as int]);
    } else {
        let (asks, left) = asked(queue, finished, key, under_way);
        assert(asks =~= queue.take(0));
        assert(left =~= queue.skip(queue.len() - left.len()));
    }
}

proof fn lemma_asked_in_order(queue: Seq<Node>, finished: Seq<Node>, key: u128, under_way: nat)
    requires
        by_distance(queue, key),
    ensures
        by_distance(asked(queue, finished, key, under_way).1, key),
    decreases queue.len(),
{
    if !(under_way >= ALPHA || queue.len() == 0) {
        let rest = queue.drop_first();
        assert(by_distance(rest, key)) by {
            assert forall|i: int, j: int| 0 <= i <= j < rest.len() implies far(
                #[trigger] rest[i],
                key,
            ) <= far(#[trigger] rest[j], key) by {
                assert(rest[i] == queue[i + 1]);
                assert(rest[j] == queue[j + 1]);
            }
        }
        lemma_asked_in_order(rest, finished, key, under_way + 1);
    }
}

// ---------------------------------------------------------------------------------------------
// How a search starts
// ---------------------------------------------------------------------------------------------

/// The node itself, as it stands among those that have answered.
pub open spec fn own_node(own: Stub) -> NodeView {
    NodeView { id: own.id, ip: "::1"@, port: own.port }
}

/// Whether `search` is a search as the node `own` starts it when `known` are the nearest nodes
/// that it knows, and `asks` are the first that it asks.
pub open spec fn begun(
    search: LookupView,
    asks: Seq<Node>,
    own: Stub,
    known: Seq<Node>,
    key: u128,
) -> bool {
    let queue = asks + search.queue;
    &&& search.key == key
    &&& by_distance(queue, key)
    &&& queue.to_multiset() == known.to_multiset()
    &&& asks.len() == if known.len() < ALPHA { known.len() } else { ALPHA as nat }
    &&& search.under_way == asks.len()
    &&& search.seen == ids(queue).push(own.id)
    &&& search.finished.len() == 1
    &&& search.finished[0]@ == own_node(own)
}

/// A value as the outcome of a search.
pub open spec fn found_value(key: u128, value: Seq<u8>) -> StoreOrNodesView {
    StoreOrNodesView::Store(StoreView { key, value })
}

/// The first answer to the search for a value.
#[derive(Debug)]
pub enum ValueSearch {
    /// The node keeps the value itself.
    Found(StoreOrNodes),
    /// The value is to be searched for, and the given nodes are to be asked.
    Search(Lookup, Vec<Node>),
}

/// The answer of a node that was asked for a value.
#[derive(Debug)]
pub enum ValueReply {
    /// The value, or nodes that are nearer to it.
    Answer(StoreOrNodes),
    /// No answer, or one that cannot be read.
    Failed,
}

/// How the search for a value goes on.
#[derive(Debug)]
pub enum ValueStep {
    /// The value is found.
    Found(StoreOrNodes),
    /// The given nodes are to be asked.
    Ask(Vec<Node>),
}

impl<'a> StateRef<'a> {
    /// Starts a search for the nodes nearest to a key, and gives the nodes to ask first.
    pub fn lookup_node(&self, key: u128) -> (started: (Lookup, Vec<Node>))
        requires
            self.state.wf(),
        ensures
            started.0@.wf(),
            exists|known: Seq<Node>|
                #![trigger nearest_of(known, all_nodes(self.state.table()), key, K as nat)]
                nearest_of(known, all_nodes(self.state.table()), key, K as nat) && begun(
                    started.0@,
                    started.1@,
                    self.state.own_stub(),
                    known,
                    key,
                ),
    {
        let known: Vec<Node> = self.state.nearest(key);
        let queue: Vec<Node> = sort_by_distance(known, key);
        let mut seen: Vec<u128> = Vec::new();
        let mut i: usize = 0;
        while i < queue.len()
            invariant
                i <= queue@.len(),
                seen@ == ids(queue@).take(i as int),
            decreases queue@.len() - i,
        {
            seen.push(queue[i].id);
            i = i + 1;
            assert(seen@ =~= ids(queue@).take(i as int));
        }
        assert(seen@ =~= ids(queue@));
        seen.push(self.state.id);
        let mut finished: Vec<Node> = Vec::new();
        finished.push(Node::from_stub(self.state.stub(), "::1".to_owned()));
        let mut search: Lookup = Lookup { key, queue, seen, finished, under_way: 0 };
        proof {
            lemma_asked_in_order(search@.queue, search@.finished, key, 0);
            asked_divides(search@.queue, search@.finished, key, 0);
        }
        let asks: Vec<Node> = search.ask();
        assert(asks@ + search@.queue =~= queue@);
        (search, asks)
    }

    /// Starts a search for the value under a key: what the node keeps itself under it, else a
    /// search and the nodes to ask first.
    pub fn lookup_value(&self, key: u128) -> (search: ValueSearch)
        requires
            self.state.wf(),
        ensures
            match search {
                ValueSearch::Found(found) => {
                    &&& self.state.contents().dom().contains(key)
                    &&& found@ == found_value(key, self.state.contents()[key].data)
                },
                ValueSearch::Search(lookup, asks) => {
                    &&& !self.state.contents().dom().contains(key)
                    &&& lookup@.wf()
                    &&& exists|known: Seq<Node>|
                        #![trigger nearest_of(known, all_nodes(self.state.table()), key, K as nat)]
                        nearest_of(known, all_nodes(self.state.table()), key, K as nat) && begun(
                            lookup@,
                            asks@,
                            self.state.own_stub(),
                            known,
                            key,
                        )
                },
            },
    {
        match self.state.value(key) {
            Some(value) => ValueSearch::Found(Store { key, value }.or_nodes()),
            None => {
                let (lookup, asks) = self.lookup_node(key);
                ValueSearch::Search(lookup, asks)
            },
        }
    }
}

// ---------------------------------------------------------------------------------------------
// What holds of every search
// ---------------------------------------------------------------------------------------------

/// Whether no node stands in the queue twice, all of them are among those heard of, and nobody is
/// noted twice there.
pub open spec fn sound(search: LookupView) -> bool {
    &&& search.wf()
    &&& ids_differ(search.queue)
    &&& forall|i: int|
        0 <= i < search.queue.len() ==> search.seen.contains((#[trigger] search.queue[i]).id)
    &&& search.seen.no_duplicates()
    &&& forall|i: int| 0 <= i < search.seen.len() ==> #[trigger] search.seen[i] <= ID_MASK
}

/// Whether all identifiers of an answer are in range.
pub open spec fn reply_in_range(reply: Option<Seq<Node>>) -> bool {
    match reply {
        Some(nodes) => ids_in_range(nodes),
        None => true,
    }
}

proof fn lemma_no_duplicates_push(seen: Seq<u128>, id: u128)
    requires
        seen.no_duplicates(),
        !seen.contains(id),
    ensures
        seen.push(id).no_duplicates(),
        seen.push(id).contains(id),
        forall|x: u128| #[trigger] seen.contains(x) ==> seen.push(id).contains(x),
{
    let more = seen.push(id);
    assert(more[seen.len() as int] == id);
    assert forall|x: u128| #[trigger] seen.contains(x) implies more.contains(x) by {
        let i = choose|i: int| 0 <= i < seen.len() && seen[i] == x;
        assert(more[i] == x);
    }
    assert forall|i: int, j: int|
        0 <= i < more.len() && 0 <= j < more.len() && i != j implies more[i] != more[j] by {
        assert(i < seen.len() ==> seen.contains(seen[i]));
        assert(j < seen.len() ==> seen.contains(seen[j]));
    }
}

proof fn lemma_informed(search: LookupView, nodes: Seq<Node>)
    requires
        sound(search),
        ids_in_range(nodes),
    ensures
        ({
            let told = informed(search, nodes);
            &&& sound(told)
            &&& forall|id: u128| #[trigger] search.seen.contains(id) ==> told.seen.contains(id)
            &&& forall|i: int|
                0 <= i < told.queue.len() ==> search.queue.contains(#[trigger] told.queue[i])
                    || !search.seen.contains(told.queue[i].id)
            &&& told.queue.len() - search.queue.len() == told.seen.len() - search.seen.len()
            &&& told.seen.len() >= search.seen.len()
            &&& told.under_way == search.under_way
            &&& told.finished == search.finished
            &&& told.key == search.key
        }),
    decreases nodes.len(),
{
    if nodes.len() == 0 {
        assert forall|i: int| 0 <= i < search.queue.len() implies search.queue.contains(
            #[trigger] search.queue[i],
        ) by {}
    } else {
        assert(nodes.last().id <= ID_MASK);
        lemma_informed(search, nodes.drop_last());
        let before = informed(search, nodes.drop_last());
        let node = nodes.last();
        if !before.seen.contains(node.id) {
            let told = informed(search, nodes);
            let at = closer(before.queue, far(node, before.key), before.key) as int;
            closer_divides(before.queue, far(node, before.key), before.key);
            placed_in_order(before.queue, node, before.key);
            lemma_no_duplicates_push(before.seen, node.id);
            assert(told.queue[at] == node);
            assert forall|i: int| 0 <= i < told.queue.len() implies {
                &&& search.queue.contains(#[trigger] told.queue[i]) || !search.seen.contains(
                    told.queue[i].id,
                )
                &&& told.seen.contains(told.queue[i].id)
            } by {
                if i != at {
                    let j = if i < at { i } else { i - 1 };
                    assert(told.queue[i] == before.queue[j]);
                    assert(before.seen.contains(before.queue[j].id));
                }
            }
            assert forall|i: int, j: int| 0 <= i < j < told.queue.len() implies (
            #[trigger] told.queue[i]).id != (#[trigger] told.queue[j]).id by {
                let a = if i < at { i } else { i - 1 };
                let b = if j < at { j } else { j - 1 };
                if i != at && j != at {
                    assert(told.queue[i] == before.queue[a]);
                    assert(told.queue[j] == before.queue[b]);
                } else if i == at {
                    assert(told.queue[j] == before.queue[b]);
                    assert(before.seen.contains(before.queue[b].id));
                } else {
                    assert(told.queue[i] == before.queue[a]);
                    assert(before.seen.contains(before.queue[a].id));
                }
            }
        }
    }
}

proof fn lemma_answered(search: LookupView, node: Node, reply: Option<Seq<Node>>)
    requires
        sound(search),
        reply_in_range(reply),
    ensures
        ({
            let told = answered(search, node, reply);
            &&& sound(told)
            &&& forall|id: u128| #[trigger] search.seen.contains(id) ==> told.seen.contains(id)
            &&& forall|i: int|
                0 <= i < told.queue.len() ==> search.queue.contains(#[trigger] told.queue[i])
                    || !search.seen.contains(told.queue[i].id)
            &&& told.queue.len() - search.queue.len() == told.seen.len() - search.seen.len()
            &&& told.seen.len() >= search.seen.len()
            &&& told.under_way == search.under_way
            &&& told.key == search.key
        }),
{
    match reply {
        Some(nodes) => {
            lemma_informed(search, nodes);
            placed_in_order(search.finished, node, search.key);
        },
        None => {
            assert forall|i: int| 0 <= i < search.queue.len() implies search.queue.contains(
                #[trigger] search.queue[i],
            ) by {}
        },
    }
}

/// Hearing an answer keeps a search sound, before anybody else is asked.
pub proof fn answer_keeps_lookup_sound(search: LookupView, node: Node, reply: Option<Seq<Node>>)
    requires
        sound(search),
        reply_in_range(reply),
    ensures
        sound(answered(search, node, reply)),
{
    lemma_answered(search, node, reply);
}

/// Every answer keeps a search sound.
pub proof fn reply_keeps_lookup_sound(search: LookupView, node: Node, reply: Option<Seq<Node>>)
    requires
        sound(search),
        search.under_way > 0,
        reply_in_range(reply),
    ensures
        sound(continued(answered(search, node, reply))),
{
    lemma_answered(search, node, reply);
    let told = answered(search, node, reply);
    let open = (told.under_way - 1) as nat;
    asked_divides(told.queue, told.finished, told.key, open);
    lemma_asked_in_order(told.queue, told.finished, told.key, open);
    let left = continued(told).queue;
    let from = told.queue.len() - left.len();
    assert forall|i: int| 0 <= i < left.len() implies told.seen.contains(
        (#[trigger] left[i]).id,
    ) by {
        assert(left[i] == told.queue[from + i]);
    }
    assert forall|i: int, j: int| 0 <= i < j < left.len() implies (#[trigger] left[i]).id != (
    #[trigger] left[j]).id by {
        assert(left[i] == told.queue[from + i]);
        assert(left[j] == told.queue[from + j]);
    }
}

/// Whether the nodes with these identifiers have been asked and none of them can be asked again:
/// they have been heard of, and they are not in the queue.
pub open spec fn done_with(search: LookupView, asked_ids: Seq<u128>) -> bool {
    &&& asked_ids.no_duplicates()
    &&& forall|i: int|
        0 <= i < asked_ids.len() ==> search.seen.contains(#[trigger] asked_ids[i]) && !ids(
            search.queue,
        ).contains(asked_ids[i])
}

/// No node is asked twice: the nodes asked after an answer are none of those asked before, they
/// differ from each other, and together with those before they have been asked for good.
pub proof fn no_node_is_asked_twice(
    search: LookupView,
    asked_ids: Seq<u128>,
    node: Node,
    reply: Option<Seq<Node>>,
)
    requires
        sound(search),
        search.under_way > 0,
        reply_in_range(reply),
        done_with(search, asked_ids),
    ensures
        done_with(
            continued(answered(search, node, reply)),
            asked_ids + ids(next_asks(answered(search, node, reply))),
        ),
{
    lemma_answered(search, node, reply);
    let told = answered(search, node, reply);
    let open = (told.under_way - 1) as nat;
    asked_divides(told.queue, told.finished, told.key, open);
    let asks = next_asks(told);
    let left = continued(told).queue;
    let from = told.queue.len() - left.len();
    let all = asked_ids + ids(asks);
    assert forall|k: int, i: int| 0 <= k < asked_ids.len() && 0 <= i < told.queue.len() implies (
    #[trigger] told.queue[i]).id != #[trigger] asked_ids[k] by {
        if search.queue.contains(told.queue[i]) {
            let j = choose|j: int| 0 <= j < search.queue.len() && search.queue[j] == told.queue[i];
            assert(ids(search.queue)[j] == told.queue[i].id);
        }
    }
    assert forall|k: int| 0 <= k < all.len() implies told.seen.contains(#[trigger] all[k]) && !ids(
        left,
    ).contains(all[k]) by {
        if k < asked_ids.len() {
            assert(all[k] == asked_ids[k]);
            assert(search.seen.contains(asked_ids[k]));
        } else {
            assert(all[k] == told.queue[k - asked_ids.len()].id);
        }
        if ids(left).contains(all[k]) {
            let i = choose|i: int| 0 <= i < ids(left).len() && ids(left)[i] == all[k];
            assert(left[i] == told.queue[from + i]);
            if k < asked_ids.len() {
                assert(told.queue[from + i].id != asked_ids[k]);
            } else {
                assert(told.queue[k - asked_ids.len()].id != told.queue[from + i].id);
            }
        }
    }
    assert forall|i: int, j: int|
        0 <= i < all.len() && 0 <= j < all.len() && i != j implies all[i] != all[j] by {
        let n = asked_ids.len() as int;
        if i >= n {
            assert(all[i] == told.queue[i - n].id);
        } else {
            assert(all[i] == asked_ids[i]);
        }
        if j >= n {
            assert(all[j] == told.queue[j - n].id);
        } else {
            assert(all[j] == asked_ids[j]);
        }
    }
}

/// How many answers a search can wait for at most: each node not heard of yet may be queued and
/// asked, and each node queued may be asked.
pub open spec fn work_left(search: LookupView) -> int {
    2 * (ID_MASK + 1 - search.seen.len()) + search.queue.len() + search.under_way
}

proof fn lemma_distinct_in_range(list: Seq<u128>)
    requires
        list.no_duplicates(),
        forall|i: int| 0 <= i < list.len() ==> #[trigger] list[i] <= ID_MASK,
    ensures
        list.len() <= ID_MASK + 1,
{
    let numbers = list.map_values(|x: u128| x as int);
    assert(numbers.no_duplicates()) by {
        assert forall|i: int, j: int|
            0 <= i < numbers.len() && 0 <= j < numbers.len() && i != j implies numbers[i]
            != numbers[j] by {
            assert(list[i] != list[j]);
        }
    }
    numbers.unique_seq_to_set();
    let range = vstd::set_lib::set_int_range(0, ID_MASK + 1);
    vstd::set_lib::lemma_int_range(0, ID_MASK + 1);
    assert(numbers.to_set().subset_of(range)) by {
        assert forall|x: int| numbers.to_set().contains(x) implies range.contains(x) by {
            let i = choose|i: int| 0 <= i < numbers.len() && numbers[i] == x;
            assert(list[i] <= ID_MASK);
        }
    }
    vstd::set_lib::lemma_len_subset(numbers.to_set(), range);
}

/// What a search can still wait for is never negative.
pub proof fn work_is_never_negative(search: LookupView)
    requires
        sound(search),
    ensures
        work_left(search) >= 0,
{
    lemma_distinct_in_range(search.seen);
}

/// Every search ends: each answer leaves less to wait for, and what is left is never negative.
pub proof fn every_lookup_ends(search: LookupView, node: Node, reply: Option<Seq<Node>>)
    requires
        sound(search),
        search.under_way > 0,
        reply_in_range(reply),
    ensures
        0 <= work_left(continued(answered(search, node, reply))) < work_left(search),
{
    lemma_answered(search, node, reply);
    reply_keeps_lookup_sound(search, node, reply);
    let told = answered(search, node, reply);
    asked_divides(told.queue, told.finished, told.key, (told.under_way - 1) as nat);
    lemma_distinct_in_range(continued(told).seen);
}

/// A search gives the nearest of those that answered: no more than a bucket has room for, the
/// nearest first, and nobody who answered and is left out is nearer than one who is given.
pub proof fn lookup_gives_the_nearest(search: LookupView)
    requires
        search.wf(),
    ensures
        ({
            let given = concluded(search);
            &&& given.len() <= K
            &&& given.len() <= search.finished.len()
            &&& given.len() < K ==> given == search.finished
            &&& given == search.finished.take(given.len() as int)
            &&& by_distance(given, search.key)
            &&& forall|i: int, j: int|
                0 <= i < given.len() <= j < search.finished.len() ==> far(
                    #[trigger] given[i],
                    search.key,
                ) <= far(#[trigger] search.finished[j], search.key)
        }),
{
    let given = concluded(search);
    assert(given =~= search.finished.take(given.len() as int));
    assert forall|i: int, j: int| 0 <= i <= j < given.len() implies far(
        #[trigger] given[i],
        search.key,
    ) <= far(#[trigger] given[j], search.key) by {
        assert(given[i] == search.finished[i]);
        assert(given[j] == search.finished[j]);
    }
    assert forall|i: int, j: int| 0 <= i < given.len() <= j < search.finished.len() implies far(
        #[trigger] given[i],
        search.key,
    ) <= far(#[trigger] search.finished[j], search.key) by {
        assert(given[i] == search.finished[i]);
    }
}

/// Those that answered are noted, and nobody else: an answer adds the node that gave it to them,
/// and a failure adds nobody.
pub proof fn only_those_that_answered_are_given(
    search: LookupView,
    node: Node,
    reply: Option<Seq<Node>>,
)
    requires
        search.wf(),
        search.under_way > 0,
    ensures
        continued(answered(search, node, reply)).finished.to_multiset() == match reply {
            Some(_) => search.finished.to_multiset().insert(node),
            None => search.finished.to_multiset(),
        },
{
    match reply {
        Some(nodes) => {
            lemma_informed_keeps(search, nodes);
            placed_in_order(search.finished, node, search.key);
        },
        None => {},
    }
}

/// Whether a node is farther away than `K` that have answered.
pub open spec fn beyond(search: LookupView, node: Node) -> bool {
    search.finished.len() >= K && far(search.finished[K - 1], search.key) < far(node, search.key)
}

/// Nobody nearer is passed over. A node that leaves the queue is asked, or it is farther away
/// than `K` that have answered; and where nothing is left to wait for, so are all nodes that are
/// still in the queue.
pub proof fn nobody_nearer_is_passed_over(search: LookupView, i: int)
    requires
        search.wf(),
        search.under_way > 0,
        0 <= i < search.queue.len(),
    ensures
        ({
            let node = search.queue[i];
            let next = continued(search);
            &&& next_asks(search).contains(node) || next.queue.contains(node) || beyond(next, node)
            &&& next.under_way == 0 ==> beyond(next, node)
        }),
{
    let open = (search.under_way - 1) as nat;
    asked_divides(search.queue, search.finished, search.key, open);
    let asks = next_asks(search);
    let left = continued(search).queue;
    let from = search.queue.len() - left.len();
    if i < asks.len() {
        assert(asks[i] == search.queue[i]);
    } else if i >= from {
        assert(left[i - from] == search.queue[i]);
    }
    if continued(search).under_way == 0 {
        assert(far(search.queue[0], search.key) <= far(search.queue[i], search.key));
    }
}

/// Once a node is farther away than `K` that have answered, it stays so whatever answers come.
pub proof fn beyond_stays(search: LookupView, far_node: Node, node: Node, reply: Option<Seq<Node>>)
    requires
        search.wf(),
        search.under_way > 0,
        beyond(search, far_node),
    ensures
        beyond(continued(answered(search, node, reply)), far_node),
{
    match reply {
        Some(nodes) => {
            lemma_informed_keeps(search, nodes);
            let distance = far(node, search.key);
            let at = closer(search.finished, distance, search.key) as int;
            closer_divides(search.finished, distance, search.key);
            let more = placed(search.finished, node, search.key);
            if at < K - 1 {
                assert(more[K - 1] == search.finished[K - 2]);
                assert(far(search.finished[K - 2], search.key) <= far(
                    search.finished[K - 1],
                    search.key,
                ));
            } else if at == K - 1 {
                assert(far(search.finished[K - 1], search.key) >= distance);
            } else {
                assert(more[K - 1] == search.finished[K - 1]);
            }
        },
        None => {},
    }
}

proof fn lemma_all_nodes_differ(id: u128, table: Seq<Seq<Node>>)
    requires
        id <= ID_MASK,
        forall|b: int| 0 <= b < table.len() ==> bucket_ok(id, b, #[trigger] table[b]),
        table.len() <= ID_BITS,
        table_distinct(table),
    ensures
        ids_differ(all_nodes(table)),
        forall|i: int|
            0 <= i < all_nodes(table).len() ==> {
                &&& (#[trigger] all_nodes(table)[i]).id <= ID_MASK
                &&& all_nodes(table)[i].id != id
                &&& 0 <= bucket_of(id, all_nodes(table)[i].id) < table.len()
            },
    decreases table.len(),
{
    if table.len() > 0 {
        let front = table.drop_last();
        assert forall|b: int| 0 <= b < front.len() implies bucket_ok(id, b, #[trigger] front[b])
            && ids_differ(front[b]) by {
            assert(front[b] == table[b]);
        }
        lemma_all_nodes_differ(id, front);
        let before = all_nodes(front);
        let last = table.last();
        let all = all_nodes(table);
        let n = before.len() as int;
        assert(bucket_ok(id, table.len() - 1, table[table.len() - 1]));
        assert(ids_differ(table[table.len() - 1]));
        distance_range(id, id);
        assert forall|i: int| 0 <= i < all.len() implies {
            &&& (#[trigger] all[i]).id <= ID_MASK
            &&& all[i].id != id
            &&& 0 <= bucket_of(id, all[i].id) < table.len()
            &&& i >= n ==> bucket_of(id, all[i].id) == table.len() - 1
        } by {
            if i < n {
                assert(all[i] == before[i]);
            } else {
                assert(all[i] == last[i - n]);
            }
        }
        assert forall|i: int, j: int| 0 <= i < j < all.len() implies (#[trigger] all[i]).id != (
        #[trigger] all[j]).id by {
            if j < n {
                assert(all[i] == before[i] && all[j] == before[j]);
            } else if i >= n {
                assert(all[i] == last[i - n] && all[j] == last[j - n]);
            } else {
                assert(all[i] == before[i] && all[j] == last[j - n]);
            }
        }
    }
}

/// A part of a list in which no identifier stands twice has none twice either, whatever its
/// order.
proof fn lemma_part_differs(part: Seq<Node>, all: Seq<Node>)
    requires
        ids_differ(all),
        part.to_multiset().subset_of(all.to_multiset()),
    ensures
        ids_differ(part),
        forall|i: int| 0 <= i < part.len() ==> all.contains(#[trigger] part[i]),
{
    part.to_multiset_ensures();
    all.to_multiset_ensures();
    assert forall|i: int| 0 <= i < part.len() implies all.contains(#[trigger] part[i]) by {
        assert(part.contains(part[i]));
        assert(part.to_multiset().count(part[i]) > 0);
        assert(all.to_multiset().count(part[i]) > 0);
    }
    assert(all.no_duplicates());
    all.lemma_multiset_has_no_duplicates();
    assert(part.no_duplicates()) by {
        assert forall|x: Node| part.to_multiset().contains(x) implies part.to_multiset().count(x)
            == 1 by {
            assert(all.to_multiset().count(x) >= part.to_multiset().count(x));
            assert(all.to_multiset().contains(x));
        }
        part.lemma_multiset_has_no_duplicates_conv();
    }
    assert forall|i: int, j: int| 0 <= i < j < part.len() implies (#[trigger] part[i]).id != (
    #[trigger] part[j]).id by {
        let p = choose|p: int| 0 <= p < all.len() && all[p] == part[i];
        let q = choose|q: int| 0 <= q < all.len() && all[q] == part[j];
        assert(part[i] != part[j]);
        assert(p != q);
    }
}

/// The nearest nodes are nodes of the table, no more than a bucket has room for, and never the
/// node itself; where no identifier stands twice in the table, none stands twice among them.
pub proof fn nearest_nodes_are_known(
    id: u128,
    table: Seq<Seq<Node>>,
    known: Seq<Node>,
    key: u128,
)
    requires
        id <= ID_MASK,
        table_ok(id, table),
        table_distinct(table),
        nearest_of(known, all_nodes(table), key, K as nat),
    ensures
        known.len() <= K,
        ids_differ(known),
        forall|i: int|
            0 <= i < known.len() ==> {
                &&& all_nodes(table).contains(#[trigger] known[i])
                &&& known[i].id != id
                &&& known[i].id <= ID_MASK
            },
{
    let all = all_nodes(table);
    lemma_all_nodes_differ(id, table);
    all.to_multiset_ensures();
    assert(known.to_multiset().subset_of(all.to_multiset()));
    lemma_part_differs(known, all);
    assert forall|i: int| 0 <= i < known.len() implies {
        &&& all.contains(#[trigger] known[i])
        &&& known[i].id != id
        &&& known[i].id <= ID_MASK
    } by {
        let p = choose|p: int| 0 <= p < all.len() && all[p] == known[i];
        assert(all[p].id != id);
    }
}

/// A search starts sound where no identifier stands twice in the table. The nodes asked first have
/// been asked for good, and so has the node itself: it never asks itself.
pub proof fn lookup_starts_sound(
    own: Stub,
    table: Seq<Seq<Node>>,
    known: Seq<Node>,
    key: u128,
    search: LookupView,
    asks: Seq<Node>,
)
    requires
        own.id <= ID_MASK,
        table_ok(own.id, table),
        table_distinct(table),
        nearest_of(known, all_nodes(table), key, K as nat),
        begun(search, asks, own, known, key),
    ensures
        sound(search),
        done_with(search, seq![own.id] + ids(asks)),
{
    let all = all_nodes(table);
    let queue = asks + search.queue;
    let n = asks.len() as int;
    lemma_all_nodes_differ(own.id, table);
    all.to_multiset_ensures();
    assert(queue.to_multiset().subset_of(all.to_multiset()));
    lemma_part_differs(queue, all);
    assert(by_distance(search.queue, key)) by {
        assert forall|i: int, j: int| 0 <= i <= j < search.queue.len() implies far(
            #[trigger] search.queue[i],
            key,
        ) <= far(#[trigger] search.queue[j], key) by {
            assert(search.queue[i] == queue[n + i]);
            assert(search.queue[j] == queue[n + j]);
        }
    }
    assert forall|i: int| 0 <= i < queue.len() implies (#[trigger] queue[i]).id <= ID_MASK
        && queue[i].id != own.id && search.seen.contains(queue[i].id) by {
        let p = choose|p: int| 0 <= p < all.len() && all[p] == queue[i];
        assert(all[p].id != own.id);
        assert(search.seen[i] == queue[i].id);
    }
    assert forall|i: int| 0 <= i < search.queue.len() implies search.seen.contains(
        (#[trigger] search.queue[i]).id,
    ) by {
        assert(search.queue[i] == queue[n + i]);
    }
    assert forall|i: int, j: int| 0 <= i < j < search.queue.len() implies (
    #[trigger] search.queue[i]).id != (#[trigger] search.queue[j]).id by {
        assert(search.queue[i] == queue[n + i]);
        assert(search.queue[j] == queue[n + j]);
    }
    assert forall|i: int, j: int|
        0 <= i < search.seen.len() && 0 <= j < search.seen.len() && i
            != j implies search.seen[i] != search.seen[j] by {
        assert(i < queue.len() ==> search.seen[i] == queue[i].id);
        assert(j < queue.len() ==> search.seen[j] == queue[j].id);
    }
    assert forall|i: int| 0 <= i < search.seen.len() implies #[trigger] search.seen[i]
        <= ID_MASK by {
        assert(i < queue.len() ==> search.seen[i] == queue[i].id);
    }
    let gone = seq![own.id] + ids(asks);
    assert(search.seen[queue.len() as int] == own.id);
    assert forall|i: int| 0 <= i < gone.len() implies search.seen.contains(#[trigger] gone[i])
        && !ids(search.queue).contains(gone[i]) by {
        if i > 0 {
            assert(gone[i] == queue[i - 1].id);
        }
        if ids(search.queue).contains(gone[i]) {
            let j = choose|j: int|
                0 <= j < ids(search.queue).len() && ids(search.queue)[j] == gone[i];
            assert(ids(search.queue)[j] == queue[n + j].id);
        }
    }
    assert forall|i: int, j: int|
        0 <= i < gone.len() && 0 <= j < gone.len() && i != j implies gone[i] != gone[j] by {
        assert(i > 0 ==> gone[i] == queue[i - 1].id);
        assert(j > 0 ==> gone[j] == queue[j - 1].id);
    }
}

/// Nobody stands twice among those that answered, where each answers once.
pub proof fn answers_stand_once(search: LookupView, node: Node, reply: Option<Seq<Node>>)
    requires
        search.wf(),
        search.under_way > 0,
        ids_differ(search.finished),
        !ids(search.finished).contains(node.id),
    ensures
        ids_differ(continued(answered(search, node, reply)).finished),
{
    match reply {
        Some(nodes) => {
            lemma_informed_keeps(search, nodes);
            let at = closer(search.finished, far(node, search.key), search.key) as int;
            closer_divides(search.finished, far(node, search.key), search.key);
            let more = placed(search.finished, node, search.key);
            assert forall|i: int| 0 <= i < search.finished.len() implies (
            #[trigger] search.finished[i]).id != node.id by {
                assert(ids(search.finished)[i] == search.finished[i].id);
            }
            assert forall|i: int, j: int| 0 <= i < j < more.len() implies (#[trigger] more[i]).id
                != (#[trigger] more[j]).id by {
                let a = if i < at { i } else { i - 1 };
                let b = if j < at { j } else { j - 1 };
                assert(i != at ==> more[i] == search.finished[a]);
                assert(j != at ==> more[j] == search.finished[b]);
            }
        },
        None => {},
    }
}

/// Hearing of nodes changes none of them. What is in the queue then was there before or was named,
/// with its address and port as it was; nobody leaves the queue; the first node named with an
/// identifier not heard of before joins it; and exactly the identifiers named are heard of in
/// addition. Nothing else of the search changes.
pub proof fn named_nodes_join_unchanged(search: LookupView, nodes: Seq<Node>)
    ensures
        ({
            let told = informed(search, nodes);
            &&& told.key == search.key
            &&& told.finished == search.finished
            &&& told.under_way == search.under_way
            &&& told.queue.len() - search.queue.len() == told.seen.len() - search.seen.len()
            &&& forall|n: Node| #[trigger]
                told.queue.contains(n) ==> search.queue.contains(n) || nodes.contains(n)
            &&& forall|n: Node| #[trigger] search.queue.contains(n) ==> told.queue.contains(n)
            &&& forall|i: int|
                0 <= i < nodes.len() && !search.seen.contains((#[trigger] nodes[i]).id) && (forall|
                    j: int,
                |
                    0 <= j < i ==> (#[trigger] nodes[j]).id != nodes[i].id) ==> told.queue.contains(
                    nodes[i],
                )
            &&& forall|id: u128| #[trigger]
                told.seen.contains(id) <==> search.seen.contains(id) || ids(nodes).contains(id)
            &&& forall|n: Node| #[trigger]
                told.queue.contains(n) && !search.queue.contains(n) ==> !search.seen.contains(n.id)
        }),
    decreases nodes.len(),
{
    if nodes.len() > 0 {
        let front = nodes.drop_last();
        let node = nodes.last();
        named_nodes_join_unchanged(search, front);
        let before = informed(search, front);
        let told = informed(search, nodes);
        let at = closer(before.queue, far(node, before.key), before.key) as int;
        closer_divides(before.queue, far(node, before.key), before.key);
        let joins = !before.seen.contains(node.id);
        assert(nodes[nodes.len() - 1] == node);
        assert forall|n: Node| #[trigger] before.queue.contains(n) implies told.queue.contains(
            n,
        ) by {
            let k = choose|k: int| 0 <= k < before.queue.len() && before.queue[k] == n;
            if joins {
                let j = if k < at { k } else { k + 1 };
                assert(told.queue[j] == n);
            }
        }
        assert forall|n: Node| #[trigger] told.queue.contains(n) implies before.queue.contains(n)
            || (n == node && joins) by {
            let k = choose|k: int| 0 <= k < told.queue.len() && told.queue[k] == n;
            if joins && k != at {
                let j = if k < at { k } else { k - 1 };
                assert(before.queue[j] == n);
            }
        }
        assert forall|n: Node| #[trigger] front.contains(n) implies nodes.contains(n) by {
            let k = choose|k: int| 0 <= k < front.len() && front[k] == n;
            assert(nodes[k] == n);
        }
        assert forall|n: Node| #[trigger] told.queue.contains(n) implies search.queue.contains(n)
            || nodes.contains(n) by {
            if before.queue.contains(n) && !search.queue.contains(n) {
                assert(front.contains(n));
            }
        }
        assert forall|n: Node| #[trigger] search.queue.contains(n) implies told.queue.contains(
            n,
        ) by {
            assert(before.queue.contains(n));
        }
        assert forall|id: u128| #[trigger] told.seen.contains(id) <==> search.seen.contains(id)
            || ids(nodes).contains(id) by {
            assert(before.seen.contains(id) <==> search.seen.contains(id) || ids(front).contains(
                id,
            ));
            lemma_last_id(nodes, id);
            if joins {
                if told.seen.contains(id) {
                    let k = choose|k: int| 0 <= k < told.seen.len() && told.seen[k] == id;
                    if k < before.seen.len() {
                        assert(before.seen[k] == id);
                    }
                }
                if before.seen.contains(id) {
                    let k = choose|k: int| 0 <= k < before.seen.len() && before.seen[k] == id;
                    assert(told.seen[k] == id);
                }
                assert(told.seen[before.seen.len() as int] == node.id);
            }
        }
        assert forall|i: int|
            0 <= i < nodes.len() && !search.seen.contains((#[trigger] nodes[i]).id) && (forall|
                j: int,
            |
                0 <= j < i ==> (#[trigger] nodes[j]).id != nodes[i].id) implies told.queue.contains(
            nodes[i],
        ) by {
            if i < front.len() {
                assert(front[i] == nodes[i]);
                assert forall|j: int| 0 <= j < i implies (#[trigger] front[j]).id
                    != front[i].id by {
                    assert(front[j] == nodes[j]);
                }
                assert(before.queue.contains(front[i]));
            } else {
                assert(!ids(front).contains(node.id)) by {
                    if ids(front).contains(node.id) {
                        let k = choose|k: int|
                            0 <= k < ids(front).len() && ids(front)[k] == node.id;
                        assert(nodes[k].id == node.id);
                    }
                }
                assert(!before.seen.contains(node.id));
                assert(told.queue[at] == node);
            }
        }
        assert forall|n: Node| #[trigger]
            told.queue.contains(n) && !search.queue.contains(n) implies !search.seen.contains(
            n.id,
        ) by {
            if n == node && joins {
                assert(before.seen.contains(n.id) <==> search.seen.contains(n.id) || ids(
                    front,
                ).contains(n.id));
            }
        }
    } else {
        assert(ids(nodes) =~= Seq::<u128>::empty());
    }
}

proof fn lemma_last_id(nodes: Seq<Node>, id: u128)
    requires
        nodes.len() > 0,
    ensures
        ids(nodes).contains(id) <==> ids(nodes.drop_last()).contains(id) || nodes.last().id == id,
{
    let front = nodes.drop_last();
    if ids(nodes).contains(id) {
        let k = choose|k: int| 0 <= k < ids(nodes).len() && ids(nodes)[k] == id;
        if k < front.len() {
            assert(ids(front)[k] == id);
        }
    }
    if ids(front).contains(id) {
        let k = choose|k: int| 0 <= k < ids(front).len() && ids(front)[k] == id;
        assert(ids(nodes)[k] == id);
    }
    assert(ids(nodes)[nodes.len() - 1] == nodes.last().id);
}

/// An answer puts the node that gave it among those that answered, in its place and unchanged, and
/// tells of the nodes that it names; a failure changes nothing.
pub proof fn an_answer_is_noted(search: LookupView, node: Node, reply: Option<Seq<Node>>)
    requires
        search.wf(),
    ensures
        ({
            let after = answered(search, node, reply);
            &&& reply is None ==> after == search
            &&& reply is Some ==> {
                let told = informed(search, reply->0);
                &&& after.key == search.key
                &&& after.queue == told.queue
                &&& after.seen == told.seen
                &&& after.under_way == search.under_way
                &&& exists|p: int|
                    #![trigger search.finished.take(p)]
                    {
                        &&& 0 <= p <= search.finished.len()
                        &&& after.finished == search.finished.take(p) + seq![node]
                            + search.finished.skip(p)
                        &&& forall|i: int|
                            0 <= i < p ==> ((#[trigger] search.finished[i]).id ^ search.key) < (
                            node.id ^ search.key)
                        &&& forall|i: int|
                            p <= i < search.finished.len() ==> ((#[trigger] search.finished[i]).id
                                ^ search.key) >= (node.id ^ search.key)
                    }
            }
        }),
{
    if reply is Some {
        lemma_informed_keeps(search, reply->0);
        a_node_is_placed_where_it_belongs(search.finished, node, search.key);
    }
}

proof fn lemma_none_asked_is_beyond(queue: Seq<Node>, finished: Seq<Node>, key: u128, under_way: nat)
    ensures
        ({
            let (asks, left) = asked(queue, finished, key, under_way);
            &&& forall|i: int|
                0 <= i < asks.len() ==> finished.len() < K || (finished[K - 1].id ^ key) >= ((
                #[trigger] asks[i]).id ^ key)
            &&& under_way + asks.len() >= ALPHA ==> left.len() == queue.len() - asks.len()
        }),
    decreases queue.len(),
{
    if !(under_way >= ALPHA || queue.len() == 0) && !(finished.len() >= K && far(
        finished[K - 1],
        key,
    ) < far(queue[0], key)) {
        lemma_none_asked_is_beyond(queue.drop_first(), finished, key, under_way + 1);
        let (asks, left) = asked(queue, finished, key, under_way);
        let (more, end) = asked(queue.drop_first(), finished, key, under_way + 1);
        assert forall|i: int| 0 <= i < asks.len() implies finished.len() < K || (finished[K - 1].id
            ^ key) >= ((#[trigger] asks[i]).id ^ key) by {
            if i > 0 {
                assert(asks[i] == more[i - 1]);
            } else {
                assert(asks[i] == queue[0]);
            }
        }
    }
}

/// How a search goes on once an answer is noted. With one question less open, the nodes at the
/// front of the queue are asked, in order and unchanged, until `ALPHA` questions are open, the
/// queue is empty, or a node comes that is farther away than `K` that have answered; that one is
/// dropped, and nobody who is so far away is asked. The rest of the queue stays, and nothing else
/// changes.
pub proof fn the_front_of_the_queue_is_asked(search: LookupView)
    requires
        0 < search.under_way <= ALPHA,
    ensures
        ({
            let asks = next_asks(search);
            let next = continued(search);
            let n = asks.len() as int;
            let full = search.finished.len() >= K;
            &&& n <= search.queue.len()
            &&& asks == search.queue.take(n)
            &&& next.under_way == search.under_way - 1 + n <= ALPHA
            &&& next.key == search.key
            &&& next.seen == search.seen
            &&& next.finished == search.finished
            &&& forall|i: int|
                0 <= i < n ==> !(full && (search.finished[K - 1].id ^ search.key) < ((
                #[trigger] search.queue[i]).id ^ search.key))
            &&& next.under_way == ALPHA || n == search.queue.len() ==> next.queue
                == search.queue.skip(n)
            &&& next.under_way < ALPHA && n < search.queue.len() ==> {
                &&& full
                &&& (search.finished[K - 1].id ^ search.key) < (search.queue[n].id ^ search.key)
                &&& next.queue == search.queue.skip(n + 1)
            }
        }),
{
    let open = (search.under_way - 1) as nat;
    asked_divides(search.queue, search.finished, search.key, open);
    lemma_none_asked_is_beyond(search.queue, search.finished, search.key, open);
    let asks = next_asks(search);
    assert forall|i: int| 0 <= i < asks.len() implies !(search.finished.len() >= K && (
    search.finished[K - 1].id ^ search.key) < ((#[trigger] search.queue[i]).id ^ search.key)) by {
        assert(asks[i] == search.queue[i]);
    }
    assert(continued(search).queue =~= search.queue.skip(
        search.queue.len() - continued(search).queue.len(),
    ));
}

/// A search begins with all nearest nodes known, unchanged and nearest first: the first of them
/// are asked, `ALPHA` or all there are, the others wait in the queue. All of them and the node
/// itself have been heard of, and only the node itself stands among those that answered.
pub proof fn a_search_begins_with_the_nearest(
    search: LookupView,
    asks: Seq<Node>,
    own: Stub,
    known: Seq<Node>,
    key: u128,
)
    requires
        begun(search, asks, own, known, key),
    ensures
        search.key == key,
        (asks + search.queue).to_multiset() == known.to_multiset(),
        asks.len() + search.queue.len() == known.len(),
        asks.len() == ALPHA || (asks.len() < ALPHA && search.queue.len() == 0),
        search.under_way == asks.len(),
        forall|i: int, j: int|
            0 <= i < j < known.len() ==> ((#[trigger] (asks + search.queue)[i]).id ^ key) <= ((
            #[trigger] (asks + search.queue)[j]).id ^ key),
        forall|i: int|
            0 <= i < known.len() ==> search.seen[i] == (#[trigger] (asks + search.queue)[i]).id,
        search.seen.len() == known.len() + 1,
        search.seen.last() == own.id,
        search.finished.len() == 1,
        search.finished[0].id == own.id,
        search.finished[0].port == own.port,
        search.finished[0].ip@ == "::1"@,
{
    let queue = asks + search.queue;
    queue.to_multiset_ensures();
    known.to_multiset_ensures();
    assert(search.finished[0]@ == own_node(own));
    assert forall|i: int, j: int| 0 <= i < j < known.len() implies ((#[trigger] queue[i]).id ^ key)
        <= ((#[trigger] queue[j]).id ^ key) by {
        assert(far(queue[i], key) <= far(queue[j], key));
    }
    assert forall|i: int| 0 <= i < known.len() implies search.seen[i] == (#[trigger] queue[i]).id by {
        assert(ids(queue)[i] == queue[i].id);
    }
}

/// A value that is found is told with the key that was looked for and the bytes that are kept.
pub proof fn a_found_value_is_the_one_kept(key: u128, value: Seq<u8>)
    ensures
        found_value(key, value) is Store,
        found_value(key, value)->Store_0.key == key,
        found_value(key, value)->Store_0.value == value,
{
}

/// The view of a search is all of it, and an answer is taken as it is.
pub proof fn a_search_is_its_fields(search: Lookup, reply: Option<Vec<Node>>)
    ensures
        search@.key == search.key,
        search@.queue == search.queue@,
        search@.seen == search.seen@,
        search@.finished == search.finished@,
        search@.under_way == search.under_way,
        reply is Some ==> reply_view(reply) == Some(reply->0@),
        reply is None ==> reply_view(reply) is None,
{
}

} // verus!
