//! The values that a node keeps: publishing them, renewing them, handing them on and dropping
//! them, each in its time; and the timers of the buckets.

use std::collections::HashMap;

use vstd::prelude::*;

use crate::bytes::copy_bytes;
use crate::clock::{clock_reading, Timestamp, EXPIRE, REFRESH, REPLICATE, REPUBLISH};
use crate::data::{
    request_read_back, request_rep, request_unrep, Node, Store, StoreRequest, StoreRequestView,
    StoreView, Stub,
};
use crate::hash::{key_hash, value_key, ID_BITS, ID_MASK};
use crate::proto;
use crate::random::random_between;
use crate::routing::{bucket_of, bucket_range};
use crate::sending::Sending;
use crate::tokad::{published, received, renewed, store_view, Data, DataView, State, StateRef};

verus! {

broadcast use vstd::std_specs::hash::group_hash_axioms;

/// What is to be done with a value at a given instant.
pub enum Duty {
    /// This node published it and publishes it again.
    Republish,
    /// Its publisher has not renewed it, and it is dropped.
    Expire,
    /// It is handed on to the nodes that are now nearest to it.
    Replicate,
    /// Nothing.
    Keep,
}

/// What is to be done with a value at the instant `now`.
pub open spec fn duty(entry: DataView, now: Timestamp) -> Duty {
    if entry.publish && entry.publish_time.nanos + REPUBLISH <= now.nanos {
        Duty::Republish
    } else if !entry.publish && entry.publish_time.nanos + EXPIRE < now.nanos {
        Duty::Expire
    } else if entry.replication_time.nanos + REPLICATE < now.nanos {
        Duty::Replicate
    } else {
        Duty::Keep
    }
}

/// A value once that is done.
pub open spec fn attended(entry: DataView, now: Timestamp) -> DataView {
    match duty(entry, now) {
        Duty::Republish => DataView { publish_time: now, replication_time: now, ..entry },
        Duty::Replicate => DataView { replication_time: now, ..entry },
        _ => entry,
    }
}

/// The values that are left once all is done.
pub open spec fn swept(contents: Map<u128, DataView>, now: Timestamp) -> Map<u128, DataView> {
    Map::new(
        |key: u128| contents.contains_key(key) && !(duty(contents[key], now) is Expire),
        |key: u128| attended(contents[key], now),
    )
}

/// Whether a list names, once each, the keys among `done` whose values have the given duty, with
/// the values as they are once it is done. The order is left open.
pub open spec fn lists(
    list: Seq<(u128, Data)>,
    contents: Map<u128, DataView>,
    done: Set<u128>,
    due: Duty,
    now: Timestamp,
) -> bool {
    &&& forall|i: int|
        0 <= i < list.len() ==> {
            let key = (#[trigger] list[i]).0;
            &&& contents.contains_key(key)
            &&& done.contains(key)
            &&& duty(contents[key], now) == due
            &&& list[i].1@ == attended(contents[key], now)
        }
    &&& forall|key: u128| #[trigger]
        contents.contains_key(key) && done.contains(key) && duty(contents[key], now) == due
            ==> exists|i: int| 0 <= i < list.len() && (#[trigger] list[i]).0 == key
    &&& forall|i: int, j: int|
        0 <= i < j < list.len() ==> (#[trigger] list[i]).0 != (#[trigger] list[j]).0
}

/// What a sweep through the values asks for.
#[derive(Debug)]
pub struct Sweep {
    /// The values to publish again.
    pub republish: Vec<(u128, Data)>,
    /// The values to hand on.
    pub replicate: Vec<(u128, Data)>,
}

/// A value to be handed to the nodes near its key.
#[derive(Debug)]
pub struct Errand {
    pub key: u128,
    pub value: Vec<u8>,
    pub publish_time: Timestamp,
    /// Whether its publisher sends it.
    pub publish: bool,
}

/// The view of an `Errand`.
pub struct ErrandView {
    pub key: u128,
    pub value: Seq<u8>,
    pub publish_time: Timestamp,
    pub publish: bool,
}

impl View for Errand {
    type V = ErrandView;

    open spec fn view(&self) -> ErrandView {
        ErrandView {
            key: self.key,
            value: self.value@,
            publish_time: self.publish_time,
            publish: self.publish,
        }
    }
}

/// The views of a list of errands.
pub open spec fn errand_views(list: Seq<Errand>) -> Seq<ErrandView> {
    list.map_values(|e: Errand| e@)
}

/// The errands for a list of values.
pub open spec fn errands_for(list: Seq<(u128, Data)>, publish: bool) -> Seq<ErrandView> {
    list.map_values(
        |item: (u128, Data)|
            ErrandView {
                key: item.0,
                value: item.1@.data,
                publish_time: item.1@.publish_time,
                publish,
            },
    )
}

fn add_errands(errands: &mut Vec<Errand>, list: Vec<(u128, Data)>, publish: bool)
    ensures
        errand_views(final(errands)@) == errand_views(old(errands)@) + errands_for(list@, publish),
{
    let ghost all = errands_for(list@, publish);
    let ghost before = errand_views(errands@);
    let mut i: usize = 0;
    assert(before =~= before + all.take(0));
    while i < list.len()
        invariant
            i <= list@.len(),
            all == errands_for(list@, publish),
            errand_views(errands@) == before + all.take(i as int),
        decreases list@.len() - i,
    {
        let ghost so_far = errands@;
        let entry: &Data = &list[i].1;
        let errand: Errand = Errand {
            key: list[i].0,
            value: copy_bytes(entry.data.as_slice()),
            publish_time: entry.publish_time,
            publish,
        };
        errands.push(errand);
        assert(errand_views(errands@) =~= errand_views(so_far).push(errand@));
        assert(errand@ == all[i as int]);
        assert(all.take(i + 1) =~= all.take(i as int).push(all[i as int]));
        i = i + 1;
        assert(errand_views(errands@) =~= before + all.take(i as int));
    }
    assert(all.take(i as int) =~= all);
}

impl Sweep {
    /// The errands that a sweep asks for: its publisher sends a value that is published again,
    /// and anyone sends one that is handed on.
    pub fn errands(self) -> (errands: Vec<Errand>)
        ensures
            errand_views(errands@) == errands_for(self.republish@, true) + errands_for(
                self.replicate@,
                false,
            ),
    {
        let mut errands: Vec<Errand> = Vec::new();
        assert(errand_views(errands@) =~= Seq::<ErrandView>::empty());
        add_errands(&mut errands, self.republish, true);
        add_errands(&mut errands, self.replicate, false);
        assert(Seq::<ErrandView>::empty() + errands_for(self.republish@, true) =~= errands_for(
            self.republish@,
            true,
        ));
        errands
    }
}

impl Data {
    /// A copy of a value.
    pub fn copy(&self) -> (copy: Data)
        ensures
            copy@ == self@,
    {
        Data {
            publish: self.publish,
            replication_time: self.replication_time,
            publish_time: self.publish_time,
            data: copy_bytes(self.data.as_slice()),
        }
    }

    /// What is to be done with a value at the instant `now`.
    pub fn duty(&self, now: Timestamp) -> (due: Duty)
        ensures
            due == duty(self@, now),
    {
        if self.publish && self.publish_time.as_old_as(REPUBLISH, now) {
            Duty::Republish
        } else if !self.publish && self.publish_time.older_than(EXPIRE, now) {
            Duty::Expire
        } else if self.replication_time.older_than(REPLICATE, now) {
            Duty::Replicate
        } else {
            Duty::Keep
        }
    }
}

/// The keys of a store, in no particular order.
pub fn store_keys(store: &HashMap<u128, Data>) -> (keys: Vec<u128>)
    ensures
        keys@.no_duplicates(),
        keys@.to_set() == store@.dom(),
{
    let mut keys: Vec<u128> = Vec::new();
    for key in it: store.keys()
        invariant
            keys@ == it.seq().unref().take(it.index() as int),
    {
        keys.push(*key);
        assert(it.seq().unref().take(it.index() + 1) =~= it.seq().unref().take(
            it.index() as int,
        ).push(*key));
    }
    proof {
        let all = vstd::std_specs::iter::IteratorSpec::remaining(
            &vstd::std_specs::hash::spec_keys_iter(store),
        );
        assert(keys@ =~= all.unref());
        assert(keys@.no_duplicates());
    }
    keys
}

/// The buckets that are due: their timers are older than the refresh interval.
pub open spec fn due_buckets(timers: Seq<Timestamp>, now: Timestamp, n: nat) -> Seq<usize>
    decreases n,
{
    if n == 0 {
        Seq::empty()
    } else {
        let before = due_buckets(timers, now, (n - 1) as nat);
        if timers[n - 1].nanos + REFRESH < now.nanos {
            before.push((n - 1) as usize)
        } else {
            before
        }
    }
}

/// The timers once the buckets that are due have been named: theirs start anew.
pub open spec fn reset_timers(timers: Seq<Timestamp>, now: Timestamp) -> Seq<Timestamp> {
    timers.map_values(
        |t: Timestamp|
            if t.nanos + REFRESH < now.nanos {
                now
            } else {
                t
            },
    )
}

impl State {
    /// Whether two states differ in the values that they keep at most.
    pub open spec fn same_but_store(&self, other: &State) -> bool {
        &&& self.id == other.id
        &&& self.port == other.port
        &&& self.buckets == other.buckets
        &&& self.refresh == other.refresh
        &&& self.start_time == other.start_time
    }

    /// Whether two states differ in the timers of their buckets at most.
    pub open spec fn same_but_timers(&self, other: &State) -> bool {
        &&& self.id == other.id
        &&& self.port == other.port
        &&& self.buckets == other.buckets
        &&& self.store == other.store
        &&& self.start_time == other.start_time
    }

    /// Names the buckets that are due for a lookup and starts their timers anew.
    pub fn take_due_buckets(&mut self, now: Timestamp) -> (due: Vec<usize>)
        ensures
            due@ == due_buckets(old(self).refresh@, now, old(self).refresh@.len()),
            final(self).refresh@ == reset_timers(old(self).refresh@, now),
            final(self).same_but_timers(old(self)),
            old(self).wf() ==> final(self).wf(),
    {
        let mut due: Vec<usize> = Vec::new();
        let ghost timers = self.refresh@;
        let ghost reset = reset_timers(timers, now);
        let mut i: usize = 0;
        while i < self.refresh.len()
            invariant
                i <= self.refresh@.len(),
                timers == old(self).refresh@,
                reset == reset_timers(timers, now),
                self.refresh@.len() == timers.len(),
                self.same_but_timers(old(self)),
                due@ == due_buckets(timers, now, i as nat),
                forall|j: int| 0 <= j < i ==> #[trigger] self.refresh@[j] == reset[j],
                forall|j: int| i <= j < timers.len() ==> #[trigger] self.refresh@[j] == timers[j],
            decreases timers.len() - i,
        {
            if self.refresh[i].older_than(REFRESH, now) {
                self.refresh[i] = now;
                due.push(i);
            }
            i = i + 1;
        }
        assert(self.refresh@ =~= reset);
        proof {
            if old(self).wf() {
                assert(self.table() =~= old(self).table());
            }
        }
        due
    }

    /// Goes through all values: starts the timers of those to publish again or to hand on, names
    /// them, and drops those that have expired.
    pub fn sweep(&mut self, now: Timestamp) -> (sweep: Sweep)
        ensures
            final(self).contents() == swept(old(self).contents(), now),
            lists(
                sweep.republish@,
                old(self).contents(),
                old(self).contents().dom(),
                Duty::Republish,
                now,
            ),
            lists(
                sweep.replicate@,
                old(self).contents(),
                old(self).contents().dom(),
                Duty::Replicate,
                now,
            ),
            final(self).same_but_store(old(self)),
            old(self).wf() ==> final(self).wf(),
    {
        let keys: Vec<u128> = store_keys(&self.store);
        let mut republish: Vec<(u128, Data)> = Vec::new();
        let mut replicate: Vec<(u128, Data)> = Vec::new();
        let ghost start = self.contents();
        let ghost first = self.store@;
        let mut i: usize = 0;
        let ghost mut done: Set<u128> = Set::empty();
        while i < keys.len()
            invariant
                i <= keys@.len(),
                keys@.no_duplicates(),
                keys@.to_set() == start.dom(),
                start == old(self).contents(),
                start == store_view(first),
                self.same_but_store(old(self)),
                done == keys@.take(i as int).to_set(),
                forall|key: u128| #[trigger]
                    self.store@.contains_key(key) <==> start.contains_key(key) && !(done.contains(
                        key,
                    ) && duty(start[key], now) is Expire),
                forall|key: u128| #[trigger]
                    self.store@.contains_key(key) ==> self.store@[key]@ == (if done.contains(key) {
                        attended(start[key], now)
                    } else {
                        start[key]
                    }),
                lists(republish@, start, done, Duty::Republish, now),
                lists(replicate@, start, done, Duty::Replicate, now),
            decreases keys@.len() - i,
        {
            let key: u128 = keys[i];
            let ghost so_far = done;
            let ghost held = self.store@;
            let ghost listed = republish@;
            let ghost handed = replicate@;
            proof {
                assert(keys@.to_set().contains(key));
                assert(!so_far.contains(key)) by {
                    if so_far.contains(key) {
                        let j = choose|j: int|
                            0 <= j < keys@.take(i as int).len() && keys@.take(i as int)[j] == key;
                        assert(keys@[j] == keys@[i as int]);
                    }
                }
                assert(keys@.take(i + 1) =~= keys@.take(i as int).push(key));
                done = so_far.insert(key);
                assert(done =~= keys@.take(i + 1).to_set()) by {
                    assert forall|k: u128| done.contains(k) <==> #[trigger] keys@.take(
                        i + 1,
                    ).to_set().contains(k) by {
                        let longer = keys@.take(i + 1);
                        let shorter = keys@.take(i as int);
                        if longer.contains(k) {
                            let j = choose|j: int| 0 <= j < longer.len() && longer[j] == k;
                            if j < i {
                                assert(shorter[j] == k);
                            }
                        }
                        if shorter.contains(k) {
                            let j = choose|j: int| 0 <= j < shorter.len() && shorter[j] == k;
                            assert(longer[j] == k);
                        }
                        assert(longer[i as int] == key);
                    }
                }
            }
            match self.store.remove(&key) {
                Some(mut entry) => {
                    let ghost was = entry@;
                    assert(was == start[key]);
                    match entry.duty(now) {
                        Duty::Republish => {
                            entry.publish_time = now;
                            entry.replication_time = now;
                            republish.push((key, entry.copy()));
                            self.store.insert(key, entry);
                        },
                        Duty::Expire => {},
                        Duty::Replicate => {
                            entry.replication_time = now;
                            replicate.push((key, entry.copy()));
                            self.store.insert(key, entry);
                        },
                        Duty::Keep => {
                            self.store.insert(key, entry);
                        },
                    }
                    proof {
                        lemma_lists_grow(listed, republish@, start, so_far, key, Duty::Republish, now);
                        lemma_lists_grow(handed, replicate@, start, so_far, key, Duty::Replicate, now);
                    }
                },
                None => {
                    assert(false);
                },
            }
            i = i + 1;
        }
        proof {
            assert(keys@.take(i as int) =~= keys@);
            assert(self.contents() =~= swept(start, now));
            if old(self).wf() {
                assert(self.table() =~= old(self).table());
            }
        }
        Sweep { republish, replicate }
    }
}

proof fn lemma_lists_grow(
    before: Seq<(u128, Data)>,
    after: Seq<(u128, Data)>,
    contents: Map<u128, DataView>,
    done: Set<u128>,
    key: u128,
    due: Duty,
    now: Timestamp,
)
    requires
        lists(before, contents, done, due, now),
        contents.contains_key(key),
        !done.contains(key),
        duty(contents[key], now) == due ==> after.len() == before.len() + 1 && after.drop_last()
            =~= before && after.last().0 == key && after.last().1@ == attended(contents[key], now),
        duty(contents[key], now) != due ==> after == before,
    ensures
        lists(after, contents, done.insert(key), due, now),
{
    let grown = done.insert(key);
    if duty(contents[key], now) == due {
        assert forall|i: int| 0 <= i < after.len() implies ({
            let k = (#[trigger] after[i]).0;
            &&& contents.contains_key(k)
            &&& grown.contains(k)
            &&& duty(contents[k], now) == due
            &&& after[i].1@ == attended(contents[k], now)
        }) by {
            if i < before.len() {
                assert(after[i] == after.drop_last()[i]);
                assert(after[i] == before[i]);
            }
        }
        assert forall|k: u128| #[trigger]
            contents.contains_key(k) && grown.contains(k) && duty(contents[k], now)
                == due implies exists|i: int| 0 <= i < after.len() && (#[trigger] after[i]).0 == k by {
            if k == key {
                assert(after[after.len() - 1].0 == k);
            } else {
                let i = choose|i: int| 0 <= i < before.len() && (#[trigger] before[i]).0 == k;
                assert(after[i] == after.drop_last()[i]);
            }
        }
        assert forall|i: int, j: int| 0 <= i < j < after.len() implies (#[trigger] after[i]).0 != (
        #[trigger] after[j]).0 by {
            assert(after[i] == after.drop_last()[i]);
            assert(after[i] == before[i]);
            if j < before.len() {
                assert(after[j] == after.drop_last()[j]);
                assert(after[j] == before[j]);
            }
        }
    }
}

/// The values once another node asked to keep one: a value that is there stays and is renewed,
/// another is added.
pub open spec fn kept(
    contents: Map<u128, DataView>,
    request: StoreRequestView,
    now: Timestamp,
) -> Map<u128, DataView> {
    let key = request.store.key;
    if contents.contains_key(key) {
        contents.insert(key, renewed(contents[key], request.publish_time, now))
    } else {
        contents.insert(key, received(request.store.value, request.publish_time, now))
    }
}

/// The request by which a publisher hands a value to another node.
pub open spec fn publishing(key: u128, value: Seq<u8>, now: Timestamp) -> StoreRequestView {
    StoreRequestView { store: StoreView { key, value }, publish: true, publish_time: now }
}

/// The nodes of a list other than the node `id`, in order.
pub open spec fn others(nodes: Seq<Node>, id: u128) -> Seq<Node> {
    nodes.filter(|n: Node| n.id != id)
}

impl State {
    /// Puts an entry in the store.
    fn put(&mut self, key: u128, entry: Data)
        ensures
            final(self).contents() == old(self).contents().insert(key, entry@),
            final(self).same_but_store(old(self)),
            old(self).wf() ==> final(self).wf(),
    {
        self.store.insert(key, entry);
        proof {
            assert(self.contents() =~= old(self).contents().insert(key, entry@));
            assert(self.table() =~= old(self).table());
        }
    }

    /// The value under a key, where the node keeps one.
    pub fn value(&self, key: u128) -> (value: Option<Vec<u8>>)
        ensures
            match value {
                Some(value) => {
                    &&& self.contents().dom().contains(key)
                    &&& value@ == self.contents()[key].data
                },
                None => !self.contents().dom().contains(key),
            },
    {
        match self.store.get(&key) {
            Some(entry) => Some(copy_bytes(entry.data.as_slice())),
            None => None,
        }
    }

    /// Keeps a value that another node handed over at `now`.
    pub fn keep(&mut self, request: StoreRequest, now: Timestamp)
        ensures
            final(self).contents() == kept(old(self).contents(), request@, now),
            final(self).same_but_store(old(self)),
            old(self).wf() ==> final(self).wf(),
    {
        let key: u128 = request.store.key;
        let ghost before = self.contents();
        match self.store.remove(&key) {
            Some(mut entry) => {
                assert(before[key] == entry@);
                entry.refresh_at(request.publish_time, now);
                self.put(key, entry);
                assert(self.contents() =~= kept(before, request@, now));
            },
            None => {
                let entry: Data = Data::new_at(request.store.value, request.publish_time, now);
                self.put(key, entry);
                assert(self.contents() =~= kept(before, request@, now));
            },
        }
        assert(self.table() =~= old(self).table());
    }

    /// Puts a value in this node's store alone, as if another node had published it just now.
    pub fn local_store(&mut self, key: u128, value: Vec<u8>)
        ensures
            exists|published_at: Timestamp, now: Timestamp|
                clock_reading(published_at) && clock_reading(now) && final(self).contents()
                    == old(self).contents().insert(
                    key,
                    #[trigger] received(value@, published_at, now),
                ),
            final(self).same_but_store(old(self)),
            old(self).wf() ==> final(self).wf(),
    {
        let published_at: Timestamp = Timestamp::now();
        let now: Timestamp = Timestamp::now();
        self.local_store_at(key, value, published_at, now);
    }

    /// Puts a value in this node's store alone, as if another node had published it at
    /// `published_at` and it had come at `now`.
    pub fn local_store_at(
        &mut self,
        key: u128,
        value: Vec<u8>,
        published_at: Timestamp,
        now: Timestamp,
    )
        ensures
            final(self).contents() == old(self).contents().insert(
                key,
                received(value@, published_at, now),
            ),
            final(self).same_but_store(old(self)),
            old(self).wf() ==> final(self).wf(),
    {
        let entry: Data = Data::new_at(value, published_at, now);
        self.put(key, entry);
    }

    /// Publishes a value under the given key: keeps it as this node's own and gives the request
    /// by which it is handed to the nodes near the key.
    pub fn raw_publish(&mut self, key: u128, value: &[u8]) -> (request: StoreRequest)
        ensures
            exists|kept_at: Timestamp|
                clock_reading(kept_at) && final(self).contents() == old(self).contents().insert(
                    key,
                    #[trigger] published(value@, kept_at),
                ),
            exists|sent_at: Timestamp|
                clock_reading(sent_at) && request@ == #[trigger] publishing(key, value@, sent_at),
            final(self).same_but_store(old(self)),
            old(self).wf() ==> final(self).wf(),
    {
        let kept_at: Timestamp = Timestamp::now();
        let sent_at: Timestamp = Timestamp::now();
        self.raw_publish_at(key, value, kept_at, sent_at)
    }

    /// Publishes a value under the given key, kept since `kept_at` and sent at `sent_at`.
    pub fn raw_publish_at(
        &mut self,
        key: u128,
        value: &[u8],
        kept_at: Timestamp,
        sent_at: Timestamp,
    ) -> (request: StoreRequest)
        ensures
            final(self).contents() == old(self).contents().insert(key, published(value@, kept_at)),
            request@ == publishing(key, value@, sent_at),
            request.store.key == key,
            request.store.value@ == value@,
            request.publish,
            request.publish_time == sent_at,
            final(self).same_but_store(old(self)),
            old(self).wf() ==> final(self).wf(),
    {
        let entry: Data = Data::publish_at(copy_bytes(value), kept_at);
        self.put(key, entry);
        StoreRequest {
            store: Store { key, value: copy_bytes(value) },
            publish: true,
            publish_time: sent_at,
        }
    }

    /// Publishes a value under its own key.
    pub fn publish(&mut self, value: &[u8]) -> (sent: (u128, StoreRequest))
        ensures
            sent.0 == value_key(value@),
            exists|kept_at: Timestamp|
                clock_reading(kept_at) && final(self).contents() == old(self).contents().insert(
                    sent.0,
                    #[trigger] published(value@, kept_at),
                ),
            exists|sent_at: Timestamp|
                clock_reading(sent_at) && sent.1@ == #[trigger] publishing(sent.0, value@, sent_at),
            final(self).same_but_store(old(self)),
            old(self).wf() ==> final(self).wf(),
    {
        let key: u128 = key_hash(value);
        let kept_at: Timestamp = Timestamp::now();
        let sent_at: Timestamp = Timestamp::now();
        let request: StoreRequest = self.raw_publish_at(key, value, kept_at, sent_at);
        let sent: (u128, StoreRequest) = (key, request);
        assert(sent.1@ == publishing(sent.0, value@, sent_at));
        sent
    }
}

impl<'a> StateRef<'a> {
    /// Hands a value to the nodes found near its key: one message to each but this node itself, in
    /// order.
    pub fn lookup_and_store(
        &self,
        close: Vec<Node>,
        key: u128,
        value: &[u8],
        publish_time: Timestamp,
        publish: bool,
    ) -> (sending: Sending)
        ensures
            sending.left@.len() == others(close@, self.state.id).len(),
            forall|i: int|
                0 <= i < sending.left@.len() ==> {
                    &&& (#[trigger] sending.left@[i]).0 == others(close@, self.state.id)[i]
                    &&& sending.left@[i].1@ == request_rep(
                        StoreRequestView {
                            store: StoreView { key, value: value@ },
                            publish,
                            publish_time,
                        },
                        self.state.own_stub(),
                    )
                },
    {
        let mut sends: Vec<(Node, proto::StoreRequest)> = Vec::new();
        let ghost request = StoreRequestView {
            store: StoreView { key, value: value@ },
            publish,
            publish_time,
        };
        let mut i: usize = 0;
        proof {
            reveal(Seq::filter);
        }
        while i < close.len()
            invariant
                i <= close@.len(),
                request == (StoreRequestView {
                    store: StoreView { key, value: value@ },
                    publish,
                    publish_time,
                }),
                sends@.len() == others(close@.take(i as int), self.state.id).len(),
                forall|j: int|
                    0 <= j < sends@.len() ==> {
                        &&& (#[trigger] sends@[j]).0 == others(close@.take(i as int), self.state.id)[j]
                        &&& sends@[j].1@ == request_rep(request, self.state.own_stub())
                    },
            decreases close@.len() - i,
        {
            assert(close@.take(i + 1).drop_last() =~= close@.take(i as int));
            proof {
                reveal(Seq::filter);
            }
            if close[i].id != self.state.id {
                let copy: StoreRequest = StoreRequest {
                    store: Store { key, value: copy_bytes(value) },
                    publish,
                    publish_time,
                };
                sends.push((close[i].clone(), copy.rep(self.state.stub())));
            }
            i = i + 1;
        }
        assert(close@.take(close@.len() as int) =~= close@);
        Sending { left: sends }
    }

    /// A key to look up so that a bucket is filled with live nodes: a random one that belongs in
    /// the bucket. None where the bucket is empty.
    pub fn refresh_bucket(&self, bid: usize) -> (key: Option<u128>)
        requires
            self.state.wf(),
            bid < ID_BITS,
        ensures
            match key {
                Some(key) => {
                    &&& self.state.table()[bid as int].len() > 0
                    &&& key <= ID_MASK
                    &&& bucket_of(self.state.id, key) == bid
                },
                None => self.state.table()[bid as int].len() == 0,
            },
    {
        if self.state.buckets[bid].len() == 0 {
            return None;
        }
        let (first, last): (u128, u128) = bucket_range(self.state.id, bid);
        let key: u128 = random_between(first, last);
        assert(first <= key <= last);
        Some(key)
    }
}

// ---------------------------------------------------------------------------------------------
// Laws
// ---------------------------------------------------------------------------------------------

/// A node never drops a value that it published itself.
pub proof fn own_value_stays(contents: Map<u128, DataView>, key: u128, now: Timestamp)
    requires
        contents.contains_key(key),
        contents[key].publish,
    ensures
        swept(contents, now).contains_key(key),
{
}

/// A value that a node has published is found there ever after: no sweep takes it away or
/// changes it.
pub proof fn published_value_is_found(
    contents: Map<u128, DataView>,
    key: u128,
    value: Seq<u8>,
    kept_at: Timestamp,
    now: Timestamp,
)
    ensures
        ({
            let after = contents.insert(key, published(value, kept_at));
            &&& after.contains_key(key) && after[key].data == value
            &&& swept(after, now).contains_key(key) && swept(after, now)[key].data == value
            &&& swept(after, now)[key].publish
        }),
{
}

/// A value is sent to everyone near its key but the node itself.
pub proof fn a_value_is_sent_to_all_others(close: Seq<Node>, id: u128, node: Node)
    ensures
        others(close, id).contains(node) <==> close.contains(node) && node.id != id,
{
    let other = |n: Node| n.id != id;
    let list = others(close, id);
    if list.contains(node) {
        close.lemma_filter_contains_rev(other, node);
        let i = choose|i: int| 0 <= i < list.len() && list[i] == node;
        close.lemma_filter_pred(other, i);
    }
    if close.contains(node) && node.id != id {
        let i = choose|i: int| 0 <= i < close.len() && close[i] == node;
        close.lemma_filter_contains(other, i);
    }
}

/// A value of another publisher is dropped by a sweep exactly when it was last published more
/// than the expiry interval ago.
pub proof fn foreign_value_expires(contents: Map<u128, DataView>, key: u128, now: Timestamp)
    requires
        contents.contains_key(key),
        !contents[key].publish,
    ensures
        swept(contents, now).contains_key(key) <==> contents[key].publish_time.nanos + EXPIRE
            >= now.nanos,
{
}

/// A sweep adds no key and changes no value and not who published it.
pub proof fn sweep_keeps_values(contents: Map<u128, DataView>, now: Timestamp)
    ensures
        forall|key: u128| #[trigger]
            swept(contents, now).contains_key(key) ==> {
                &&& contents.contains_key(key)
                &&& swept(contents, now)[key].data == contents[key].data
                &&& swept(contents, now)[key].publish == contents[key].publish
            },
{
}

/// After a sweep there is nothing left to do at that instant, and a second sweep changes nothing.
pub proof fn sweep_leaves_nothing_due(contents: Map<u128, DataView>, now: Timestamp)
    ensures
        forall|key: u128| #[trigger]
            swept(contents, now).contains_key(key) ==> duty(swept(contents, now)[key], now)
                is Keep,
        swept(swept(contents, now), now) == swept(contents, now),
{
    assert(swept(swept(contents, now), now) =~= swept(contents, now));
}

/// A value that another node hands over is there afterwards: the same bytes where the key was
/// free, else the bytes that were there before.
pub proof fn kept_value_is_there(
    contents: Map<u128, DataView>,
    request: StoreRequestView,
    now: Timestamp,
)
    ensures
        kept(contents, request, now).contains_key(request.store.key),
        kept(contents, request, now)[request.store.key].data == (if contents.contains_key(
            request.store.key,
        ) {
            contents[request.store.key].data
        } else {
            request.store.value
        }),
        forall|key: u128|
            key != request.store.key ==> (#[trigger] kept(contents, request, now).contains_key(key)
                <==> contents.contains_key(key)),
        forall|key: u128|
            key != request.store.key && contents.contains_key(key) ==> #[trigger] kept(
                contents,
                request,
                now,
            )[key] == contents[key],
{
}

/// A value handed over again is not dropped while less than the expiry interval has passed since
/// the latest of its publishings.
pub proof fn renewal_delays_expiry(
    contents: Map<u128, DataView>,
    request: StoreRequestView,
    now: Timestamp,
    later: Timestamp,
)
    requires
        later.nanos <= request.publish_time.nanos + EXPIRE,
    ensures
        swept(kept(contents, request, now), later).contains_key(request.store.key),
{
}

/// The buckets that are due are those whose timers are older than the refresh interval, each
/// named once, in order.
pub proof fn due_buckets_are_overdue(timers: Seq<Timestamp>, now: Timestamp, n: nat)
    requires
        n <= timers.len() <= usize::MAX,
    ensures
        forall|i: int|
            0 <= i < n ==> (due_buckets(timers, now, n).contains(i as usize) <==> (
            #[trigger] timers[i]).nanos + REFRESH < now.nanos),
        forall|i: int|
            0 <= i < due_buckets(timers, now, n).len() ==> (#[trigger] due_buckets(timers, now, n)[i])
                < n,
        forall|i: int, j: int|
            0 <= i < j < due_buckets(timers, now, n).len() ==> (#[trigger] due_buckets(
                timers,
                now,
                n,
            )[i]) < #[trigger] due_buckets(timers, now, n)[j],
    decreases n,
{
    if n > 0 {
        due_buckets_are_overdue(timers, now, (n - 1) as nat);
        let before = due_buckets(timers, now, (n - 1) as nat);
        let due = due_buckets(timers, now, n);
        assert forall|i: int| 0 <= i < n implies (due.contains(i as usize) <==> (
        #[trigger] timers[i]).nanos + REFRESH < now.nanos) by {
            if due.len() > before.len() {
                assert(due[due.len() - 1] == (n - 1) as usize);
            }
            if before.contains(i as usize) {
                let j = choose|j: int| 0 <= j < before.len() && before[j] == i as usize;
                assert(due[j] == i as usize);
            }
            if due.contains(i as usize) {
                let j = choose|j: int| 0 <= j < due.len() && due[j] == i as usize;
                if j < before.len() {
                    assert(before[j] == i as usize);
                    assert(before.contains(i as usize));
                }
            }
        }
    }
}

/// Once the buckets that are due have been named, none is due at that instant.
pub proof fn reset_timers_are_not_due(timers: Seq<Timestamp>, now: Timestamp, n: nat)
    requires
        n <= timers.len(),
    ensures
        due_buckets(reset_timers(timers, now), now, n) == Seq::<usize>::empty(),
    decreases n,
{
    if n > 0 {
        reset_timers_are_not_due(timers, now, (n - 1) as nat);
    }
}

/// Keeping another copy of a value that is already there changes nothing of the entry but its two
/// times, so a value that the node published itself is still its own. A value that is new comes
/// as another's, with its bytes and its publishing time.
pub proof fn keeping_leaves_the_publisher(
    contents: Map<u128, DataView>,
    request: StoreRequestView,
    now: Timestamp,
)
    ensures
        ({
            let key = request.store.key;
            let after = kept(contents, request, now)[key];
            &&& kept(contents, request, now).contains_key(key)
            &&& after.replication_time == now
            &&& contents.contains_key(key) ==> {
                &&& after.publish == contents[key].publish
                &&& after.data == contents[key].data
                &&& after.publish_time == request.publish_time || after.publish_time
                    == contents[key].publish_time
                &&& after.publish_time.nanos >= request.publish_time.nanos
                &&& after.publish_time.nanos >= contents[key].publish_time.nanos
            }
            &&& !contents.contains_key(key) ==> {
                &&& !after.publish
                &&& after.data == request.store.value
                &&& after.publish_time == request.publish_time
            }
        }),
{
}

/// A value that a node published itself outlives every request of others and every sweep, as its
/// own and with its bytes.
pub proof fn an_own_value_outlives_requests(
    contents: Map<u128, DataView>,
    key: u128,
    request: StoreRequestView,
    now: Timestamp,
    later: Timestamp,
)
    requires
        contents.contains_key(key),
        contents[key].publish,
    ensures
        ({
            let after = swept(kept(contents, request, now), later);
            after.contains_key(key) && after[key].publish && after[key].data == contents[key].data
        }),
{
}

/// Whether a list names a key.
pub open spec fn names(list: Seq<(u128, Data)>, key: u128) -> bool {
    exists|i: int| 0 <= i < list.len() && (#[trigger] list[i]).0 == key
}

/// What a sweep does to a value, told by its fields. An own value is published again exactly when
/// it was last published at least the republishing interval ago. A value of another is dropped
/// exactly when it was last published more than the expiry interval ago. Every other value is
/// handed on exactly when its copy is older than the replication interval, whoever published it.
/// A value that is published again counts as published and handed on now, one that is handed on as
/// handed on now, and nothing else of it changes.
pub proof fn a_sweep_does_what_is_due(
    contents: Map<u128, DataView>,
    now: Timestamp,
    republish: Seq<(u128, Data)>,
    replicate: Seq<(u128, Data)>,
    key: u128,
)
    requires
        lists(republish, contents, contents.dom(), Duty::Republish, now),
        lists(replicate, contents, contents.dom(), Duty::Replicate, now),
        contents.contains_key(key),
    ensures
        ({
            let entry = contents[key];
            let again = entry.publish && entry.publish_time.nanos + REPUBLISH <= now.nanos;
            let over = !entry.publish && entry.publish_time.nanos + EXPIRE < now.nanos;
            let stale = entry.replication_time.nanos + REPLICATE < now.nanos;
            let after = swept(contents, now);
            &&& names(republish, key) <==> again
            &&& names(replicate, key) <==> !again && !over && stale
            &&& after.contains_key(key) <==> !over
            &&& !over ==> {
                &&& after[key].publish == entry.publish
                &&& after[key].data == entry.data
                &&& again ==> after[key].publish_time == now
                &&& !again ==> after[key].publish_time == entry.publish_time
                &&& again || stale ==> after[key].replication_time == now
                &&& !again && !stale ==> after[key].replication_time == entry.replication_time
            }
        }),
{
    let due = duty(contents[key], now);
    if due == Duty::Republish {
        assert(contents.contains_key(key) && contents.dom().contains(key) && duty(contents[key], now)
            == Duty::Republish);
    }
    if due == Duty::Replicate {
        assert(contents.contains_key(key) && contents.dom().contains(key) && duty(contents[key], now)
            == Duty::Replicate);
    }
}

/// What a sweep names is what it leaves: each value listed is one that the node keeps, is listed
/// once, and is handed on as it stands after the sweep. What it adds is nothing.
pub proof fn a_sweep_names_what_it_leaves(
    contents: Map<u128, DataView>,
    now: Timestamp,
    republish: Seq<(u128, Data)>,
    replicate: Seq<(u128, Data)>,
)
    requires
        lists(republish, contents, contents.dom(), Duty::Republish, now),
        lists(replicate, contents, contents.dom(), Duty::Replicate, now),
    ensures
        forall|i: int|
            0 <= i < republish.len() ==> {
                &&& contents.contains_key((#[trigger] republish[i]).0)
                &&& swept(contents, now).contains_key(republish[i].0)
                &&& republish[i].1@ == swept(contents, now)[republish[i].0]
                &&& republish[i].1@.publish_time == now
            },
        forall|i: int|
            0 <= i < replicate.len() ==> {
                &&& contents.contains_key((#[trigger] replicate[i]).0)
                &&& swept(contents, now).contains_key(replicate[i].0)
                &&& replicate[i].1@ == swept(contents, now)[replicate[i].0]
                &&& replicate[i].1@.publish_time == contents[replicate[i].0].publish_time
            },
        forall|i: int, j: int|
            0 <= i < j < republish.len() ==> (#[trigger] republish[i]).0 != (
            #[trigger] republish[j]).0,
        forall|i: int, j: int|
            0 <= i < j < replicate.len() ==> (#[trigger] replicate[i]).0 != (
            #[trigger] replicate[j]).0,
        forall|i: int, j: int|
            0 <= i < republish.len() && 0 <= j < replicate.len() ==> (#[trigger] republish[i]).0 != (
            #[trigger] replicate[j]).0,
        forall|key: u128| #[trigger]
            swept(contents, now).contains_key(key) ==> contents.contains_key(key),
{
}

/// An errand carries the value that it is for: its key, its bytes and its publishing time, and
/// whether its publisher sends it.
pub proof fn an_errand_carries_its_value(list: Seq<(u128, Data)>, publish: bool)
    ensures
        errands_for(list, publish).len() == list.len(),
        forall|i: int|
            0 <= i < list.len() ==> {
                &&& (#[trigger] errands_for(list, publish)[i]).key == list[i].0
                &&& errands_for(list, publish)[i].value == list[i].1.data@
                &&& errands_for(list, publish)[i].publish_time == list[i].1.publish_time
                &&& errands_for(list, publish)[i].publish == publish
            },
{
}

/// Naming the buckets that are due sets the timers of those to now and of no others.
pub proof fn only_due_timers_start_anew(timers: Seq<Timestamp>, now: Timestamp)
    ensures
        reset_timers(timers, now).len() == timers.len(),
        forall|i: int|
            0 <= i < timers.len() ==> (#[trigger] reset_timers(timers, now)[i]) == (if timers[i].nanos
                + REFRESH < now.nanos {
                now
            } else {
                timers[i]
            }),
{
}

/// The request by which a value is published carries the instant at which it is sent, so its
/// message is taken by whoever checks it at that instant or later, as the publisher's, with its
/// bytes, and counts as published no later than that instant and less than a millisecond before.
pub proof fn a_published_request_is_taken(
    value: Seq<u8>,
    sent_at: Timestamp,
    checked_at: Timestamp,
    publisher: Stub,
)
    requires
        0 <= sent_at.nanos < 0x1_0000_0000_0000_0000 * 1_000_000,
        sent_at.nanos <= checked_at.nanos,
    ensures
        publishing(value_key(value), value, sent_at).publish_time == sent_at,
        publishing(value_key(value), value, sent_at).publish,
        publishing(value_key(value), value, sent_at).store == (StoreView {
            key: value_key(value),
            value,
        }),
        ({
            let message = request_rep(publishing(value_key(value), value, sent_at), publisher);
            let taken = request_unrep(message, checked_at);
            &&& taken is Ok
            &&& taken->Ok_0.publish
            &&& taken->Ok_0.store.key == value_key(value)
            &&& taken->Ok_0.store.value == value
            &&& taken->Ok_0.publish_time.nanos <= sent_at.nanos
            &&& sent_at.nanos < taken->Ok_0.publish_time.nanos + 1_000_000
        }),
{
    request_read_back(publishing(value_key(value), value, sent_at), publisher, checked_at);
}

/// States that differ in one thing at most agree in all others.
pub proof fn other_things_stay(a: State, b: State)
    ensures
        a.same_but_store(&b) ==> a.id == b.id && a.port == b.port && a.buckets == b.buckets
            && a.refresh == b.refresh && a.start_time == b.start_time && a.table() == b.table(),
        a.same_but_timers(&b) ==> a.id == b.id && a.port == b.port && a.buckets == b.buckets
            && a.store == b.store && a.start_time == b.start_time && a.table() == b.table()
            && a.contents() == b.contents(),
        a.same_but_table(&b) ==> a.id == b.id && a.port == b.port && a.refresh == b.refresh
            && a.store == b.store && a.start_time == b.start_time && a.contents() == b.contents(),
{
}

/// The nodes that a value is sent to keep their order, and each is sent to as often as it was
/// found.
pub proof fn others_keep_their_order(close: Seq<Node>, id: u128, node: Node)
    ensures
        others(Seq::<Node>::empty(), id) == Seq::<Node>::empty(),
        node.id != id ==> others(close.push(node), id) == others(close, id) + seq![node],
        node.id == id ==> others(close.push(node), id) == others(close, id),
{
    reveal(Seq::filter);
    assert(close.push(node).drop_last() =~= close);
    if node.id != id {
        assert(others(close.push(node), id) =~= others(close, id) + seq![node]);
    }
}

/// The view of an errand is all of it.
pub proof fn errand_views_hold_all_fields(list: Seq<Errand>)
    ensures
        errand_views(list).len() == list.len(),
        forall|i: int|
            0 <= i < list.len() ==> {
                &&& (#[trigger] errand_views(list)[i]).key == list[i].key
                &&& errand_views(list)[i].value == list[i].value@
                &&& errand_views(list)[i].publish_time == list[i].publish_time
                &&& errand_views(list)[i].publish == list[i].publish
            },
{
}

} // verus!
