//! What a node sends to others, how it reads their answers, and what their answers tell of them.

use vstd::prelude::*;

use crate::data::{
    data_error_text, found_source, found_unrep, ids_in_range, ip_views, key_rep, nodes_unrep, source_unrep, stub_rep,
    DataError, DataErrorView, IpCheck, Key, Node, Nodes, StoreOrNodes, Stub,
};
use crate::error::{payload_status, Status};
use crate::hash::ID_MASK;
use crate::proto;
use crate::server::then_read;
use crate::table::{doubted, table_heard, table_retired, Probe};
use crate::tokad::State;

verus! {

/// Whether the outcome of reading an answer is the expected one: the sender and the content, or
/// the first error, that of the sender before that of the content.
pub open spec fn read_as<T: View>(
    result: Result<(Stub, T), DataError>,
    source: Result<Stub, DataErrorView>,
    content: Result<T::V, DataErrorView>,
) -> bool {
    match (result, then_read(source, content)) {
        (Ok((stub, value)), Ok(view)) => source == Ok::<Stub, DataErrorView>(stub) && value@
            == view,
        (Err(error), Err(view)) => error@ == view,
        _ => false,
    }
}

/// Reads the answer to the question for the nodes near a key. `ips` holds the outcome of parsing
/// the address of each node in it.
pub fn read_nodes(message: proto::Nodes, ips: Vec<IpCheck>) -> (read: Result<
    (Stub, Nodes),
    DataError,
>)
    requires
        ips@.len() == message.nodes@.len(),
    ensures
        read_as(
            read,
            source_unrep(message@.source),
            nodes_unrep(message@.nodes, ip_views(ips@)),
        ),
        read matches Ok((stub, nodes)) ==> stub.id <= ID_MASK && ids_in_range(nodes.nodes@),
{
    let stub: Stub = match Stub::try_from(&message) {
        Err(e) => return Err(e),
        Ok(stub) => stub,
    };
    match message.unrep(ips) {
        Err(e) => Err(e),
        Ok(nodes) => Ok((stub, nodes)),
    }
}

/// Reads the answer to the question for a value. `ips` holds the outcome of parsing the address of
/// each node in it.
pub fn read_found(message: proto::StoreOrNodes, ips: Vec<IpCheck>) -> (read: Result<
    (Stub, StoreOrNodes),
    DataError,
>)
    requires
        message.oneof matches Some(proto::store_or_nodes::Oneof::Nodes(nodes)) ==> ips@.len()
            == nodes.nodes@.len(),
    ensures
        read_as(read, found_source(message@), found_unrep(message@, ip_views(ips@))),
        read matches Ok((stub, _)) ==> stub.id <= ID_MASK,
        read matches Ok((_, StoreOrNodes::Nodes(nodes))) ==> ids_in_range(nodes.nodes@),
{
    let stub: Stub = match Stub::try_from(&message) {
        Err(e) => return Err(e),
        Ok(stub) => stub,
    };
    match message.unrep(ips) {
        Err(e) => Err(e),
        Ok(found) => Ok((stub, found)),
    }
}

// ---------------------------------------------------------------------------------------------
// What comes of a question
// ---------------------------------------------------------------------------------------------

/// What came of a question to a node. `S` is a status of the network.
#[derive(Debug)]
pub enum Outcome<M, S> {
    /// There was no connection to ask it on.
    Unreachable(S),
    /// The question was not answered.
    Refused(S),
    /// The question was answered.
    Answered(M),
}

/// What a question failed of: a status of the network, or one for an answer that cannot be read.
#[derive(Debug)]
pub enum Trouble<S> {
    Network(S),
    Payload(Status),
}

/// What is to be noted of a node that was asked.
#[derive(Debug, Clone, Copy, PartialEq, Eq, Structural)]
pub enum FollowUp {
    Nothing,
    /// It was heard of.
    Heard,
    /// It is gone.
    Gone,
}

/// What a question brought.
#[derive(Debug)]
pub struct Learned<T, S> {
    pub result: Result<T, Trouble<S>>,
    pub follow_up: FollowUp,
}

/// Whether this is what a question brings that no answer came to: where there was no connection,
/// nothing is noted of the node, else that it is gone.
pub open spec fn unanswered<T, S>(learned: Learned<T, S>, status: S, connected: bool) -> bool {
    &&& learned.result == Err::<T, Trouble<S>>(Trouble::Network(status))
    &&& learned.follow_up == if connected {
        FollowUp::Gone
    } else {
        FollowUp::Nothing
    }
}

/// Whether this is what an answer brings that cannot be read: the node that gave it is as good as
/// gone.
pub open spec fn unreadable<T, S>(learned: Learned<T, S>, error: DataErrorView) -> bool {
    &&& learned.result matches Err(Trouble::Payload(status))
    &&& status@ == payload_status(error)
    &&& learned.follow_up == FollowUp::Gone
}

fn learn<T, S>(read: Result<T, DataError>) -> (learned: Learned<T, S>)
    ensures
        match read {
            Ok(value) => {
                &&& learned.result == Ok::<T, Trouble<S>>(value)
                &&& learned.follow_up == FollowUp::Heard
            },
            Err(error) => unreadable(learned, error@),
        },
{
    match read {
        Ok(value) => Learned { result: Ok(value), follow_up: FollowUp::Heard },
        Err(error) => {
            let status: Status = Status::from(error);
            Learned { result: Err(Trouble::Payload(status)), follow_up: FollowUp::Gone }
        },
    }
}

fn learn_nothing<T, S>(status: S, connected: bool) -> (learned: Learned<T, S>)
    ensures
        unanswered(learned, status, connected),
{
    let follow_up: FollowUp = if connected {
        FollowUp::Gone
    } else {
        FollowUp::Nothing
    };
    Learned { result: Err(Trouble::Network(status)), follow_up }
}

/// What a ping brings, or the request to keep a value.
pub fn learn_pong<S>(outcome: Outcome<proto::Pong, S>) -> (learned: Learned<Stub, S>)
    ensures
        match outcome {
            Outcome::Unreachable(status) => unanswered(learned, status, false),
            Outcome::Refused(status) => unanswered(learned, status, true),
            Outcome::Answered(pong) => match source_unrep(proto::source_view(pong.source)) {
                Ok(stub) => {
                    &&& learned.result == Ok::<Stub, Trouble<S>>(stub)
                    &&& learned.follow_up == FollowUp::Heard
                    &&& stub.id <= ID_MASK
                },
                Err(error) => unreadable(learned, error),
            },
        },
{
    match outcome {
        Outcome::Unreachable(status) => learn_nothing(status, false),
        Outcome::Refused(status) => learn_nothing(status, true),
        Outcome::Answered(pong) => learn(Stub::try_from(&pong)),
    }
}

/// What the question for the nodes near a key brings. With an answer comes the outcome of parsing
/// the address of each node in it.
pub fn learn_nodes<S>(outcome: Outcome<(proto::Nodes, Vec<IpCheck>), S>) -> (learned: Learned<
    (Stub, Nodes),
    S,
>)
    requires
        outcome matches Outcome::Answered((message, ips)) ==> ips@.len() == message.nodes@.len(),
    ensures
        match outcome {
            Outcome::Unreachable(status) => unanswered(learned, status, false),
            Outcome::Refused(status) => unanswered(learned, status, true),
            Outcome::Answered((message, ips)) => {
                let source = source_unrep(message@.source);
                match then_read(source, nodes_unrep(message@.nodes, ip_views(ips@))) {
                    Ok(view) => {
                        &&& learned.result matches Ok((stub, nodes))
                        &&& source == Ok::<Stub, DataErrorView>(stub)
                        &&& nodes@ == view
                        &&& ids_in_range(nodes.nodes@)
                        &&& learned.follow_up == FollowUp::Heard
                    },
                    Err(error) => unreadable(learned, error),
                }
            },
        },
{
    match outcome {
        Outcome::Unreachable(status) => learn_nothing(status, false),
        Outcome::Refused(status) => learn_nothing(status, true),
        Outcome::Answered((message, ips)) => learn(read_nodes(message, ips)),
    }
}

/// What the question for a value brings. With an answer comes the outcome of parsing the address
/// of each node in it.
pub fn learn_found<S>(outcome: Outcome<(proto::StoreOrNodes, Vec<IpCheck>), S>) -> (learned:
    Learned<(Stub, StoreOrNodes), S>)
    requires
        outcome matches Outcome::Answered((message, ips)) ==> (message.oneof matches Some(
            proto::store_or_nodes::Oneof::Nodes(nodes),
        ) ==> ips@.len() == nodes.nodes@.len()),
    ensures
        match outcome {
            Outcome::Unreachable(status) => unanswered(learned, status, false),
            Outcome::Refused(status) => unanswered(learned, status, true),
            Outcome::Answered((message, ips)) => {
                let source = found_source(message@);
                match then_read(source, found_unrep(message@, ip_views(ips@))) {
                    Ok(view) => {
                        &&& learned.result matches Ok((stub, found))
                        &&& source == Ok::<Stub, DataErrorView>(stub)
                        &&& found@ == view
                        &&& found matches StoreOrNodes::Nodes(nodes) ==> ids_in_range(nodes.nodes@)
                        &&& learned.follow_up == FollowUp::Heard
                    },
                    Err(error) => unreadable(learned, error),
                }
            },
        },
{
    match outcome {
        Outcome::Unreachable(status) => learn_nothing(status, false),
        Outcome::Refused(status) => learn_nothing(status, true),
        Outcome::Answered((message, ips)) => learn(read_found(message, ips)),
    }
}

impl State {
    /// The message by which the node pings another.
    pub fn ping_message(&self) -> (message: proto::Ping)
        ensures
            proto::source_view(message.source) == Some(stub_rep(self.own_stub())),
    {
        proto::Ping { source: Some(self.stub().rep()) }
    }

    /// The message by which the node asks another for a key.
    pub fn key_message(&self, key: u128) -> (message: proto::Key)
        ensures
            message@ == key_rep(key, self.own_stub()),
    {
        Key { key }.rep(self.stub())
    }

    /// Notes the node through which this one came to the network, which answered from the address
    /// `ip`. Gives the test that is due where its bucket is full, and the key to look up next:
    /// this node's own.
    pub fn join(&mut self, source: Stub, ip: String) -> (joined: (Option<Probe>, u128))
        requires
            old(self).wf(),
            source.id <= ID_MASK,
        ensures
            final(self).wf(),
            final(self).same_but_table(old(self)),
            ({
                let seed = Node { id: source.id, ip, port: source.port };
                &&& final(self).table() == table_heard(old(self).id, old(self).table(), seed)
                &&& match (joined.0, doubted(old(self).id, old(self).table(), seed)) {
                    (Some(probe), Some(test)) => {
                        &&& probe.node == seed
                        &&& probe.test == test
                        &&& probe.fits(old(self).id)
                    },
                    (None, None) => true,
                    _ => false,
                }
            }),
            joined.1 == old(self).id,
    {
        let probe: Option<Probe> = self.refresh(Node::from_stub(source, ip));
        (probe, self.id)
    }

    /// Notes what came of a question to a node: one that was heard of stays or joins, one that is
    /// gone is forgotten. Gives the test that is due where the bucket of the node is full.
    pub fn follow_up(&mut self, node: Node, follow_up: FollowUp) -> (probe: Option<Probe>)
        requires
            old(self).wf(),
            node.id <= ID_MASK,
        ensures
            final(self).wf(),
            final(self).same_but_table(old(self)),
            final(self).table() == match follow_up {
                FollowUp::Nothing => old(self).table(),
                FollowUp::Heard => table_heard(old(self).id, old(self).table(), node),
                FollowUp::Gone => table_retired(old(self).id, old(self).table(), node.id),
            },
            match probe {
                Some(probe) => {
                    &&& follow_up == FollowUp::Heard
                    &&& doubted(old(self).id, old(self).table(), node) == Some(probe.test)
                    &&& probe.node == node
                    &&& probe.fits(old(self).id)
                },
                None => follow_up == FollowUp::Heard ==> doubted(
                    old(self).id,
                    old(self).table(),
                    node,
                ) is None,
            },
    {
        match follow_up {
            FollowUp::Nothing => None,
            FollowUp::Heard => self.refresh(node),
            FollowUp::Gone => {
                self.retire(node);
                None
            },
        }
    }
}

/// What is noted of a node that was asked. Nothing, where there was no connection; that it is gone,
/// where it did not answer or its answer cannot be read. The status is that of the network as it
/// came, or names what cannot be read as an argument that cannot be used.
pub proof fn silence_tells_that_a_node_is_gone<T, S>(
    learned: Learned<T, S>,
    status: S,
    error: DataErrorView,
)
    ensures
        unanswered(learned, status, false) ==> learned.follow_up == FollowUp::Nothing
            && learned.result == Err::<T, Trouble<S>>(Trouble::Network(status)),
        unanswered(learned, status, true) ==> learned.follow_up == FollowUp::Gone && learned.result
            == Err::<T, Trouble<S>>(Trouble::Network(status)),
        unreadable(learned, error) ==> {
            &&& learned.follow_up == FollowUp::Gone
            &&& learned.result is Err
            &&& learned.result->Err_0 is Payload
            &&& learned.result->Err_0->Payload_0.code == 3
            &&& learned.result->Err_0->Payload_0.message@ == "Payload error: "@ + data_error_text(
                error,
            )
        },
{
}

/// An answer is read as its sender and its content, and fails with the error of its sender before
/// that of its content.
pub proof fn the_sender_is_read_first<T: View>(
    result: Result<(Stub, T), DataError>,
    source: Result<Stub, DataErrorView>,
    content: Result<T::V, DataErrorView>,
)
    requires
        read_as(result, source, content),
    ensures
        result is Ok <==> source is Ok && content is Ok,
        result is Ok ==> result->Ok_0.0 == source->Ok_0 && result->Ok_0.1@ == content->Ok_0,
        source is Err ==> result->Err_0@ == source->Err_0,
        source is Ok && content is Err ==> result->Err_0@ == content->Err_0,
{
}

} // verus!
