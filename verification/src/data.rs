//! What a message says once it is checked, and the checks.
//!
//! `rep` turns a checked value into a message, `unrep` checks a message. Whether a text is an IP
//! address is not decided here: `unrep` takes the outcome of parsing it.

use vstd::arithmetic::power::pow;
use vstd::prelude::*;

use crate::bytes::{
    bytes_are_digits, le_bytes, le_value, low_bytes_decide, u128_bytes_read_back, u128_from_le,
    u128_to_bytes,
};
use crate::clock::{
    clock_reading, epoch_millis, instant_text, millis_instant, millis_read_back,
    milliseconds_are_counted, Timestamp,
};
use crate::hash::{cut, key_hash, mask_cuts, value_key, ID_MASK};
use crate::proto;
use crate::text::{decimal, entry_line, entry_text, push_decimal};

verus! {

broadcast use vstd::string::group_string_axioms;

// ---------------------------------------------------------------------------------------------
// Errors
// ---------------------------------------------------------------------------------------------

/// What is wrong with a message.
#[derive(Debug, Clone, PartialEq, Eq)]
pub enum DataError {
    InvalidIp(String),
    InvalidPort(String),
    InvalidIdLength(usize),
    MissingField(String),
    HashMismatch { expected: u128, actual: u128 },
    TimeTravel { now: Timestamp, received: Timestamp },
}

/// The view of a `DataError`.
pub enum DataErrorView {
    InvalidIp(Seq<char>),
    InvalidPort(Seq<char>),
    InvalidIdLength(usize),
    MissingField(Seq<char>),
    HashMismatch { expected: u128, actual: u128 },
    TimeTravel { now: Timestamp, received: Timestamp },
}

impl View for DataError {
    type V = DataErrorView;

    open spec fn view(&self) -> DataErrorView {
        match self {
            DataError::InvalidIp(e) => DataErrorView::InvalidIp(e@),
            DataError::InvalidPort(e) => DataErrorView::InvalidPort(e@),
            DataError::InvalidIdLength(len) => DataErrorView::InvalidIdLength(*len),
            DataError::MissingField(msg) => DataErrorView::MissingField(msg@),
            DataError::HashMismatch { expected, actual } => DataErrorView::HashMismatch {
                expected: *expected,
                actual: *actual,
            },
            DataError::TimeTravel { now, received } => DataErrorView::TimeTravel {
                now: *now,
                received: *received,
            },
        }
    }
}

/// How an error is shown.
pub open spec fn data_error_text(e: DataErrorView) -> Seq<char> {
    match e {
        DataErrorView::InvalidIp(e) => "Invalid IP address: "@ + e,
        DataErrorView::InvalidPort(e) => "Invalid port: "@ + e,
        DataErrorView::InvalidIdLength(len) => "Invalid ID length: expected 16 bytes, got "@
            + decimal(len as nat) + " bytes"@,
        DataErrorView::MissingField(msg) => "Missing field: "@ + msg,
        DataErrorView::HashMismatch { expected, actual } => "HashMismatch: expected "@ + decimal(
            expected as nat,
        ) + ", got "@ + decimal(actual as nat) + " bytes"@,
        DataErrorView::TimeTravel { now, received } => "Future timestamp: now "@ + instant_text(now)
            + ", received "@ + instant_text(received),
    }
}

impl DataError {
    /// How an error is shown.
    pub fn to_string(&self) -> (s: String)
        ensures
            s@ == data_error_text(self@),
    {
        match self {
            DataError::InvalidIp(e) => {
                let mut s: String = "Invalid IP address: ".to_owned();
                s.append(e.as_str());
                s
            },
            DataError::InvalidPort(e) => {
                let mut s: String = "Invalid port: ".to_owned();
                s.append(e.as_str());
                s
            },
            DataError::InvalidIdLength(len) => {
                let mut s: String = "Invalid ID length: expected 16 bytes, got ".to_owned();
                push_decimal(&mut s, *len as u128);
                s.append(" bytes");
                s
            },
            DataError::MissingField(msg) => {
                let mut s: String = "Missing field: ".to_owned();
                s.append(msg.as_str());
                s
            },
            DataError::HashMismatch { expected, actual } => {
                let mut s: String = "HashMismatch: expected ".to_owned();
                push_decimal(&mut s, *expected);
                s.append(", got ");
                push_decimal(&mut s, *actual);
                s.append(" bytes");
                s
            },
            DataError::TimeTravel { now, received } => {
                let mut s: String = "Future timestamp: now ".to_owned();
                s.append(now.to_string().as_str());
                s.append(", received ");
                s.append(received.to_string().as_str());
                s
            },
        }
    }
}

/// Whether a result is the one that the specification gives: the same error, or a value with the
/// given view.
pub open spec fn answers<T: View>(
    result: Result<T, DataError>,
    expected: Result<T::V, DataErrorView>,
) -> bool {
    match (result, expected) {
        (Ok(value), Ok(view)) => value@ == view,
        (Err(error), Err(view)) => error@ == view,
        _ => false,
    }
}

// ---------------------------------------------------------------------------------------------
// Checked values
// ---------------------------------------------------------------------------------------------

/// Who sends a message.
#[derive(Debug, Clone, Copy, PartialEq, Eq, Structural)]
pub struct Stub {
    pub id: u128,
    pub port: u32,
}

impl View for Stub {
    type V = Stub;

    open spec fn view(&self) -> Stub {
        *self
    }
}

impl Default for Stub {
    fn default() -> (stub: Stub)
        ensures
            stub == (Stub { id: 0, port: 0 }),
    {
        Stub { id: 0, port: 0 }
    }
}

/// A node and where it listens.
#[derive(Debug, PartialEq, Eq)]
pub struct Node {
    pub id: u128,
    pub ip: String,
    pub port: u32,
}

/// The view of a `Node`.
pub struct NodeView {
    pub id: u128,
    pub ip: Seq<char>,
    pub port: u32,
}

impl View for Node {
    type V = NodeView;

    open spec fn view(&self) -> NodeView {
        NodeView { id: self.id, ip: self.ip@, port: self.port }
    }
}

impl Clone for Node {
    fn clone(&self) -> (node: Node)
        ensures
            node == *self,
    {
        Node { id: self.id, ip: self.ip.clone(), port: self.port }
    }
}

impl Default for Node {
    fn default() -> (node: Node)
        ensures
            node@ == (NodeView { id: 0, ip: Seq::empty(), port: 0 }),
    {
        Node { id: 0, ip: String::new(), port: 0 }
    }
}

/// The views of a list of nodes.
pub open spec fn node_views(nodes: Seq<Node>) -> Seq<NodeView> {
    nodes.map_values(|n: Node| n@)
}

/// A key that someone looks for.
#[derive(Debug, Clone, Copy, PartialEq, Eq, Structural)]
pub struct Key {
    pub key: u128,
}

impl View for Key {
    type V = u128;

    open spec fn view(&self) -> u128 {
        self.key
    }
}

/// A value with its key.
#[derive(Debug, Clone, PartialEq, Eq)]
pub struct Store {
    pub key: u128,
    pub value: Vec<u8>,
}

/// The view of a `Store`.
pub struct StoreView {
    pub key: u128,
    pub value: Seq<u8>,
}

impl View for Store {
    type V = StoreView;

    open spec fn view(&self) -> StoreView {
        StoreView { key: self.key, value: self.value@ }
    }
}

/// The request to keep a value.
#[derive(Debug, Clone, PartialEq, Eq)]
pub struct StoreRequest {
    pub store: Store,
    pub publish: bool,
    pub publish_time: Timestamp,
}

/// The view of a `StoreRequest`.
pub struct StoreRequestView {
    pub store: StoreView,
    pub publish: bool,
    pub publish_time: Timestamp,
}

impl View for StoreRequest {
    type V = StoreRequestView;

    open spec fn view(&self) -> StoreRequestView {
        StoreRequestView {
            store: self.store@,
            publish: self.publish,
            publish_time: self.publish_time,
        }
    }
}

/// A list of nodes.
#[derive(Debug, Clone, PartialEq, Eq)]
pub struct Nodes {
    pub nodes: Vec<Node>,
}

impl View for Nodes {
    type V = Seq<NodeView>;

    open spec fn view(&self) -> Seq<NodeView> {
        node_views(self.nodes@)
    }
}

/// The outcome of a search: the value, or nodes close to its key.
#[derive(Debug, Clone, PartialEq, Eq)]
pub enum StoreOrNodes {
    Store(Store),
    Nodes(Nodes),
}

/// The view of a `StoreOrNodes`.
pub enum StoreOrNodesView {
    Store(StoreView),
    Nodes(Seq<NodeView>),
}

impl View for StoreOrNodes {
    type V = StoreOrNodesView;

    open spec fn view(&self) -> StoreOrNodesView {
        match self {
            StoreOrNodes::Store(store) => StoreOrNodesView::Store(store@),
            StoreOrNodes::Nodes(nodes) => StoreOrNodesView::Nodes(nodes@),
        }
    }
}

// ---------------------------------------------------------------------------------------------
// Identifiers and ports
// ---------------------------------------------------------------------------------------------

/// The bytes of an identifier.
pub open spec fn id_bytes(id: u128) -> Seq<u8> {
    le_bytes(id as nat, 16)
}

/// The identifier in a byte string, which must have 16 bytes.
pub open spec fn parsed_id(bytes: Seq<u8>) -> Result<u128, DataErrorView> {
    if bytes.len() != 16 {
        Err(DataErrorView::InvalidIdLength(bytes.len() as usize))
    } else {
        Ok(cut(le_value(bytes)))
    }
}

/// Reads an identifier.
pub fn parse_id(bytes: &[u8]) -> (id: Result<u128, DataError>)
    ensures
        match (id, parsed_id(bytes@)) {
            (Ok(id), Ok(expected)) => id == expected && id <= ID_MASK,
            (Err(error), Err(expected)) => error@ == expected,
            _ => false,
        },
{
    if bytes.len() != 16 {
        return Err(DataError::InvalidIdLength(bytes.len()));
    }
    let number: u128 = u128_from_le(bytes);
    proof {
        mask_cuts(number);
    }
    Ok(number & ID_MASK)
}

/// How the error is shown that a port does not fit in 16 bits.
pub uninterp spec fn port_error(port: u32) -> Seq<char>;

/// Calls `u16::try_from` and shows its error. Trusted: it succeeds, with the same number, exactly
/// where the number fits in 16 bits, and what the error says depends on the number alone.
#[verifier::external_body]
fn narrow_port(port: u32) -> (narrow: Result<u16, String>)
    ensures
        match narrow {
            Ok(p) => port <= 0xffff && p == port,
            Err(e) => port > 0xffff && e@ == port_error(port),
        },
{
    u16::try_from(port).map_err(|e| e.to_string())
}

/// The check of a port.
pub open spec fn checked_port(port: u32) -> Result<u16, DataErrorView> {
    if port <= 0xffff {
        Ok(port as u16)
    } else {
        Err(DataErrorView::InvalidPort(port_error(port)))
    }
}

/// Checks a port.
pub fn check_port(port: u32) -> (checked: Result<u16, DataError>)
    ensures
        match (checked, checked_port(port)) {
            (Ok(p), Ok(expected)) => p == expected,
            (Err(error), Err(expected)) => error@ == expected,
            _ => false,
        },
{
    match narrow_port(port) {
        Ok(p) => Ok(p),
        Err(e) => Err(DataError::InvalidPort(e)),
    }
}

// ---------------------------------------------------------------------------------------------
// Senders
// ---------------------------------------------------------------------------------------------

/// The message form of a `Stub`.
pub open spec fn stub_rep(stub: Stub) -> proto::StubView {
    proto::StubView { id: id_bytes(stub.id), port: stub.port }
}

/// The check of a `Stub`: first its identifier, then its port.
pub open spec fn stub_unrep(stub: proto::StubView) -> Result<Stub, DataErrorView> {
    match parsed_id(stub.id) {
        Err(e) => Err(e),
        Ok(id) => match checked_port(stub.port) {
            Err(e) => Err(e),
            Ok(_) => Ok(Stub { id, port: stub.port }),
        },
    }
}

/// The check of the source of a message.
pub open spec fn source_unrep(source: Option<proto::StubView>) -> Result<Stub, DataErrorView> {
    match source {
        Some(stub) => stub_unrep(stub),
        None => Err(DataErrorView::MissingField("missing source"@)),
    }
}

impl Stub {
    /// The message form of a `Stub`.
    pub fn rep(&self) -> (message: proto::Stub)
        ensures
            message@ == stub_rep(*self),
    {
        proto::Stub { id: u128_to_bytes(self.id), port: self.port }
    }
}

impl proto::Stub {
    /// Checks a `Stub`.
    pub fn unrep(&self) -> (stub: Result<Stub, DataError>)
        ensures
            answers(stub, stub_unrep(self@)),
            stub matches Ok(stub) ==> stub.id <= ID_MASK,
    {
        match parse_id(self.id.as_slice()) {
            Err(e) => Err(e),
            Ok(id) => match check_port(self.port) {
                Err(e) => Err(e),
                Ok(_) => Ok(Stub { id, port: self.port }),
            },
        }
    }
}

/// Checks the source of a message.
pub fn check_source(source: &Option<proto::Stub>) -> (stub: Result<Stub, DataError>)
    ensures
        answers(stub, source_unrep(proto::source_view(*source))),
        stub matches Ok(stub) ==> stub.id <= ID_MASK,
{
    match source {
        Some(s) => s.unrep(),
        None => Err(DataError::MissingField("missing source".to_owned())),
    }
}

// ---------------------------------------------------------------------------------------------
// Nodes
// ---------------------------------------------------------------------------------------------

/// What parsing a text as an IP address gave: nothing but success, or how the error is shown.
pub type IpCheck = Result<(), String>;

/// The view of an `IpCheck`.
pub open spec fn ip_view(check: IpCheck) -> Result<(), Seq<char>> {
    match check {
        Ok(()) => Ok(()),
        Err(e) => Err(e@),
    }
}

/// The views of a list of outcomes.
pub open spec fn ip_views(checks: Seq<IpCheck>) -> Seq<Result<(), Seq<char>>> {
    checks.map_values(|c: IpCheck| ip_view(c))
}

/// The message form of a `Node`.
pub open spec fn node_rep(node: NodeView) -> proto::NodeView {
    proto::NodeView { id: id_bytes(node.id), ip: node.ip, port: node.port }
}

/// The message form of a list of nodes.
pub open spec fn nodes_rep(nodes: Seq<NodeView>) -> Seq<proto::NodeView> {
    nodes.map_values(|n: NodeView| node_rep(n))
}

/// The check of a `Node`: first its identifier, then its address, then its port.
pub open spec fn node_unrep(node: proto::NodeView, ip: Result<(), Seq<char>>) -> Result<
    NodeView,
    DataErrorView,
> {
    match parsed_id(node.id) {
        Err(e) => Err(e),
        Ok(id) => match ip {
            Err(e) => Err(DataErrorView::InvalidIp(e)),
            Ok(()) => match checked_port(node.port) {
                Err(e) => Err(e),
                Ok(_) => Ok(NodeView { id, ip: node.ip, port: node.port }),
            },
        },
    }
}

/// The check of a list of nodes: all of them, or the error of the first that fails.
pub open spec fn nodes_unrep(
    nodes: Seq<proto::NodeView>,
    ips: Seq<Result<(), Seq<char>>>,
) -> Result<Seq<NodeView>, DataErrorView>
    decreases nodes.len(),
{
    if nodes.len() == 0 {
        Ok(Seq::empty())
    } else {
        match node_unrep(nodes[0], ips[0]) {
            Err(e) => Err(e),
            Ok(first) => match nodes_unrep(nodes.drop_first(), ips.drop_first()) {
                Err(e) => Err(e),
                Ok(rest) => Ok(seq![first] + rest),
            },
        }
    }
}

/// Whether every node of a list has an identifier in range.
pub open spec fn ids_in_range(nodes: Seq<Node>) -> bool {
    forall|i: int| 0 <= i < nodes.len() ==> (#[trigger] nodes[i]).id <= ID_MASK
}

impl Node {
    /// The message form of a `Node`.
    pub fn rep(self) -> (message: proto::Node)
        ensures
            message@ == node_rep(self@),
    {
        proto::Node { id: u128_to_bytes(self.id), ip: self.ip, port: self.port }
    }
}

impl proto::Node {
    /// Checks a `Node`. `ip` is the outcome of parsing its address.
    pub fn unrep(self, ip: IpCheck) -> (node: Result<Node, DataError>)
        ensures
            answers(node, node_unrep(self@, ip_view(ip))),
            node matches Ok(node) ==> node.id <= ID_MASK,
    {
        let id: u128 = match parse_id(self.id.as_slice()) {
            Err(e) => return Err(e),
            Ok(id) => id,
        };
        match ip {
            Err(e) => return Err(DataError::InvalidIp(e)),
            Ok(()) => {},
        }
        match check_port(self.port) {
            Err(e) => Err(e),
            Ok(_) => Ok(Node { id, ip: self.ip, port: self.port }),
        }
    }
}

impl Nodes {
    /// The nodes as the outcome of a search.
    pub fn or_store(self) -> (found: StoreOrNodes)
        ensures
            found == StoreOrNodes::Nodes(self),
    {
        StoreOrNodes::Nodes(self)
    }

    /// The message form of a `Nodes`.
    pub fn rep(self, stub: Stub) -> (message: proto::Nodes)
        ensures
            message@ == (proto::NodesView {
                source: Some(stub_rep(stub)),
                nodes: nodes_rep(self@),
            }),
    {
        let mut messages: Vec<proto::Node> = Vec::new();
        let mut nodes: Vec<Node> = self.nodes;
        let ghost all = self.nodes@;
        let ghost mut done: Seq<Node> = Seq::empty();
        assert(all =~= done + nodes@);
        assert(proto::node_views(messages@) =~= nodes_rep(node_views(done)));
        while nodes.len() > 0
            invariant
                all == done + nodes@,
                proto::node_views(messages@) == nodes_rep(node_views(done)),
            decreases nodes@.len(),
        {
            let ghost before = nodes@;
            let ghost sent = messages@;
            let node: Node = nodes.remove(0);
            let ghost taken = node;
            let message: proto::Node = node.rep();
            messages.push(message);
            proof {
                let longer = done.push(taken);
                assert(all =~= longer + nodes@);
                assert(proto::node_views(messages@) =~= proto::node_views(sent).push(message@));
                assert(nodes_rep(node_views(longer)) =~= nodes_rep(node_views(done)).push(
                    node_rep(taken@),
                ));
                done = longer;
            }
        }
        assert(all =~= done);
        proto::Nodes { source: Some(stub.rep()), nodes: messages }
    }
}

impl proto::Nodes {
    /// Checks a list of nodes. `ips` holds the outcome of parsing the address of each.
    pub fn unrep(self, ips: Vec<IpCheck>) -> (nodes: Result<Nodes, DataError>)
        requires
            ips@.len() == self.nodes@.len(),
        ensures
            answers(nodes, nodes_unrep(self@.nodes, ip_views(ips@))),
            nodes matches Ok(nodes) ==> ids_in_range(nodes.nodes@),
    {
        let ghost whole = nodes_unrep(self@.nodes, ip_views(ips@));
        let mut messages: Vec<proto::Node> = self.nodes;
        let mut checks: Vec<IpCheck> = ips;
        let mut nodes: Vec<Node> = Vec::new();
        assert(node_views(nodes@) =~= Seq::<NodeView>::empty());
        proof {
            if whole is Ok {
                assert(node_views(nodes@) + whole->Ok_0 =~= whole->Ok_0);
            }
        }
        while messages.len() > 0
            invariant
                messages@.len() == checks@.len(),
                ids_in_range(nodes@),
                whole == nodes_unrep(self@.nodes, ip_views(ips@)),
                whole == (match nodes_unrep(proto::node_views(messages@), ip_views(checks@)) {
                    Err(e) => Err::<Seq<NodeView>, DataErrorView>(e),
                    Ok(rest) => Ok(node_views(nodes@) + rest),
                }),
            decreases messages@.len(),
        {
            let ghost left = proto::node_views(messages@);
            let ghost left_ips = ip_views(checks@);
            let ghost before = nodes@;
            let message: proto::Node = messages.remove(0);
            let check: IpCheck = checks.remove(0);
            assert(left[0] == message@);
            assert(left_ips[0] == ip_view(check));
            assert(left.drop_first() =~= proto::node_views(messages@));
            assert(left_ips.drop_first() =~= ip_views(checks@));
            match message.unrep(check) {
                Err(e) => {
                    return Err(e);
                },
                Ok(node) => {
                    nodes.push(node);
                    proof {
                        assert(node_views(nodes@) =~= node_views(before).push(node@));
                        if let Ok(rest) = nodes_unrep(left.drop_first(), left_ips.drop_first()) {
                            assert(node_views(nodes@) + rest =~= node_views(before) + (seq![node@]
                                + rest));
                        }
                    }
                },
            }
        }
        assert(node_views(nodes@) + Seq::<NodeView>::empty() =~= node_views(nodes@));
        Ok(Nodes { nodes })
    }
}

// ---------------------------------------------------------------------------------------------
// Values
// ---------------------------------------------------------------------------------------------

/// The message form of a `Store`.
pub open spec fn store_rep(store: StoreView, stub: Stub) -> proto::StoreView {
    proto::StoreView {
        source: Some(stub_rep(stub)),
        key: id_bytes(store.key),
        value: store.value,
    }
}

/// The check of a value with its key: the key must be the one that the value hashes to.
pub open spec fn pair_unrep(key: Seq<u8>, value: Seq<u8>) -> Result<StoreView, DataErrorView> {
    match parsed_id(key) {
        Err(e) => Err(e),
        Ok(key) => if key != value_key(value) {
            Err(DataErrorView::HashMismatch { expected: value_key(value), actual: key })
        } else {
            Ok(StoreView { key, value })
        },
    }
}

fn check_pair(key: &Vec<u8>, value: Vec<u8>) -> (store: Result<Store, DataError>)
    ensures
        answers(store, pair_unrep(key@, value@)),
{
    let key: u128 = match parse_id(key.as_slice()) {
        Err(e) => return Err(e),
        Ok(key) => key,
    };
    let expected: u128 = key_hash(value.as_slice());
    if key != expected {
        return Err(DataError::HashMismatch { expected, actual: key });
    }
    Ok(Store { key, value })
}

impl Store {
    /// The value as the outcome of a search.
    pub fn or_nodes(self) -> (found: StoreOrNodes)
        ensures
            found == StoreOrNodes::Store(self),
    {
        StoreOrNodes::Store(self)
    }

    /// The message form of a `Store`.
    pub fn rep(self, stub: Stub) -> (message: proto::Store)
        ensures
            message@ == store_rep(self@, stub),
    {
        proto::Store {
            source: Some(stub.rep()),
            key: u128_to_bytes(self.key),
            value: self.value,
        }
    }

    /// How a value is shown: behind its key, as text where it is valid UTF-8, else as a list of
    /// its bytes.
    pub fn to_string(&self) -> (s: String)
        ensures
            s@ == entry_line(self.key, self.value@),
    {
        entry_text(self.key, self.value.as_slice())
    }
}

impl proto::Store {
    /// Checks a value against its key.
    pub fn unrep(self) -> (store: Result<Store, DataError>)
        ensures
            answers(store, pair_unrep(self@.key, self@.value)),
    {
        check_pair(&self.key, self.value)
    }
}

/// The message form of a `StoreRequest`.
pub open spec fn request_rep(request: StoreRequestView, stub: Stub) -> proto::StoreRequestView {
    proto::StoreRequestView {
        source: Some(stub_rep(stub)),
        key: id_bytes(request.store.key),
        value: request.store.value,
        publish_time: epoch_millis(request.publish_time),
        publish: request.publish,
    }
}

/// The check of a `StoreRequest` at the instant `now`: the value must have its own key, and it
/// must not have been published later than now.
pub open spec fn request_unrep(request: proto::StoreRequestView, now: Timestamp) -> Result<
    StoreRequestView,
    DataErrorView,
> {
    match pair_unrep(request.key, request.value) {
        Err(e) => Err(e),
        Ok(store) => {
            let publish_time = millis_instant(request.publish_time);
            if publish_time.nanos > now.nanos {
                Err(DataErrorView::TimeTravel { now, received: publish_time })
            } else {
                Ok(StoreRequestView { store, publish: request.publish, publish_time })
            }
        },
    }
}

impl StoreRequest {
    /// The message form of a `StoreRequest`.
    pub fn rep(self, stub: Stub) -> (message: proto::StoreRequest)
        ensures
            message@ == request_rep(self@, stub),
    {
        proto::StoreRequest {
            source: Some(stub.rep()),
            key: u128_to_bytes(self.store.key),
            value: self.store.value,
            publish_time: self.publish_time.millis(),
            publish: self.publish,
        }
    }
}

impl proto::StoreRequest {
    /// Checks a request against the clock.
    pub fn unrep(self) -> (request: Result<StoreRequest, DataError>)
        ensures
            exists|now: Timestamp|
                clock_reading(now) && #[trigger] answers(request, request_unrep(self@, now)),
    {
        let now: Timestamp = Timestamp::now();
        self.unrep_at(now)
    }

    /// Checks a request at the instant `now`.
    pub fn unrep_at(self, now: Timestamp) -> (request: Result<StoreRequest, DataError>)
        ensures
            answers(request, request_unrep(self@, now)),
    {
        let store: Store = match check_pair(&self.key, self.value) {
            Err(e) => return Err(e),
            Ok(store) => store,
        };
        let publish_time: Timestamp = Timestamp::from_millis(self.publish_time);
        if publish_time.nanos > now.nanos {
            return Err(DataError::TimeTravel { received: publish_time, now });
        }
        Ok(StoreRequest { store, publish: self.publish, publish_time })
    }
}

// ---------------------------------------------------------------------------------------------
// Keys and the outcome of a search
// ---------------------------------------------------------------------------------------------

/// The message form of a `Key`.
pub open spec fn key_rep(key: u128, stub: Stub) -> proto::KeyView {
    proto::KeyView { source: Some(stub_rep(stub)), key: id_bytes(key) }
}

impl Key {
    /// The message form of a `Key`.
    pub fn rep(self, stub: Stub) -> (message: proto::Key)
        ensures
            message@ == key_rep(self.key, stub),
    {
        proto::Key { source: Some(stub.rep()), key: u128_to_bytes(self.key) }
    }
}

impl proto::Key {
    /// Checks a `Key`.
    pub fn unrep(self) -> (key: Result<Key, DataError>)
        ensures
            answers(key, parsed_id(self@.key)),
            key matches Ok(key) ==> key.key <= ID_MASK,
    {
        match parse_id(self.key.as_slice()) {
            Err(e) => Err(e),
            Ok(key) => Ok(Key { key }),
        }
    }
}

/// The message form of the outcome of a search.
pub open spec fn found_rep(found: StoreOrNodesView, stub: Stub) -> proto::StoreOrNodesView {
    match found {
        StoreOrNodesView::Store(store) => proto::StoreOrNodesView::Store(store_rep(store, stub)),
        StoreOrNodesView::Nodes(nodes) => proto::StoreOrNodesView::Nodes(
            proto::NodesView { source: Some(stub_rep(stub)), nodes: nodes_rep(nodes) },
        ),
    }
}

/// The check of the outcome of a search.
pub open spec fn found_unrep(
    found: proto::StoreOrNodesView,
    ips: Seq<Result<(), Seq<char>>>,
) -> Result<StoreOrNodesView, DataErrorView> {
    match found {
        proto::StoreOrNodesView::Missing => Err(
            DataErrorView::MissingField("missing store or node"@),
        ),
        proto::StoreOrNodesView::Store(store) => match pair_unrep(store.key, store.value) {
            Err(e) => Err(e),
            Ok(store) => Ok(StoreOrNodesView::Store(store)),
        },
        proto::StoreOrNodesView::Nodes(nodes) => match nodes_unrep(nodes.nodes, ips) {
            Err(e) => Err(e),
            Ok(nodes) => Ok(StoreOrNodesView::Nodes(nodes)),
        },
    }
}

impl StoreOrNodes {
    /// The message form of the outcome of a search.
    pub fn rep(self, stub: Stub) -> (message: proto::StoreOrNodes)
        ensures
            message@ == found_rep(self@, stub),
    {
        match self {
            StoreOrNodes::Store(store) => proto::StoreOrNodes {
                oneof: Some(proto::store_or_nodes::Oneof::Store(store.rep(stub))),
            },
            StoreOrNodes::Nodes(nodes) => proto::StoreOrNodes {
                oneof: Some(proto::store_or_nodes::Oneof::Nodes(nodes.rep(stub))),
            },
        }
    }
}

impl proto::StoreOrNodes {
    /// Checks the outcome of a search. `ips` holds the outcome of parsing the address of each
    /// node in it.
    pub fn unrep(self, ips: Vec<IpCheck>) -> (found: Result<StoreOrNodes, DataError>)
        requires
            self.oneof matches Some(proto::store_or_nodes::Oneof::Nodes(nodes)) ==> ips@.len()
                == nodes.nodes@.len(),
        ensures
            answers(found, found_unrep(self@, ip_views(ips@))),
            found matches Ok(StoreOrNodes::Nodes(nodes)) ==> ids_in_range(nodes.nodes@),
    {
        match self.oneof {
            None => Err(DataError::MissingField("missing store or node".to_owned())),
            Some(proto::store_or_nodes::Oneof::Store(store)) => match store.unrep() {
                Err(e) => Err(e),
                Ok(store) => Ok(store.or_nodes()),
            },
            Some(proto::store_or_nodes::Oneof::Nodes(nodes)) => match nodes.unrep(ips) {
                Err(e) => Err(e),
                Ok(nodes) => Ok(nodes.or_store()),
            },
        }
    }
}

impl TryFrom<&proto::Ping> for Stub {
    type Error = DataError;

    /// Who sends the message.
    fn try_from(req: &proto::Ping) -> (stub: Result<Stub, DataError>)
        ensures
            answers(stub, source_unrep(proto::source_view(req.source))),
            stub matches Ok(stub) ==> stub.id <= ID_MASK,
    {
        check_source(&req.source)
    }
}

impl vstd::std_specs::convert::TryFromSpecImpl<&proto::Ping> for Stub {
    open spec fn obeys_try_from_spec() -> bool {
        false
    }

    open spec fn try_from_spec(req: &proto::Ping) -> Result<Stub, DataError> {
        arbitrary()
    }
}

impl TryFrom<&proto::Pong> for Stub {
    type Error = DataError;

    /// Who sends the message.
    fn try_from(req: &proto::Pong) -> (stub: Result<Stub, DataError>)
        ensures
            answers(stub, source_unrep(proto::source_view(req.source))),
            stub matches Ok(stub) ==> stub.id <= ID_MASK,
    {
        check_source(&req.source)
    }
}

impl vstd::std_specs::convert::TryFromSpecImpl<&proto::Pong> for Stub {
    open spec fn obeys_try_from_spec() -> bool {
        false
    }

    open spec fn try_from_spec(req: &proto::Pong) -> Result<Stub, DataError> {
        arbitrary()
    }
}

impl TryFrom<&proto::Store> for Stub {
    type Error = DataError;

    /// Who sends the message.
    fn try_from(req: &proto::Store) -> (stub: Result<Stub, DataError>)
        ensures
            answers(stub, source_unrep(proto::source_view(req.source))),
            stub matches Ok(stub) ==> stub.id <= ID_MASK,
    {
        check_source(&req.source)
    }
}

impl vstd::std_specs::convert::TryFromSpecImpl<&proto::Store> for Stub {
    open spec fn obeys_try_from_spec() -> bool {
        false
    }

    open spec fn try_from_spec(req: &proto::Store) -> Result<Stub, DataError> {
        arbitrary()
    }
}

impl TryFrom<&proto::Nodes> for Stub {
    type Error = DataError;

    /// Who sends the message.
    fn try_from(req: &proto::Nodes) -> (stub: Result<Stub, DataError>)
        ensures
            answers(stub, source_unrep(proto::source_view(req.source))),
            stub matches Ok(stub) ==> stub.id <= ID_MASK,
    {
        check_source(&req.source)
    }
}

impl vstd::std_specs::convert::TryFromSpecImpl<&proto::Nodes> for Stub {
    open spec fn obeys_try_from_spec() -> bool {
        false
    }

    open spec fn try_from_spec(req: &proto::Nodes) -> Result<Stub, DataError> {
        arbitrary()
    }
}

impl TryFrom<&proto::StoreRequest> for Stub {
    type Error = DataError;

    /// Who sends the message.
    fn try_from(req: &proto::StoreRequest) -> (stub: Result<Stub, DataError>)
        ensures
            answers(stub, source_unrep(proto::source_view(req.source))),
            stub matches Ok(stub) ==> stub.id <= ID_MASK,
    {
        check_source(&req.source)
    }
}

impl vstd::std_specs::convert::TryFromSpecImpl<&proto::StoreRequest> for Stub {
    open spec fn obeys_try_from_spec() -> bool {
        false
    }

    open spec fn try_from_spec(req: &proto::StoreRequest) -> Result<Stub, DataError> {
        arbitrary()
    }
}

impl TryFrom<&proto::Key> for Stub {
    type Error = DataError;

    /// Who sends the message.
    fn try_from(req: &proto::Key) -> (stub: Result<Stub, DataError>)
        ensures
            answers(stub, source_unrep(proto::source_view(req.source))),
            stub matches Ok(stub) ==> stub.id <= ID_MASK,
    {
        check_source(&req.source)
    }
}

impl vstd::std_specs::convert::TryFromSpecImpl<&proto::Key> for Stub {
    open spec fn obeys_try_from_spec() -> bool {
        false
    }

    open spec fn try_from_spec(req: &proto::Key) -> Result<Stub, DataError> {
        arbitrary()
    }
}

/// The check of who sends the outcome of a search.
pub open spec fn found_source(found: proto::StoreOrNodesView) -> Result<Stub, DataErrorView> {
    match found {
        proto::StoreOrNodesView::Store(store) => source_unrep(store.source),
        proto::StoreOrNodesView::Nodes(nodes) => source_unrep(nodes.source),
        proto::StoreOrNodesView::Missing => Err(
            DataErrorView::MissingField("missing store or node"@),
        ),
    }
}

impl TryFrom<&proto::StoreOrNodes> for Stub {
    type Error = DataError;

    /// Who sends the message.
    fn try_from(req: &proto::StoreOrNodes) -> (stub: Result<Stub, DataError>)
        ensures
            answers(stub, found_source(req@)),
            stub matches Ok(stub) ==> stub.id <= ID_MASK,
    {
        match &req.oneof {
            Some(proto::store_or_nodes::Oneof::Nodes(nodes)) => check_source(&nodes.source),
            Some(proto::store_or_nodes::Oneof::Store(store)) => check_source(&store.source),
            None => Err(DataError::MissingField("missing store or node".to_owned())),
        }
    }
}

impl vstd::std_specs::convert::TryFromSpecImpl<&proto::StoreOrNodes> for Stub {
    open spec fn obeys_try_from_spec() -> bool {
        false
    }

    open spec fn try_from_spec(req: &proto::StoreOrNodes) -> Result<Stub, DataError> {
        arbitrary()
    }
}

// ---------------------------------------------------------------------------------------------
// Laws
// ---------------------------------------------------------------------------------------------

/// An identifier in range is read back from its bytes.
pub proof fn id_read_back(id: u128)
    requires
        id <= ID_MASK,
    ensures
        parsed_id(id_bytes(id)) == Ok::<u128, DataErrorView>(id),
{
    u128_bytes_read_back(id);
}

/// A larger identifier comes back cut down to the bits of an identifier.
pub proof fn id_read_back_cut(id: u128)
    ensures
        parsed_id(id_bytes(id)) == Ok::<u128, DataErrorView>(cut(id as nat)),
{
    u128_bytes_read_back(id);
}

/// A sender with an identifier and a port in range comes back from its message.
pub proof fn stub_read_back(stub: Stub)
    requires
        stub.id <= ID_MASK,
        stub.port <= 0xffff,
    ensures
        stub_unrep(stub_rep(stub)) == Ok::<Stub, DataErrorView>(stub),
        source_unrep(Some(stub_rep(stub))) == Ok::<Stub, DataErrorView>(stub),
{
    id_read_back(stub.id);
}

/// Whether a node can be sent and comes back: its identifier and its port are in range.
pub open spec fn node_sendable(node: NodeView) -> bool {
    node.id <= ID_MASK && node.port <= 0xffff
}

/// A node with an identifier and a port in range comes back from its message, provided that its
/// address parses.
pub proof fn node_read_back(node: NodeView, ip: Result<(), Seq<char>>)
    requires
        node_sendable(node),
        ip is Ok,
    ensures
        node_unrep(node_rep(node), ip) == Ok::<NodeView, DataErrorView>(node),
{
    id_read_back(node.id);
}

/// A list of such nodes comes back from its message, in order.
pub proof fn nodes_read_back(nodes: Seq<NodeView>, ips: Seq<Result<(), Seq<char>>>)
    requires
        ips.len() == nodes.len(),
        forall|i: int| 0 <= i < nodes.len() ==> node_sendable(#[trigger] nodes[i]),
        forall|i: int| 0 <= i < ips.len() ==> (#[trigger] ips[i]) is Ok,
    ensures
        nodes_unrep(nodes_rep(nodes), ips) == Ok::<Seq<NodeView>, DataErrorView>(nodes),
    decreases nodes.len(),
{
    if nodes.len() == 0 {
        assert(nodes =~= Seq::<NodeView>::empty());
    } else {
        let rest = nodes.drop_first();
        let rest_ips = ips.drop_first();
        assert forall|i: int| 0 <= i < rest.len() implies node_sendable(#[trigger] rest[i]) by {
            assert(rest[i] == nodes[i + 1]);
        }
        assert forall|i: int| 0 <= i < rest_ips.len() implies (#[trigger] rest_ips[i]) is Ok by {
            assert(rest_ips[i] == ips[i + 1]);
        }
        nodes_read_back(rest, rest_ips);
        node_read_back(nodes[0], ips[0]);
        assert(nodes_rep(nodes).drop_first() =~= nodes_rep(rest));
        assert(seq![nodes[0]] + rest =~= nodes);
    }
}

/// A key in range comes back from its message.
pub proof fn key_read_back(key: u128, stub: Stub)
    requires
        key <= ID_MASK,
    ensures
        parsed_id(key_rep(key, stub).key) == Ok::<u128, DataErrorView>(key),
{
    id_read_back(key);
}

/// A value under its own key comes back from its message.
pub proof fn store_read_back(store: StoreView, stub: Stub)
    requires
        store.key == value_key(store.value),
    ensures
        pair_unrep(store_rep(store, stub).key, store_rep(store, stub).value) == Ok::<
            StoreView,
            DataErrorView,
        >(store),
{
    id_read_back(store.key);
}

/// A value under another key in range is refused, with both keys named.
pub proof fn foreign_key_refused(store: StoreView, stub: Stub)
    requires
        store.key <= ID_MASK,
        store.key != value_key(store.value),
    ensures
        pair_unrep(store_rep(store, stub).key, store_rep(store, stub).value) == Err::<
            StoreView,
            DataErrorView,
        >(DataErrorView::HashMismatch { expected: value_key(store.value), actual: store.key }),
{
    id_read_back(store.key);
}

/// Whatever passes the check of a value is under the key that the value hashes to.
pub proof fn accepted_value_has_its_key(key: Seq<u8>, value: Seq<u8>)
    ensures
        pair_unrep(key, value) matches Ok(store) ==> store.value == value && store.key == value_key(
            value,
        ) && store.key <= ID_MASK,
{
}

/// A request to keep a value under its own key, published no later than now, comes back from
/// its message with the publishing time cut to the millisecond.
pub proof fn request_read_back(request: StoreRequestView, stub: Stub, now: Timestamp)
    requires
        request.store.key == value_key(request.store.value),
        0 <= request.publish_time.nanos < 0x1_0000_0000_0000_0000 * 1_000_000,
        request.publish_time.nanos <= now.nanos,
    ensures
        request_unrep(request_rep(request, stub), now) == Ok::<StoreRequestView, DataErrorView>(
            StoreRequestView {
                publish_time: millis_instant(epoch_millis(request.publish_time)),
                ..request
            },
        ),
        millis_instant(epoch_millis(request.publish_time)).nanos <= request.publish_time.nanos,
        request.publish_time.nanos < millis_instant(epoch_millis(request.publish_time)).nanos
            + 1_000_000,
{
    id_read_back(request.store.key);
    millis_read_back(request.publish_time);
}

/// A request published later than now is refused, at any key that its value has.
pub proof fn early_request_refused(request: proto::StoreRequestView, now: Timestamp)
    requires
        pair_unrep(request.key, request.value) is Ok,
        millis_instant(request.publish_time).nanos > now.nanos,
    ensures
        request_unrep(request, now) == Err::<StoreRequestView, DataErrorView>(
            DataErrorView::TimeTravel { now, received: millis_instant(request.publish_time) },
        ),
{
}

/// The outcome of a search comes back from its message: a value under its own key, or nodes with
/// identifiers and ports in range whose addresses parse.
pub proof fn found_read_back(
    found: StoreOrNodesView,
    stub: Stub,
    ips: Seq<Result<(), Seq<char>>>,
)
    requires
        match found {
            StoreOrNodesView::Store(store) => store.key == value_key(store.value),
            StoreOrNodesView::Nodes(nodes) => ips.len() == nodes.len() && (forall|i: int|
                0 <= i < nodes.len() ==> node_sendable(#[trigger] nodes[i])) && (forall|i: int|
                0 <= i < ips.len() ==> (#[trigger] ips[i]) is Ok),
        },
    ensures
        found_unrep(found_rep(found, stub), ips) == Ok::<StoreOrNodesView, DataErrorView>(found),
{
    match found {
        StoreOrNodesView::Store(store) => store_read_back(store, stub),
        StoreOrNodesView::Nodes(nodes) => nodes_read_back(nodes, ips),
    }
}

/// A byte string is an identifier exactly where it has 16 bytes, and then its first four spell it,
/// the lowest first; another length is named in the error.
pub proof fn an_identifier_is_its_low_bytes(bytes: Seq<u8>)
    ensures
        bytes.len() == 16 ==> parsed_id(bytes) == Ok::<u128, DataErrorView>(
            (bytes[0] + 0x100 * bytes[1] + 0x1_0000 * bytes[2] + 0x100_0000 * bytes[3]) as u128,
        ),
        bytes.len() != 16 ==> parsed_id(bytes) == Err::<u128, DataErrorView>(
            DataErrorView::InvalidIdLength(bytes.len() as usize),
        ),
{
    if bytes.len() == 16 {
        low_bytes_decide(bytes);
    }
}

/// An identifier travels as 16 bytes, its base-256 digits, the lowest first.
pub proof fn an_identifier_travels_in_sixteen_bytes(id: u128, i: int)
    requires
        0 <= i < 16,
    ensures
        id_bytes(id).len() == 16,
        id_bytes(id)[i] == (id as int / pow(256, i as nat)) % 256,
{
    bytes_are_digits(id as nat, 16, i);
}

/// Every message carries what it is made of, field by field, and names its sender.
pub proof fn messages_carry_their_fields(
    stub: Stub,
    node: NodeView,
    nodes: Seq<NodeView>,
    store: StoreView,
    request: StoreRequestView,
    key: u128,
)
    ensures
        stub_rep(stub).id == id_bytes(stub.id),
        stub_rep(stub).port == stub.port,
        node_rep(node).id == id_bytes(node.id),
        node_rep(node).ip == node.ip,
        node_rep(node).port == node.port,
        nodes_rep(nodes).len() == nodes.len(),
        forall|i: int|
            0 <= i < nodes.len() ==> {
                &&& (#[trigger] nodes_rep(nodes)[i]).id == id_bytes(nodes[i].id)
                &&& nodes_rep(nodes)[i].ip == nodes[i].ip
                &&& nodes_rep(nodes)[i].port == nodes[i].port
            },
        store_rep(store, stub).source == Some(stub_rep(stub)),
        store_rep(store, stub).key == id_bytes(store.key),
        store_rep(store, stub).value == store.value,
        request_rep(request, stub).source == Some(stub_rep(stub)),
        request_rep(request, stub).key == id_bytes(request.store.key),
        request_rep(request, stub).value == request.store.value,
        request_rep(request, stub).publish == request.publish,
        0 <= request.publish_time.nanos < 0x1_0000_0000_0000_0000 * 1_000_000 ==> request_rep(
            request,
            stub,
        ).publish_time * 1_000_000 <= request.publish_time.nanos < request_rep(
            request,
            stub,
        ).publish_time * 1_000_000 + 1_000_000,
        key_rep(key, stub).source == Some(stub_rep(stub)),
        key_rep(key, stub).key == id_bytes(key),
        found_rep(StoreOrNodesView::Store(store), stub) == proto::StoreOrNodesView::Store(
            store_rep(store, stub),
        ),
        found_rep(StoreOrNodesView::Nodes(nodes), stub) matches proto::StoreOrNodesView::Nodes(list)
            && list.source == Some(stub_rep(stub)) && list.nodes == nodes_rep(nodes),
{
    milliseconds_are_counted(request.publish_time, 0);
}

/// Who sends a message is taken at its word exactly where it says so, its identifier has 16 bytes
/// and its port fits in 16 bits; the first of these that fails is the error.
pub proof fn a_sender_is_checked(stub: proto::StubView)
    ensures
        source_unrep(None) == Err::<Stub, DataErrorView>(
            DataErrorView::MissingField("missing source"@),
        ),
        source_unrep(Some(stub)) == stub_unrep(stub),
        stub.id.len() != 16 ==> stub_unrep(stub) == Err::<Stub, DataErrorView>(
            DataErrorView::InvalidIdLength(stub.id.len() as usize),
        ),
        stub.id.len() == 16 && stub.port > 65535 ==> stub_unrep(stub) == Err::<Stub, DataErrorView>(
            DataErrorView::InvalidPort(port_error(stub.port)),
        ),
        stub.id.len() == 16 && stub.port <= 65535 ==> stub_unrep(stub) is Ok && stub_unrep(
            stub,
        )->Ok_0.port == stub.port && stub_unrep(stub)->Ok_0.id == parsed_id(stub.id)->Ok_0,
{
}

/// A node is taken exactly where its identifier has 16 bytes, its address parses and its port fits
/// in 16 bits, with address and port as they are; the first of these that fails is the error.
pub proof fn a_node_is_checked(node: proto::NodeView, ip: Result<(), Seq<char>>)
    ensures
        node.id.len() != 16 ==> node_unrep(node, ip) == Err::<NodeView, DataErrorView>(
            DataErrorView::InvalidIdLength(node.id.len() as usize),
        ),
        node.id.len() == 16 && ip is Err ==> node_unrep(node, ip) == Err::<NodeView, DataErrorView>(
            DataErrorView::InvalidIp(ip->Err_0),
        ),
        node.id.len() == 16 && ip is Ok && node.port > 65535 ==> node_unrep(node, ip) == Err::<
            NodeView,
            DataErrorView,
        >(DataErrorView::InvalidPort(port_error(node.port))),
        node.id.len() == 16 && ip is Ok && node.port <= 65535 ==> node_unrep(node, ip) is Ok && {
            let taken = node_unrep(node, ip)->Ok_0;
            taken.id == parsed_id(node.id)->Ok_0 && taken.ip == node.ip && taken.port == node.port
        },
{
}

/// A list of nodes is taken exactly where each of them is, each in its place; else the first that
/// is not gives the error.
pub proof fn a_list_of_nodes_is_checked_in_order(
    nodes: Seq<proto::NodeView>,
    ips: Seq<Result<(), Seq<char>>>,
)
    requires
        nodes.len() == ips.len(),
    ensures
        match nodes_unrep(nodes, ips) {
            Ok(taken) => taken.len() == nodes.len() && forall|i: int|
                0 <= i < nodes.len() ==> node_unrep(#[trigger] nodes[i], ips[i]) == Ok::<
                    NodeView,
                    DataErrorView,
                >(taken[i]),
            Err(e) => exists|i: int|
                0 <= i < nodes.len() && node_unrep(#[trigger] nodes[i], ips[i]) == Err::<
                    NodeView,
                    DataErrorView,
                >(e) && forall|j: int| 0 <= j < i ==> node_unrep(#[trigger] nodes[j], ips[j]) is Ok,
        },
    decreases nodes.len(),
{
    if nodes.len() > 0 {
        let rest = nodes.drop_first();
        let rest_ips = ips.drop_first();
        a_list_of_nodes_is_checked_in_order(rest, rest_ips);
        match node_unrep(nodes[0], ips[0]) {
            Err(e) => {
                assert(0 <= 0 < nodes.len());
            },
            Ok(first) => match nodes_unrep(rest, rest_ips) {
                Ok(more) => {
                    let taken = seq![first] + more;
                    assert forall|i: int| 0 <= i < nodes.len() implies node_unrep(
                        #[trigger] nodes[i],
                        ips[i],
                    ) == Ok::<NodeView, DataErrorView>(taken[i]) by {
                        if i > 0 {
                            assert(rest[i - 1] == nodes[i] && rest_ips[i - 1] == ips[i]);
                            assert(taken[i] == more[i - 1]);
                        }
                    }
                },
                Err(e) => {
                    let k = choose|k: int|
                        0 <= k < rest.len() && node_unrep(#[trigger] rest[k], rest_ips[k]) == Err::<
                            NodeView,
                            DataErrorView,
                        >(e) && forall|j: int|
                            0 <= j < k ==> node_unrep(#[trigger] rest[j], rest_ips[j]) is Ok;
                    assert(rest[k] == nodes[k + 1] && rest_ips[k] == ips[k + 1]);
                    assert forall|j: int| 0 <= j < k + 1 implies node_unrep(
                        #[trigger] nodes[j],
                        ips[j],
                    ) is Ok by {
                        if j > 0 {
                            assert(rest[j - 1] == nodes[j] && rest_ips[j - 1] == ips[j]);
                        }
                    }
                },
            },
        }
    }
}

/// A value is taken exactly where its key has 16 bytes and is the key that the value hashes to,
/// with its bytes as they are; else the error names the length, or both keys.
pub proof fn a_value_is_checked_against_its_key(key: Seq<u8>, value: Seq<u8>)
    ensures
        key.len() != 16 ==> pair_unrep(key, value) == Err::<StoreView, DataErrorView>(
            DataErrorView::InvalidIdLength(key.len() as usize),
        ),
        key.len() == 16 && parsed_id(key)->Ok_0 != value_key(value) ==> pair_unrep(key, value)
            == Err::<StoreView, DataErrorView>(
            DataErrorView::HashMismatch {
                expected: value_key(value),
                actual: parsed_id(key)->Ok_0,
            },
        ),
        key.len() == 16 && parsed_id(key)->Ok_0 == value_key(value) ==> pair_unrep(key, value)
            == Ok::<StoreView, DataErrorView>(StoreView { key: value_key(value), value }),
{
}

/// A request to keep a value is taken exactly where the value is and it says that it was published
/// no later than now, to the millisecond; it then says what the message says.
pub proof fn a_request_is_checked_against_the_clock(
    request: proto::StoreRequestView,
    now: Timestamp,
)
    ensures
        pair_unrep(request.key, request.value) is Err ==> request_unrep(request, now) == Err::<
            StoreRequestView,
            DataErrorView,
        >(pair_unrep(request.key, request.value)->Err_0),
        pair_unrep(request.key, request.value) is Ok && request.publish_time * 1_000_000 > now.nanos
            ==> request_unrep(request, now) == Err::<StoreRequestView, DataErrorView>(
            DataErrorView::TimeTravel {
                now,
                received: Timestamp { nanos: (request.publish_time * 1_000_000) as i128 },
            },
        ),
        pair_unrep(request.key, request.value) is Ok && request.publish_time * 1_000_000
            <= now.nanos ==> request_unrep(request, now) is Ok && {
            let taken = request_unrep(request, now)->Ok_0;
            &&& taken.store.key == value_key(request.value)
            &&& taken.store.value == request.value
            &&& taken.publish == request.publish
            &&& taken.publish_time.nanos == request.publish_time * 1_000_000
        },
{
    milliseconds_are_counted(now, request.publish_time);
}

/// The outcome of a search is taken exactly where it holds a value that is, or nodes that are; one
/// that holds neither is refused. Its sender is the one that its content names.
pub proof fn the_outcome_of_a_search_is_checked(
    store: proto::StoreView,
    nodes: proto::NodesView,
    ips: Seq<Result<(), Seq<char>>>,
)
    ensures
        found_unrep(proto::StoreOrNodesView::Missing, ips) == Err::<StoreOrNodesView, DataErrorView>(
            DataErrorView::MissingField("missing store or node"@),
        ),
        match (
            found_unrep(proto::StoreOrNodesView::Store(store), ips),
            pair_unrep(store.key, store.value),
        ) {
            (Ok(found), Ok(pair)) => found == StoreOrNodesView::Store(pair),
            (Err(a), Err(b)) => a == b,
            _ => false,
        },
        match (
            found_unrep(proto::StoreOrNodesView::Nodes(nodes), ips),
            nodes_unrep(nodes.nodes, ips),
        ) {
            (Ok(found), Ok(list)) => found == StoreOrNodesView::Nodes(list),
            (Err(a), Err(b)) => a == b,
            _ => false,
        },
        found_source(proto::StoreOrNodesView::Store(store)) == source_unrep(store.source),
        found_source(proto::StoreOrNodesView::Nodes(nodes)) == source_unrep(nodes.source),
        found_source(proto::StoreOrNodesView::Missing) is Err,
{
}

/// Every error is shown with what it is about.
pub proof fn errors_say_what_is_wrong(
    text: Seq<char>,
    len: usize,
    expected: u128,
    actual: u128,
    now: Timestamp,
    received: Timestamp,
)
    ensures
        data_error_text(DataErrorView::InvalidIp(text)) == "Invalid IP address: "@ + text,
        data_error_text(DataErrorView::InvalidPort(text)) == "Invalid port: "@ + text,
        data_error_text(DataErrorView::MissingField(text)) == "Missing field: "@ + text,
        data_error_text(DataErrorView::InvalidIdLength(len))
            == "Invalid ID length: expected 16 bytes, got "@ + decimal(len as nat) + " bytes"@,
        data_error_text(DataErrorView::HashMismatch { expected, actual })
            == "HashMismatch: expected "@ + decimal(expected as nat) + ", got "@ + decimal(
            actual as nat,
        ) + " bytes"@,
        data_error_text(DataErrorView::TimeTravel { now, received }) == "Future timestamp: now "@
            + instant_text(now) + ", received "@ + instant_text(received),
{
}

/// The view of a value is all of it.
pub proof fn views_hold_all_fields(
    node: Node,
    store: Store,
    request: StoreRequest,
    nodes: Nodes,
)
    ensures
        node@.id == node.id && node@.ip == node.ip@ && node@.port == node.port,
        store@.key == store.key && store@.value == store.value@,
        request@.store == request.store@ && request@.publish == request.publish
            && request@.publish_time == request.publish_time,
        nodes@.len() == nodes.nodes@.len(),
        forall|i: int| 0 <= i < nodes.nodes@.len() ==> #[trigger] nodes@[i] == nodes.nodes@[i]@,
        StoreOrNodes::Store(store)@ == StoreOrNodesView::Store(store@),
        StoreOrNodes::Nodes(nodes)@ == StoreOrNodesView::Nodes(nodes@),
{
}

/// A result that answers what is expected is the same success or the same error.
pub proof fn an_answer_is_the_expected_one<T: View>(
    result: Result<T, DataError>,
    expected: Result<T::V, DataErrorView>,
)
    requires
        answers(result, expected),
    ensures
        result is Ok <==> expected is Ok,
        result is Ok ==> result->Ok_0@ == expected->Ok_0,
        result is Err ==> result->Err_0@ == expected->Err_0,
{
}

/// The view of an error is all of it, and so is that of the outcome of parsing an address.
pub proof fn error_views_hold_all_fields(
    text: String,
    len: usize,
    expected: u128,
    actual: u128,
    now: Timestamp,
    received: Timestamp,
    checks: Seq<IpCheck>,
)
    ensures
        DataError::InvalidIp(text)@ == DataErrorView::InvalidIp(text@),
        DataError::InvalidPort(text)@ == DataErrorView::InvalidPort(text@),
        DataError::InvalidIdLength(len)@ == DataErrorView::InvalidIdLength(len),
        DataError::MissingField(text)@ == DataErrorView::MissingField(text@),
        (DataError::HashMismatch { expected, actual })@ == (DataErrorView::HashMismatch {
            expected,
            actual,
        }),
        (DataError::TimeTravel { now, received })@ == (DataErrorView::TimeTravel { now, received }),
        ip_views(checks).len() == checks.len(),
        forall|i: int|
            0 <= i < checks.len() ==> ((#[trigger] ip_views(checks)[i]) is Ok <==> checks[i] is Ok)
                && (checks[i] is Err ==> ip_views(checks)[i]->Err_0 == checks[i]->Err_0@),
{
}

} // verus!
