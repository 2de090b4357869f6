//! The messages that nodes exchange, field by field, before anything in them is checked.
//!
//! Identifiers and keys travel as byte strings. Each message has a view in which byte strings,
//! texts and lists are sequences.

use vstd::prelude::*;

pub mod store_or_nodes;

verus! {

/// Who sends a message: its identifier and the port on which it listens.
#[derive(Debug, Clone, PartialEq)]
pub struct Stub {
    pub id: Vec<u8>,
    pub port: u32,
}

/// The view of a `Stub`.
pub struct StubView {
    pub id: Seq<u8>,
    pub port: u32,
}

impl View for Stub {
    type V = StubView;

    open spec fn view(&self) -> StubView {
        StubView { id: self.id@, port: self.port }
    }
}

/// The view of the source of a message, which may be missing.
pub open spec fn source_view(source: Option<Stub>) -> Option<StubView> {
    match source {
        Some(stub) => Some(stub@),
        None => None,
    }
}

/// A node that a message speaks of.
#[derive(Debug, Clone, PartialEq)]
pub struct Node {
    pub id: Vec<u8>,
    pub ip: String,
    pub port: u32,
}

/// The view of a `Node`.
pub struct NodeView {
    pub id: Seq<u8>,
    pub ip: Seq<char>,
    pub port: u32,
}

impl View for Node {
    type V = NodeView;

    open spec fn view(&self) -> NodeView {
        NodeView { id: self.id@, ip: self.ip@, port: self.port }
    }
}

/// The views of a list of nodes.
pub open spec fn node_views(nodes: Seq<Node>) -> Seq<NodeView> {
    nodes.map_values(|n: Node| n@)
}

/// The question whether a node is there.
#[derive(Debug, Clone, PartialEq)]
pub struct Ping {
    pub source: Option<Stub>,
}

/// The answer to a `Ping` and to a `StoreRequest`.
#[derive(Debug, Clone, PartialEq)]
pub struct Pong {
    pub source: Option<Stub>,
}

/// The request for what is known of a key.
#[derive(Debug, Clone, PartialEq)]
pub struct Key {
    pub source: Option<Stub>,
    pub key: Vec<u8>,
}

/// The view of a `Key`.
pub struct KeyView {
    pub source: Option<StubView>,
    pub key: Seq<u8>,
}

impl View for Key {
    type V = KeyView;

    open spec fn view(&self) -> KeyView {
        KeyView { source: source_view(self.source), key: self.key@ }
    }
}

/// A value with its key.
#[derive(Debug, Clone, PartialEq)]
pub struct Store {
    pub source: Option<Stub>,
    pub key: Vec<u8>,
    pub value: Vec<u8>,
}

/// The view of a `Store`.
pub struct StoreView {
    pub source: Option<StubView>,
    pub key: Seq<u8>,
    pub value: Seq<u8>,
}

impl View for Store {
    type V = StoreView;

    open spec fn view(&self) -> StoreView {
        StoreView { source: source_view(self.source), key: self.key@, value: self.value@ }
    }
}

/// The request to keep a value.
#[derive(Debug, Clone, PartialEq)]
pub struct StoreRequest {
    pub source: Option<Stub>,
    pub key: Vec<u8>,
    pub value: Vec<u8>,
    pub publish_time: u64,
    pub publish: bool,
}

/// The view of a `StoreRequest`.
pub struct StoreRequestView {
    pub source: Option<StubView>,
    pub key: Seq<u8>,
    pub value: Seq<u8>,
    pub publish_time: u64,
    pub publish: bool,
}

impl View for StoreRequest {
    type V = StoreRequestView;

    open spec fn view(&self) -> StoreRequestView {
        StoreRequestView {
            source: source_view(self.source),
            key: self.key@,
            value: self.value@,
            publish_time: self.publish_time,
            publish: self.publish,
        }
    }
}

/// A list of nodes.
#[derive(Debug, Clone, PartialEq)]
pub struct Nodes {
    pub source: Option<Stub>,
    pub nodes: Vec<Node>,
}

/// The view of a `Nodes`.
pub struct NodesView {
    pub source: Option<StubView>,
    pub nodes: Seq<NodeView>,
}

impl View for Nodes {
    type V = NodesView;

    open spec fn view(&self) -> NodesView {
        NodesView { source: source_view(self.source), nodes: node_views(self.nodes@) }
    }
}

/// The answer to a search for a value: the value, or nodes that are closer to its key.
#[derive(Debug, Clone, PartialEq)]
pub struct StoreOrNodes {
    pub oneof: Option<store_or_nodes::Oneof>,
}

/// The view of a `StoreOrNodes`.
pub enum StoreOrNodesView {
    Store(StoreView),
    Nodes(NodesView),
    Missing,
}

impl View for StoreOrNodes {
    type V = StoreOrNodesView;

    open spec fn view(&self) -> StoreOrNodesView {
        match self.oneof {
            Some(store_or_nodes::Oneof::Store(store)) => StoreOrNodesView::Store(store@),
            Some(store_or_nodes::Oneof::Nodes(nodes)) => StoreOrNodesView::Nodes(nodes@),
            None => StoreOrNodesView::Missing,
        }
    }
}

/// The view of a message is all of it.
pub proof fn message_views_hold_all_fields(
    stub: Stub,
    node: Node,
    key: Key,
    store: Store,
    request: StoreRequest,
    nodes: Nodes,
)
    ensures
        stub@.id == stub.id@ && stub@.port == stub.port,
        node@.id == node.id@ && node@.ip == node.ip@ && node@.port == node.port,
        key@.source == source_view(key.source) && key@.key == key.key@,
        store@.source == source_view(store.source) && store@.key == store.key@ && store@.value
            == store.value@,
        request@.source == source_view(request.source) && request@.key == request.key@
            && request@.value == request.value@ && request@.publish_time == request.publish_time
            && request@.publish == request.publish,
        nodes@.source == source_view(nodes.source) && nodes@.nodes.len() == nodes.nodes@.len(),
        forall|i: int| 0 <= i < nodes.nodes@.len() ==> #[trigger] nodes@.nodes[i]
            == nodes.nodes@[i]@,
        source_view(Some(stub)) == Some(stub@),
        source_view(None) is None,
        (StoreOrNodes { oneof: Some(store_or_nodes::Oneof::Store(store)) })@
            == StoreOrNodesView::Store(store@),
        (StoreOrNodes { oneof: Some(store_or_nodes::Oneof::Nodes(nodes)) })@
            == StoreOrNodesView::Nodes(nodes@),
        (StoreOrNodes { oneof: None })@ is Missing,
{
}

} // verus!
