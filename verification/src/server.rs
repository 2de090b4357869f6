//! How a node answers the requests of others.
//!
//! Besides its answer, each request tells of the node that sends it: where the address from which
//! it came is known, that node is to be noted in the routing table, whatever the answer is.

use vstd::prelude::*;

use crate::clock::{clock_reading, Timestamp};
use crate::data::{
    a_request_is_checked_against_the_clock, check_source, found_read_back, found_rep, found_unrep, node_views, nodes_rep,
    parsed_id, request_read_back, request_rep, request_unrep, source_unrep, stub_rep, DataError,
    DataErrorView, Node, NodeView, Nodes, Store, StoreOrNodesView, StoreRequest,
    StoreRequestView, StoreView, Stub,
};
use crate::hash::{value_key, ID_MASK};
use crate::keeping::{keeping_leaves_the_publisher, kept, kept_value_is_there};
use crate::lookup::found_value;
use crate::order::nearest_of;
use crate::proto;
use crate::text::{decimal, head, head_text, push_decimal};
use crate::tokad::{all_nodes, DataView, State, StateRef, K};

verus! {

broadcast use vstd::string::group_string_axioms;

/// Who is to see a note.
#[derive(Debug, Clone, Copy, PartialEq, Eq, Structural)]
pub enum NoteLevel {
    /// Everyone.
    Info,
    /// Who looks for faults.
    Debug,
}

/// A note for the log.
#[derive(Debug, Clone, PartialEq, Eq)]
pub struct Note {
    pub level: NoteLevel,
    pub text: String,
}

/// The view of a `Note`.
pub struct NoteView {
    pub level: NoteLevel,
    pub text: Seq<char>,
}

impl View for Note {
    type V = NoteView;

    open spec fn view(&self) -> NoteView {
        NoteView { level: self.level, text: self.text@ }
    }
}

/// The views of a list of notes.
pub open spec fn note_views(notes: Seq<Note>) -> Seq<NoteView> {
    notes.map_values(|n: Note| n@)
}

/// A note for everyone.
pub open spec fn info(text: Seq<char>) -> NoteView {
    NoteView { level: NoteLevel::Info, text }
}

/// What comes of a request.
#[derive(Debug)]
pub struct Handled<T> {
    /// The node that sent the request, where its address is known.
    pub contact: Option<Node>,
    /// What is to be noted in the log.
    pub notes: Vec<Note>,
    /// The answer.
    pub reply: Result<T, DataError>,
}

/// The view of an optional text.
pub open spec fn text_view(text: Option<String>) -> Option<Seq<char>> {
    match text {
        Some(text) => Some(text@),
        None => None,
    }
}

/// The view of an optional node.
pub open spec fn contact_view(contact: Option<Node>) -> Option<NodeView> {
    match contact {
        Some(node) => Some(node@),
        None => None,
    }
}

/// The node that sent a request from the address `remote`.
pub open spec fn contact_of(
    source: Result<Stub, DataErrorView>,
    remote: Option<Seq<char>>,
) -> Option<NodeView> {
    match (source, remote) {
        (Ok(stub), Some(ip)) => Some(NodeView { id: stub.id, ip, port: stub.port }),
        _ => None,
    }
}

/// The note on who sent a request.
pub open spec fn source_note(stub: Stub, remote: Option<Seq<char>>) -> Seq<char> {
    let ip = match remote {
        Some(ip) => ip,
        None => "?"@,
    };
    "source: "@ + decimal(stub.id as nat) + " "@ + ip + " "@ + decimal(stub.port as nat)
}

/// The notes on who sent a request, where it says so.
pub open spec fn source_notes(
    source: Result<Stub, DataErrorView>,
    remote: Option<Seq<char>>,
) -> Seq<NoteView> {
    match source {
        Ok(stub) => seq![info(source_note(stub, remote))],
        Err(_) => Seq::empty(),
    }
}

/// What a request asks for, once its sender is known: the first error counts.
pub open spec fn then_read<T>(
    source: Result<Stub, DataErrorView>,
    content: Result<T, DataErrorView>,
) -> Result<T, DataErrorView> {
    match source {
        Ok(_) => content,
        Err(e) => Err(e),
    }
}

/// The note on what is looked for.
pub open spec fn target_note(key: u128) -> Seq<char> {
    "target: "@ + decimal(key as nat)
}

/// The note on a value that is handed over.
pub open spec fn store_note(store: StoreView) -> Seq<char> {
    decimal(store.key as nat) + ": "@ + head(store.value)
}

/// The notes on the search for a key.
pub open spec fn target_notes(key: Result<u128, DataErrorView>) -> Seq<NoteView> {
    match key {
        Ok(key) => seq![info(target_note(key))],
        Err(_) => Seq::empty(),
    }
}

/// The notes on the search for a value: whether it is kept here is noted too.
pub open spec fn value_notes(
    key: Result<u128, DataErrorView>,
    contents: Map<u128, DataView>,
) -> Seq<NoteView> {
    match key {
        Ok(key) if contents.contains_key(key) => target_notes(Ok(key)).push(
            NoteView { level: NoteLevel::Debug, text: "value found!"@ },
        ),
        _ => target_notes(key),
    }
}

/// The notes on the request to keep a value.
pub open spec fn store_notes(request: Result<StoreRequestView, DataErrorView>) -> Seq<NoteView> {
    match request {
        Ok(request) => seq![info(store_note(request.store))],
        Err(_) => Seq::empty(),
    }
}

fn source_note_text(stub: Stub, remote: &Option<String>) -> (s: String)
    ensures
        s@ == source_note(stub, text_view(*remote)),
{
    let mut s: String = "source: ".to_owned();
    push_decimal(&mut s, stub.id);
    s.append(" ");
    match remote {
        Some(ip) => s.append(ip.as_str()),
        None => s.append("?"),
    }
    s.append(" ");
    push_decimal(&mut s, stub.port as u128);
    s
}

fn contact(stub: Stub, remote: Option<String>) -> (node: Option<Node>)
    ensures
        contact_view(node) == contact_of(Ok(stub), text_view(remote)),
        node matches Some(node) ==> node.id == stub.id,
{
    match remote {
        Some(ip) => Some(Node::from_stub(stub, ip)),
        None => None,
    }
}

fn target_note_text(key: u128) -> (s: String)
    ensures
        s@ == target_note(key),
{
    let mut s: String = "target: ".to_owned();
    push_decimal(&mut s, key);
    s
}

fn store_note_text(store: &Store) -> (s: String)
    ensures
        s@ == store_note(store@),
{
    let mut s: String = String::new();
    push_decimal(&mut s, store.key);
    s.append(": ");
    s.append(head_text(store.value.as_slice()).as_str());
    assert(s@ =~= store_note(store@));
    s
}

/// Adds a note.
fn add_note(notes: &mut Vec<Note>, level: NoteLevel, text: String)
    ensures
        note_views(final(notes)@) == note_views(old(notes)@).push(NoteView { level, text: text@ }),
{
    let note: Note = Note { level, text };
    notes.push(note);
    assert(note_views(notes@) =~= note_views(old(notes)@).push(note@));
}

/// A request whose sender cannot be read.
fn refused<T>(error: DataError) -> (handled: Handled<T>)
    ensures
        handled.contact is None,
        note_views(handled.notes@) == Seq::<NoteView>::empty(),
        handled.reply == Err::<T, DataError>(error),
{
    let notes: Vec<Note> = Vec::new();
    assert(note_views(notes@) =~= Seq::<NoteView>::empty());
    Handled { contact: None, notes, reply: Err(error) }
}

/// Reads who sent a request: the node to note, and the notes on it.
fn greet(source: &Option<proto::Stub>, remote: Option<String>) -> (greeted: Result<
    (Option<Node>, Vec<Note>),
    DataError,
>)
    ensures
        match (greeted, source_unrep(proto::source_view(*source))) {
            (Ok((contact, notes)), Ok(stub)) => {
                &&& contact_view(contact) == contact_of(Ok(stub), text_view(remote))
                &&& contact matches Some(node) ==> node.id <= ID_MASK
                &&& note_views(notes@) == source_notes(Ok(stub), text_view(remote))
            },
            (Err(error), Err(e)) => error@ == e,
            _ => false,
        },
{
    let stub: Stub = match check_source(source) {
        Err(e) => return Err(e),
        Ok(stub) => stub,
    };
    let mut notes: Vec<Note> = Vec::new();
    assert(note_views(notes@) =~= Seq::<NoteView>::empty());
    add_note(&mut notes, NoteLevel::Info, source_note_text(stub, &remote));
    assert(note_views(notes@) =~= source_notes(Ok(stub), text_view(remote)));
    Ok((contact(stub, remote), notes))
}

impl<'a> StateRef<'a> {
    /// Answers a ping.
    pub fn ping(&self, request: &proto::Ping, remote: Option<String>) -> (handled: Handled<
        proto::Pong,
    >)
        ensures
            ({
                let source = source_unrep(proto::source_view(request.source));
                &&& contact_view(handled.contact) == contact_of(source, text_view(remote))
                &&& handled.contact matches Some(node) ==> node.id <= ID_MASK
                &&& note_views(handled.notes@) == source_notes(source, text_view(remote))
                &&& match (source, handled.reply) {
                    (Ok(_), Ok(pong)) => proto::source_view(pong.source) == Some(
                        stub_rep(self.state.own_stub()),
                    ),
                    (Err(e), Err(error)) => error@ == e,
                    _ => false,
                }
            }),
    {
        match greet(&request.source, remote) {
            Err(e) => refused(e),
            Ok((contact, notes)) => Handled {
                contact,
                notes,
                reply: Ok(proto::Pong { source: Some(self.state.stub().rep()) }),
            },
        }
    }

    /// Answers the question for the nodes near a key.
    pub fn find_node(&self, request: proto::Key, remote: Option<String>) -> (handled: Handled<
        proto::Nodes,
    >)
        ensures
            ({
                let source = source_unrep(request@.source);
                let key = then_read(source, parsed_id(request@.key));
                &&& contact_view(handled.contact) == contact_of(source, text_view(remote))
                &&& handled.contact matches Some(node) ==> node.id <= ID_MASK
                &&& note_views(handled.notes@) == source_notes(source, text_view(remote))
                    + target_notes(key)
                &&& match (key, handled.reply) {
                    (Ok(key), Ok(message)) => exists|nodes: Seq<Node>|
                        #![trigger node_views(nodes)]
                        nearest_of(nodes, all_nodes(self.state.table()), key, K as nat) && message@
                            == (proto::NodesView {
                            source: Some(stub_rep(self.state.own_stub())),
                            nodes: nodes_rep(node_views(nodes)),
                        }),
                    (Err(e), Err(error)) => error@ == e,
                    _ => false,
                }
            }),
    {
        let (contact, mut notes): (Option<Node>, Vec<Note>) = match greet(&request.source, remote) {
            Err(e) => return refused(e),
            Ok(greeted) => greeted,
        };
        match request.unrep() {
            Err(e) => Handled { contact, notes, reply: Err(e) },
            Ok(key) => {
                add_note(&mut notes, NoteLevel::Info, target_note_text(key.key));
                let nodes: Vec<Node> = self.state.nearest(key.key);
                let found: Nodes = Nodes { nodes };
                assert(found@ == node_views(nodes@));
                Handled { contact, notes, reply: Ok(found.rep(self.state.stub())) }
            },
        }
    }

    /// Answers the question for the value under a key: the value where the node keeps it, else
    /// the nodes near the key.
    pub fn find_value(&self, request: proto::Key, remote: Option<String>) -> (handled: Handled<
        proto::StoreOrNodes,
    >)
        ensures
            ({
                let source = source_unrep(request@.source);
                let key = then_read(source, parsed_id(request@.key));
                &&& contact_view(handled.contact) == contact_of(source, text_view(remote))
                &&& handled.contact matches Some(node) ==> node.id <= ID_MASK
                &&& note_views(handled.notes@) == source_notes(source, text_view(remote))
                    + value_notes(key, self.state.contents())
                &&& match (key, handled.reply) {
                    (Ok(key), Ok(message)) => if self.state.contents().contains_key(key) {
                        message@ == found_rep(
                            found_value(key, self.state.contents()[key].data),
                            self.state.own_stub(),
                        )
                    } else {
                        exists|nodes: Seq<Node>|
                            #![trigger node_views(nodes)]
                            nearest_of(nodes, all_nodes(self.state.table()), key, K as nat)
                                && message@ == found_rep(
                                StoreOrNodesView::Nodes(node_views(nodes)),
                                self.state.own_stub(),
                            )
                    },
                    (Err(e), Err(error)) => error@ == e,
                    _ => false,
                }
            }),
    {
        let (contact, mut notes): (Option<Node>, Vec<Note>) = match greet(&request.source, remote) {
            Err(e) => return refused(e),
            Ok(greeted) => greeted,
        };
        let key: u128 = match request.unrep() {
            Err(e) => return Handled { contact, notes, reply: Err(e) },
            Ok(key) => key.key,
        };
        add_note(&mut notes, NoteLevel::Info, target_note_text(key));
        let own: Stub = self.state.stub();
        match self.state.value(key) {
            Some(value) => {
                add_note(&mut notes, NoteLevel::Debug, "value found!".to_owned());
                Handled { contact, notes, reply: Ok(Store { key, value }.or_nodes().rep(own)) }
            },
            None => {
                let nodes: Vec<Node> = self.state.nearest(key);
                let found: Nodes = Nodes { nodes };
                assert(found@ == node_views(nodes@));
                Handled { contact, notes, reply: Ok(found.or_store().rep(own)) }
            },
        }
    }
}

/// Whether `handled` and the values `after` are what comes of a request to keep a value, which came
/// from `remote`, is checked at `checked_at` and kept at `kept_at`.
pub open spec fn stored(
    handled: Handled<proto::Pong>,
    own: Stub,
    before: Map<u128, DataView>,
    after: Map<u128, DataView>,
    request: proto::StoreRequestView,
    remote: Option<Seq<char>>,
    checked_at: Timestamp,
    kept_at: Timestamp,
) -> bool {
    let source = source_unrep(request.source);
    let checked = then_read(source, request_unrep(request, checked_at));
    &&& contact_view(handled.contact) == contact_of(source, remote)
    &&& note_views(handled.notes@) == source_notes(source, remote) + store_notes(checked)
    &&& match (checked, handled.reply) {
        (Ok(checked), Ok(pong)) => {
            &&& after == kept(before, checked, kept_at)
            &&& proto::source_view(pong.source) == Some(stub_rep(own))
        },
        (Err(e), Err(error)) => error@ == e && after == before,
        _ => false,
    }
}

impl State {
    /// Answers the request to keep a value.
    pub fn store(&mut self, request: proto::StoreRequest, remote: Option<String>) -> (handled:
        Handled<proto::Pong>)
        ensures
            handled.contact matches Some(node) ==> node.id <= ID_MASK,
            exists|checked_at: Timestamp, kept_at: Timestamp|
                clock_reading(checked_at) && clock_reading(kept_at) && #[trigger] stored(
                    handled,
                    old(self).own_stub(),
                    old(self).contents(),
                    final(self).contents(),
                    request@,
                    text_view(remote),
                    checked_at,
                    kept_at,
                ),
            final(self).same_but_store(old(self)),
            old(self).wf() ==> final(self).wf(),
    {
        let checked_at: Timestamp = Timestamp::now();
        let kept_at: Timestamp = Timestamp::now();
        self.store_at(request, remote, checked_at, kept_at)
    }

    /// Answers the request to keep a value, which is checked at the first instant and kept at the
    /// second.
    pub fn store_at(
        &mut self,
        request: proto::StoreRequest,
        remote: Option<String>,
        checked_at: Timestamp,
        kept_at: Timestamp,
    ) -> (handled: Handled<proto::Pong>)
        ensures
            handled.contact matches Some(node) ==> node.id <= ID_MASK,
            stored(
                handled,
                old(self).own_stub(),
                old(self).contents(),
                final(self).contents(),
                request@,
                text_view(remote),
                checked_at,
                kept_at,
            ),
            handled.reply is Err ==> *final(self) == *old(self),
            final(self).same_but_store(old(self)),
            old(self).wf() ==> final(self).wf(),
    {
        let (contact, mut notes): (Option<Node>, Vec<Note>) = match greet(&request.source, remote) {
            Err(e) => return refused(e),
            Ok(greeted) => greeted,
        };
        let ghost first = note_views(notes@);
        assert(first + Seq::<NoteView>::empty() =~= first);
        let checked: StoreRequest = match request.unrep_at(checked_at) {
            Err(e) => return Handled { contact, notes, reply: Err(e) },
            Ok(checked) => checked,
        };
        add_note(&mut notes, NoteLevel::Info, store_note_text(&checked.store));
        assert(note_views(notes@) =~= first + store_notes(Ok(checked@)));
        self.keep(checked, kept_at);
        Handled {
            contact,
            notes,
            reply: Ok(proto::Pong { source: Some(self.stub().rep()) }),
        }
    }
}

/// A value handed over is found again: the request to keep a value under its own key, published
/// no later than it is checked, is taken; and where the key was free, the value is answered to
/// who asks for the key, and read there as it was written.
pub proof fn value_handed_over_is_found(
    request: StoreRequestView,
    sender: Stub,
    keeper: Stub,
    contents: Map<u128, DataView>,
    checked_at: Timestamp,
    kept_at: Timestamp,
    ips: Seq<Result<(), Seq<char>>>,
)
    requires
        request.store.key == value_key(request.store.value),
        0 <= request.publish_time.nanos < 0x1_0000_0000_0000_0000 * 1_000_000,
        request.publish_time.nanos <= checked_at.nanos,
        !contents.contains_key(request.store.key),
    ensures
        request_unrep(request_rep(request, sender), checked_at) is Ok,
        ({
            let key = request.store.key;
            let checked = request_unrep(request_rep(request, sender), checked_at)->Ok_0;
            let after = kept(contents, checked, kept_at);
            &&& after.contains_key(key)
            &&& found_unrep(found_rep(found_value(key, after[key].data), keeper), ips) == Ok::<
                StoreOrNodesView,
                DataErrorView,
            >(found_value(key, request.store.value))
        }),
{
    request_read_back(request, sender, checked_at);
    let checked = request_unrep(request_rep(request, sender), checked_at)->Ok_0;
    kept_value_is_there(contents, checked, kept_at);
    found_read_back(found_value(request.store.key, request.store.value), keeper, ips);
}

/// The node that sends a request is noted exactly where it names itself and its address is known,
/// under the name and the port that it gives and the address from which it came.
pub proof fn a_sender_is_noted_where_it_is(stub: Stub, ip: Seq<char>, error: DataErrorView)
    ensures
        contact_of(Ok(stub), Some(ip)) is Some,
        contact_of(Ok(stub), Some(ip))->0.id == stub.id,
        contact_of(Ok(stub), Some(ip))->0.ip == ip,
        contact_of(Ok(stub), Some(ip))->0.port == stub.port,
        contact_of(Ok(stub), None) is None,
        contact_of(Err(error), Some(ip)) is None,
        contact_of(Err(error), None) is None,
{
}

/// The error of the sender counts before that of what it asks for.
pub proof fn the_first_error_counts<T>(
    stub: Stub,
    error: DataErrorView,
    content: Result<T, DataErrorView>,
)
    ensures
        then_read(Ok(stub), content) == content,
        then_read(Err(error), content) == Err::<T, DataErrorView>(error),
{
}

/// The log is told who sends a request and from where, then what it asks for, and of a value that
/// is looked for also that it is here; of a request that cannot be read it is told no more than
/// could be read.
pub proof fn the_log_is_told_what_is_asked(
    stub: Stub,
    ip: Seq<char>,
    key: u128,
    request: StoreRequestView,
    contents: Map<u128, DataView>,
    error: DataErrorView,
)
    ensures
        source_notes(Ok(stub), Some(ip)) == seq![
            NoteView {
                level: NoteLevel::Info,
                text: "source: "@ + decimal(stub.id as nat) + " "@ + ip + " "@ + decimal(
                    stub.port as nat,
                ),
            },
        ],
        source_notes(Ok(stub), None) == seq![
            NoteView {
                level: NoteLevel::Info,
                text: "source: "@ + decimal(stub.id as nat) + " "@ + "?"@ + " "@ + decimal(
                    stub.port as nat,
                ),
            },
        ],
        source_notes(Err(error), Some(ip)).len() == 0,
        source_notes(Err(error), None).len() == 0,
        target_notes(Ok(key)) == seq![
            NoteView { level: NoteLevel::Info, text: "target: "@ + decimal(key as nat) },
        ],
        target_notes(Err(error)).len() == 0,
        contents.contains_key(key) ==> value_notes(Ok(key), contents) == target_notes(Ok(key))
            + seq![NoteView { level: NoteLevel::Debug, text: "value found!"@ }],
        !contents.contains_key(key) ==> value_notes(Ok(key), contents) == target_notes(Ok(key)),
        value_notes(Err(error), contents).len() == 0,
        store_notes(Ok(request)) == seq![
            NoteView {
                level: NoteLevel::Info,
                text: decimal(request.store.key as nat) + ": "@ + head(request.store.value),
            },
        ],
        store_notes(Err(error)).len() == 0,
{
    if contents.contains_key(key) {
        assert(value_notes(Ok(key), contents) =~= target_notes(Ok(key)) + seq![
            NoteView { level: NoteLevel::Debug, text: "value found!"@ },
        ]);
    }
}

/// A request to keep a value is taken exactly where its sender names itself and the request passes
/// its check. It is then answered with the node's own name, and under its key there is a value:
/// the one that was there, still its publisher's, or else the one that was sent. Nothing else that
/// the node keeps changes, and nothing at all where the request is refused.
pub proof fn a_request_is_kept_or_refused(
    handled: Handled<proto::Pong>,
    own: Stub,
    before: Map<u128, DataView>,
    after: Map<u128, DataView>,
    request: proto::StoreRequestView,
    remote: Option<Seq<char>>,
    checked_at: Timestamp,
    kept_at: Timestamp,
)
    requires
        stored(handled, own, before, after, request, remote, checked_at, kept_at),
    ensures
        ({
            let source = source_unrep(request.source);
            let checked = request_unrep(request, checked_at);
            &&& handled.reply is Ok <==> source is Ok && checked is Ok
            &&& source is Err ==> handled.reply->Err_0@ == source->Err_0
            &&& source is Ok && checked is Err ==> handled.reply->Err_0@ == checked->Err_0
            &&& handled.reply is Err ==> after == before
            &&& handled.reply is Ok ==> {
                let key = checked->Ok_0.store.key;
                &&& proto::source_view(handled.reply->Ok_0.source) == Some(stub_rep(own))
                &&& after.contains_key(key)
                &&& after[key].replication_time == kept_at
                &&& before.contains_key(key) ==> after[key].data == before[key].data
                    && after[key].publish == before[key].publish
                &&& !before.contains_key(key) ==> after[key].data == request.value
                    && !after[key].publish && after[key].publish_time.nanos == request.publish_time
                    * 1_000_000
                &&& forall|other: u128|
                    other != key ==> (#[trigger] after.contains_key(other) <==> before.contains_key(
                        other,
                    )) && (before.contains_key(other) ==> after[other] == before[other])
            }
            &&& contact_view(handled.contact) == contact_of(source, remote)
        }),
{
    if source_unrep(request.source) is Ok && request_unrep(request, checked_at) is Ok {
        a_request_is_checked_against_the_clock(request, checked_at);
        keeping_leaves_the_publisher(before, request_unrep(request, checked_at)->Ok_0, kept_at);
    }
}

/// The views of a request's outcome are all of it.
pub proof fn handled_views_hold_all_fields(notes: Seq<Note>, node: Node, text: String)
    ensures
        note_views(notes).len() == notes.len(),
        forall|i: int|
            0 <= i < notes.len() ==> (#[trigger] note_views(notes)[i]).level == notes[i].level
                && note_views(notes)[i].text == notes[i].text@,
        contact_view(Some(node)) == Some(node@),
        contact_view(None) is None,
        text_view(Some(text)) == Some(text@),
        text_view(None) is None,
{
}

} // verus!
