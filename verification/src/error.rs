//! What can go wrong in a node, how it is shown, and the status by which it is answered.

use vstd::prelude::*;

use crate::data::{data_error_text, DataError, DataErrorView, Node};
use crate::text::{decimal, push_decimal};

verus! {

broadcast use vstd::string::group_string_axioms;

/// The status code of a request with an argument that cannot be used.
pub const INVALID_ARGUMENT: i32 = 3;

/// The status code of a request for what is not there.
pub const NOT_FOUND: i32 = 5;

/// The status code of a failure in the node itself.
pub const INTERNAL: i32 = 13;

/// The status code of a request that the node cannot serve just now.
pub const UNAVAILABLE: i32 = 14;

/// The status by which a request is refused.
#[derive(Debug, Clone, PartialEq, Eq)]
pub struct Status {
    pub code: i32,
    pub message: String,
    /// What lies beneath, in the form that debugging shows.
    pub source: Option<String>,
}

/// The view of a `Status`.
pub struct StatusView {
    pub code: i32,
    pub message: Seq<char>,
    pub source: Option<Seq<char>>,
}

impl View for Status {
    type V = StatusView;

    open spec fn view(&self) -> StatusView {
        StatusView {
            code: self.code,
            message: self.message@,
            source: match self.source {
                Some(source) => Some(source@),
                None => None,
            },
        }
    }
}

/// How a status without a source is shown.
pub uninterp spec fn status_shown(code: i32, message: Seq<char>) -> Seq<char>;

/// Shows a status with the given code and message, as `tonic::Status::new` makes it and its
/// `Display` writes it. Trusted: the text is a function of the code and the message alone.
#[verifier::external_body]
fn show_status(code: i32, message: &str) -> (s: String)
    ensures
        s@ == status_shown(code, message@),
{
    format!("{}", tonic::Status::new(tonic::Code::from_i32(code), message))
}

/// How a status is shown: its source stands behind the rest.
pub open spec fn status_text(status: StatusView) -> Seq<char> {
    match status.source {
        Some(source) => status_shown(status.code, status.message) + ", source: "@ + source,
        None => status_shown(status.code, status.message),
    }
}

impl Status {
    /// A status with a code and a message.
    pub fn new(code: i32, message: String) -> (status: Status)
        ensures
            status@ == (StatusView { code, message: message@, source: None }),
    {
        Status { code, message, source: None }
    }

    /// How the status is shown.
    pub fn to_string(&self) -> (s: String)
        ensures
            s@ == status_text(self@),
    {
        let mut s: String = show_status(self.code, self.message.as_str());
        match &self.source {
            Some(source) => {
                s.append(", source: ");
                s.append(source.as_str());
            },
            None => {},
        }
        s
    }
}

/// What can go wrong in a node.
#[derive(Debug, Clone, PartialEq, Eq)]
pub enum TokadError {
    /// A message that cannot be read.
    Serialization(DataError),
    ConnectionFailed(String),
    /// The status by which another node refused a request.
    NetworkStatus(Status),
    /// A text that is no address, with the reason.
    AddressParse(String),
    /// A number that is no port, with the reason.
    PortOverflow(String),
    NodeOffline(u128),
    ValueNotFound(u128),
    EmptyRoutingTable,
    StorageLockPoisoned,
    /// A failure of the system, as it is shown to users and in debugging.
    Io { shown: String, debug: String },
}

/// The view of a `TokadError`.
pub enum TokadErrorView {
    Serialization(DataErrorView),
    ConnectionFailed(Seq<char>),
    NetworkStatus(StatusView),
    AddressParse(Seq<char>),
    PortOverflow(Seq<char>),
    NodeOffline(u128),
    ValueNotFound(u128),
    EmptyRoutingTable,
    StorageLockPoisoned,
    Io { shown: Seq<char>, debug: Seq<char> },
}

impl View for TokadError {
    type V = TokadErrorView;

    open spec fn view(&self) -> TokadErrorView {
        match self {
            TokadError::Serialization(e) => TokadErrorView::Serialization(e@),
            TokadError::ConnectionFailed(msg) => TokadErrorView::ConnectionFailed(msg@),
            TokadError::NetworkStatus(status) => TokadErrorView::NetworkStatus(status@),
            TokadError::AddressParse(e) => TokadErrorView::AddressParse(e@),
            TokadError::PortOverflow(e) => TokadErrorView::PortOverflow(e@),
            TokadError::NodeOffline(id) => TokadErrorView::NodeOffline(*id),
            TokadError::ValueNotFound(key) => TokadErrorView::ValueNotFound(*key),
            TokadError::EmptyRoutingTable => TokadErrorView::EmptyRoutingTable,
            TokadError::StorageLockPoisoned => TokadErrorView::StorageLockPoisoned,
            TokadError::Io { shown, debug } => TokadErrorView::Io { shown: shown@, debug: debug@ },
        }
    }
}

/// How an error is shown.
pub open spec fn tokad_error_text(e: TokadErrorView) -> Seq<char> {
    match e {
        TokadErrorView::Serialization(e) => "Serialization error: "@ + data_error_text(e),
        TokadErrorView::ConnectionFailed(msg) => "Connection failed: "@ + msg,
        TokadErrorView::NetworkStatus(status) => "Network gRPC error: "@ + status_text(status),
        TokadErrorView::AddressParse(e) => "Address parse error: "@ + e,
        TokadErrorView::PortOverflow(e) => "Port overflow: "@ + e,
        TokadErrorView::NodeOffline(id) => "Node "@ + decimal(id as nat) + " is offline"@,
        TokadErrorView::ValueNotFound(key) => "Value not found for key: "@ + decimal(key as nat),
        TokadErrorView::EmptyRoutingTable => "Routing table is empty"@,
        TokadErrorView::StorageLockPoisoned => "Storage lock poisoned"@,
        TokadErrorView::Io { shown, .. } => "I/O error: "@ + shown,
    }
}

/// The status by which an error is answered: the argument is to blame where it cannot be read or
/// names no address or port, what is missing is named, the status of another node is passed on,
/// and all else is a failure of this node.
pub open spec fn status_of(e: TokadErrorView) -> StatusView {
    match e {
        TokadErrorView::Serialization(e) => payload_status(e),
        TokadErrorView::AddressParse(e) => StatusView {
            code: INVALID_ARGUMENT,
            message: "Invalid network address: "@ + e,
            source: None,
        },
        TokadErrorView::PortOverflow(e) => StatusView {
            code: INVALID_ARGUMENT,
            message: "Port number invalid: "@ + e,
            source: None,
        },
        TokadErrorView::NodeOffline(id) => StatusView {
            code: UNAVAILABLE,
            message: "Node "@ + decimal(id as nat) + " is offline"@,
            source: None,
        },
        TokadErrorView::ValueNotFound(key) => StatusView {
            code: NOT_FOUND,
            message: "Value not found for key: "@ + decimal(key as nat),
            source: None,
        },
        TokadErrorView::NetworkStatus(status) => status,
        TokadErrorView::ConnectionFailed(msg) => StatusView {
            code: INTERNAL,
            message: msg,
            source: None,
        },
        TokadErrorView::EmptyRoutingTable => StatusView {
            code: INTERNAL,
            message: "Internal server error: EmptyRoutingTable"@,
            source: None,
        },
        TokadErrorView::StorageLockPoisoned => StatusView {
            code: INTERNAL,
            message: "Internal server error: StorageLockPoisoned"@,
            source: None,
        },
        TokadErrorView::Io { debug, .. } => StatusView {
            code: INTERNAL,
            message: "Internal server error: Io("@ + debug + ")"@,
            source: None,
        },
    }
}

/// The status by which a message that cannot be read is answered.
pub open spec fn payload_status(e: DataErrorView) -> StatusView {
    StatusView {
        code: INVALID_ARGUMENT,
        message: "Payload error: "@ + data_error_text(e),
        source: None,
    }
}

impl TokadError {
    /// How the error is shown.
    pub fn to_string(&self) -> (s: String)
        ensures
            s@ == tokad_error_text(self@),
    {
        match self {
            TokadError::Serialization(e) => {
                let mut s: String = "Serialization error: ".to_owned();
                s.append(e.to_string().as_str());
                s
            },
            TokadError::ConnectionFailed(msg) => {
                let mut s: String = "Connection failed: ".to_owned();
                s.append(msg.as_str());
                s
            },
            TokadError::NetworkStatus(status) => {
                let mut s: String = "Network gRPC error: ".to_owned();
                s.append(status.to_string().as_str());
                s
            },
            TokadError::AddressParse(e) => {
                let mut s: String = "Address parse error: ".to_owned();
                s.append(e.as_str());
                s
            },
            TokadError::PortOverflow(e) => {
                let mut s: String = "Port overflow: ".to_owned();
                s.append(e.as_str());
                s
            },
            TokadError::NodeOffline(id) => offline_text(*id),
            TokadError::ValueNotFound(key) => missing_text(*key),
            TokadError::EmptyRoutingTable => "Routing table is empty".to_owned(),
            TokadError::StorageLockPoisoned => "Storage lock poisoned".to_owned(),
            TokadError::Io { shown, .. } => {
                let mut s: String = "I/O error: ".to_owned();
                s.append(shown.as_str());
                s
            },
        }
    }
}

fn offline_text(id: u128) -> (s: String)
    ensures
        s@ == "Node "@ + decimal(id as nat) + " is offline"@,
{
    let mut s: String = "Node ".to_owned();
    push_decimal(&mut s, id);
    s.append(" is offline");
    s
}

fn missing_text(key: u128) -> (s: String)
    ensures
        s@ == "Value not found for key: "@ + decimal(key as nat),
{
    let mut s: String = "Value not found for key: ".to_owned();
    push_decimal(&mut s, key);
    s
}

impl From<DataError> for TokadError {
    fn from(err: DataError) -> (e: TokadError) {
        TokadError::Serialization(err)
    }
}

impl vstd::std_specs::convert::FromSpecImpl<DataError> for TokadError {
    open spec fn obeys_from_spec() -> bool {
        true
    }

    open spec fn from_spec(err: DataError) -> TokadError {
        TokadError::Serialization(err)
    }
}

impl From<Status> for TokadError {
    fn from(err: Status) -> (e: TokadError) {
        TokadError::NetworkStatus(err)
    }
}

impl vstd::std_specs::convert::FromSpecImpl<Status> for TokadError {
    open spec fn obeys_from_spec() -> bool {
        true
    }

    open spec fn from_spec(err: Status) -> TokadError {
        TokadError::NetworkStatus(err)
    }
}

impl From<DataError> for Status {
    fn from(err: DataError) -> (status: Status)
        ensures
            status@ == payload_status(err@),
    {
        let mut message: String = "Payload error: ".to_owned();
        message.append(err.to_string().as_str());
        Status::new(INVALID_ARGUMENT, message)
    }
}

impl vstd::std_specs::convert::FromSpecImpl<DataError> for Status {
    open spec fn obeys_from_spec() -> bool {
        false
    }

    open spec fn from_spec(err: DataError) -> Status {
        arbitrary()
    }
}

impl From<TokadError> for Status {
    fn from(err: TokadError) -> (status: Status)
        ensures
            status@ == status_of(err@),
    {
        match err {
            TokadError::Serialization(e) => Status::from(e),
            TokadError::AddressParse(e) => {
                let mut message: String = "Invalid network address: ".to_owned();
                message.append(e.as_str());
                Status::new(INVALID_ARGUMENT, message)
            },
            TokadError::PortOverflow(e) => {
                let mut message: String = "Port number invalid: ".to_owned();
                message.append(e.as_str());
                Status::new(INVALID_ARGUMENT, message)
            },
            TokadError::NodeOffline(id) => Status::new(UNAVAILABLE, offline_text(id)),
            TokadError::ValueNotFound(key) => Status::new(NOT_FOUND, missing_text(key)),
            TokadError::NetworkStatus(status) => status,
            TokadError::ConnectionFailed(msg) => Status::new(INTERNAL, msg),
            TokadError::EmptyRoutingTable => Status::new(
                INTERNAL,
                "Internal server error: EmptyRoutingTable".to_owned(),
            ),
            TokadError::StorageLockPoisoned => Status::new(
                INTERNAL,
                "Internal server error: StorageLockPoisoned".to_owned(),
            ),
            TokadError::Io { debug, .. } => {
                let mut message: String = "Internal server error: Io(".to_owned();
                message.append(debug.as_str());
                message.append(")");
                Status::new(INTERNAL, message)
            },
        }
    }
}

impl vstd::std_specs::convert::FromSpecImpl<TokadError> for Status {
    open spec fn obeys_from_spec() -> bool {
        false
    }

    open spec fn from_spec(err: TokadError) -> Status {
        arbitrary()
    }
}

impl Node {
    /// Where to connect to the node: `ip` is its address as parsed, or nothing where it cannot be
    /// parsed.
    pub fn dial<A>(&self, ip: Option<A>) -> (sock: Result<(A, u16), Status>)
        ensures
            match (sock, ip) {
                (Ok(sock), Some(ip)) => self.port <= u16::MAX && sock == (ip, self.port as u16),
                (Err(status), _) => {
                    &&& ip is None || self.port > u16::MAX
                    &&& status@ == (StatusView {
                        code: INVALID_ARGUMENT,
                        message: "Invalid or unparseable IP/port in node metadata"@,
                        source: None,
                    })
                },
                _ => false,
            },
    {
        match self.sock(ip) {
            Some(sock) => Ok(sock),
            None => Err(
                Status::new(
                    INVALID_ARGUMENT,
                    "Invalid or unparseable IP/port in node metadata".to_owned(),
                ),
            ),
        }
    }
}

/// The status by which each error is answered, in numbers and words: what cannot be read, parsed or
/// counted is an argument that cannot be used, a node that is offline is unavailable, a missing
/// value is not found, the status of another node is passed on as it is, and the rest is internal.
pub proof fn errors_are_answered_by_their_kind(
    e: TokadErrorView,
    data: DataErrorView,
    text: Seq<char>,
    number: u128,
    status: StatusView,
)
    ensures
        !(e is NetworkStatus) ==> status_of(e).source is None,
        status_of(TokadErrorView::Serialization(data)).code == 3,
        status_of(TokadErrorView::Serialization(data)).message == "Payload error: "@
            + data_error_text(data),
        status_of(TokadErrorView::AddressParse(text)).code == 3,
        status_of(TokadErrorView::AddressParse(text)).message == "Invalid network address: "@ + text,
        status_of(TokadErrorView::PortOverflow(text)).code == 3,
        status_of(TokadErrorView::PortOverflow(text)).message == "Port number invalid: "@ + text,
        status_of(TokadErrorView::NodeOffline(number)).code == 14,
        status_of(TokadErrorView::NodeOffline(number)).message == "Node "@ + decimal(number as nat)
            + " is offline"@,
        status_of(TokadErrorView::ValueNotFound(number)).code == 5,
        status_of(TokadErrorView::ValueNotFound(number)).message == "Value not found for key: "@
            + decimal(number as nat),
        status_of(TokadErrorView::NetworkStatus(status)) == status,
        status_of(TokadErrorView::ConnectionFailed(text)).code == 13,
        status_of(TokadErrorView::ConnectionFailed(text)).message == text,
        status_of(TokadErrorView::EmptyRoutingTable).code == 13,
        status_of(TokadErrorView::StorageLockPoisoned).code == 13,
        status_of(TokadErrorView::Io { shown: text, debug: text }).code == 13,
        status_of(TokadErrorView::Io { shown: text, debug: text }).message
            == "Internal server error: Io("@ + text + ")"@,
        payload_status(data) == status_of(TokadErrorView::Serialization(data)),
{
}

/// Every error is shown with what it is about.
pub proof fn errors_are_shown_with_their_cause(
    data: DataErrorView,
    text: Seq<char>,
    number: u128,
    status: StatusView,
)
    ensures
        tokad_error_text(TokadErrorView::Serialization(data)) == "Serialization error: "@
            + data_error_text(data),
        tokad_error_text(TokadErrorView::ConnectionFailed(text)) == "Connection failed: "@ + text,
        tokad_error_text(TokadErrorView::NetworkStatus(status)) == "Network gRPC error: "@
            + status_text(status),
        tokad_error_text(TokadErrorView::AddressParse(text)) == "Address parse error: "@ + text,
        tokad_error_text(TokadErrorView::PortOverflow(text)) == "Port overflow: "@ + text,
        tokad_error_text(TokadErrorView::NodeOffline(number)) == "Node "@ + decimal(number as nat)
            + " is offline"@,
        tokad_error_text(TokadErrorView::ValueNotFound(number)) == "Value not found for key: "@
            + decimal(number as nat),
        tokad_error_text(TokadErrorView::EmptyRoutingTable) == "Routing table is empty"@,
        tokad_error_text(TokadErrorView::StorageLockPoisoned) == "Storage lock poisoned"@,
        tokad_error_text(TokadErrorView::Io { shown: text, debug: text }) == "I/O error: "@ + text,
        status.source is None ==> status_text(status) == status_shown(status.code, status.message),
        status.source is Some ==> status_text(status) == status_shown(status.code, status.message)
            + ", source: "@ + status.source->0,
{
}

/// The view of a status is all of it, and so is that of an error.
pub proof fn status_views_hold_all_fields(
    status: Status,
    data: DataError,
    text: String,
    more: String,
    number: u128,
)
    ensures
        status@.code == status.code,
        status@.message == status.message@,
        status.source is Some ==> status@.source == Some(status.source->0@),
        status.source is None ==> status@.source is None,
        TokadError::Serialization(data)@ == TokadErrorView::Serialization(data@),
        TokadError::ConnectionFailed(text)@ == TokadErrorView::ConnectionFailed(text@),
        TokadError::NetworkStatus(status)@ == TokadErrorView::NetworkStatus(status@),
        TokadError::AddressParse(text)@ == TokadErrorView::AddressParse(text@),
        TokadError::PortOverflow(text)@ == TokadErrorView::PortOverflow(text@),
        TokadError::NodeOffline(number)@ == TokadErrorView::NodeOffline(number),
        TokadError::ValueNotFound(number)@ == TokadErrorView::ValueNotFound(number),
        TokadError::EmptyRoutingTable@ is EmptyRoutingTable,
        TokadError::StorageLockPoisoned@ is StorageLockPoisoned,
        (TokadError::Io { shown: text, debug: more })@ == (TokadErrorView::Io {
            shown: text@,
            debug: more@,
        }),
{
}

} // verus!
