use tokad::data::DataError;
use tokad::error::{Status, TokadError, INTERNAL, INVALID_ARGUMENT, NOT_FOUND, UNAVAILABLE};

fn text(s: &str) -> String {
    s.to_string()
}

fn io() -> TokadError {
    TokadError::Io { shown: text("gone"), debug: text("Kind(NotFound)") }
}

#[test]
fn errors_are_shown() {
    let cases = vec![
        (
            TokadError::Serialization(DataError::InvalidIdLength(3)),
            "Serialization error: Invalid ID length: expected 16 bytes, got 3 bytes",
        ),
        (TokadError::ConnectionFailed(text("x")), "Connection failed: x"),
        (TokadError::AddressParse(text("x")), "Address parse error: x"),
        (TokadError::PortOverflow(text("x")), "Port overflow: x"),
        (TokadError::NodeOffline(5), "Node 5 is offline"),
        (TokadError::ValueNotFound(5), "Value not found for key: 5"),
        (TokadError::EmptyRoutingTable, "Routing table is empty"),
        (TokadError::StorageLockPoisoned, "Storage lock poisoned"),
        (io(), "I/O error: gone"),
    ];
    for (error, shown) in cases {
        assert_eq!(error.to_string(), shown);
    }
}

#[test]
fn a_status_is_shown_as_the_network_library_shows_it() {
    let status = Status::new(NOT_FOUND, text("say \"hi\""));
    let theirs = tonic::Status::not_found("say \"hi\"");
    assert_eq!(status.to_string(), theirs.to_string());
    assert_eq!(
        status.to_string(),
        "code: 'Some requested entity was not found', message: \"say \\\"hi\\\"\"",
    );
    assert_eq!(
        TokadError::NetworkStatus(status).to_string(),
        format!("Network gRPC error: {}", theirs),
    );
    let bare = Status::new(UNAVAILABLE, String::new());
    assert_eq!(bare.to_string(), tonic::Status::unavailable("").to_string());
    let status = Status { code: INTERNAL, message: text("m"), source: Some(text("Deep")) };
    assert_eq!(status.to_string(), "code: 'Internal error', message: \"m\", source: Deep");
}

#[test]
fn errors_are_answered_by_a_status() {
    let cases = vec![
        (
            TokadError::Serialization(DataError::MissingField(text("x"))),
            INVALID_ARGUMENT,
            "Payload error: Missing field: x",
        ),
        (TokadError::AddressParse(text("x")), INVALID_ARGUMENT, "Invalid network address: x"),
        (TokadError::PortOverflow(text("x")), INVALID_ARGUMENT, "Port number invalid: x"),
        (TokadError::NodeOffline(5), UNAVAILABLE, "Node 5 is offline"),
        (TokadError::ValueNotFound(5), NOT_FOUND, "Value not found for key: 5"),
        (TokadError::ConnectionFailed(text("x")), INTERNAL, "x"),
        (
            TokadError::EmptyRoutingTable,
            INTERNAL,
            "Internal server error: EmptyRoutingTable",
        ),
        (
            TokadError::StorageLockPoisoned,
            INTERNAL,
            "Internal server error: StorageLockPoisoned",
        ),
        (io(), INTERNAL, "Internal server error: Io(Kind(NotFound))"),
    ];
    for (error, code, message) in cases {
        assert_eq!(Status::from(error), Status::new(code, text(message)));
    }
}

#[test]
fn the_status_of_another_node_is_passed_on() {
    let status = Status { code: 4, message: text("late"), source: Some(text("s")) };
    assert_eq!(Status::from(TokadError::from(status.clone())), status);
}

#[test]
fn a_message_that_cannot_be_read_is_an_invalid_argument() {
    let error = DataError::InvalidIdLength(2);
    let status = Status::from(error.clone());
    assert_eq!(status.code, INVALID_ARGUMENT);
    assert_eq!(
        status.message,
        "Payload error: Invalid ID length: expected 16 bytes, got 2 bytes",
    );
    assert_eq!(TokadError::from(error.clone()), TokadError::Serialization(error));
}
