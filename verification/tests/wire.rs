//! Framing, encoding, and correlation on concrete bytes.

use dap_console::dap::{initialize_args, resolve_addr, DEFAULT_ADDR};
use dap_console::repl::{drive, evaluate, fetch_stack, fetch_threads};
use dap_console::transport::{
    decoded_message, frame_encoded, read_frame, read_header, read_message, write_message, Command, ConnAction,
    ConnEvent, Connection, FrameRead, HeaderLine, ReadAction, ReadError, ReadStep,
};
use dap_console::types::{EventMessage, Inbound, Response};
use serde_json::Value;

fn parsed(text: &str) -> Value {
    serde_json::from_str(text).unwrap()
}

fn response(request_seq: i64) -> Response {
    Response { request_seq, success: true, message: None, body: None }
}

fn failure(bytes: &[u8], ended: bool) -> String {
    match read_message(bytes, ended) {
        ReadStep::Failed { error } => error.text(),
        _ => panic!("expected a failure"),
    }
}

/// The body of a sent message, and that its header announces it.
fn body_of(bytes: &[u8]) -> Value {
    match read_frame(bytes, false) {
        FrameRead::Frame { start, end } => {
            assert_eq!(end, bytes.len());
            let header = format!("Content-Length: {}\r\n\r\n", end - start);
            assert_eq!(&bytes[..start], header.as_bytes());
            serde_json::from_slice(&bytes[start..end]).unwrap()
        }
        _ => panic!("expected a frame"),
    }
}

#[test]
fn targets_resolve_to_addresses() {
    assert_eq!(DEFAULT_ADDR, "127.0.0.1:5679");
    assert_eq!(resolve_addr(None), "127.0.0.1:5679");
    assert_eq!(resolve_addr(Some("5680")), "127.0.0.1:5680");
    assert_eq!(resolve_addr(Some("example.org:1")), "example.org:1");
    assert_eq!(resolve_addr(Some("")), "127.0.0.1:");
    assert_eq!(resolve_addr(Some(":7")), ":7");
}

#[test]
fn resolving_an_address_again_keeps_it() {
    let once = resolve_addr(Some("5680"));
    assert_eq!(resolve_addr(Some(once.as_str())), once);
}

#[test]
fn initialize_announces_an_observer() {
    let expected = parsed(
        r#"{
            "adapterID": "dap-observer",
            "clientID": "dap-observer",
            "clientName": "dap-observer",
            "pathFormat": "path",
            "linesStartAt1": true,
            "columnsStartAt1": true,
            "supportsVariableType": true,
            "supportsRunInTerminalRequest": false
        }"#,
    );
    assert_eq!(initialize_args(), expected);
}

#[test]
fn requests_hold_their_arguments() {
    let request = evaluate("len(primes)", 7);
    assert_eq!(request.command, "evaluate");
    assert_eq!(
        request.args,
        Some(parsed(r#"{"expression": "len(primes)", "frameId": 7, "context": "repl"}"#))
    );

    let request = drive("stepIn", -3);
    assert_eq!(request.command, "stepIn");
    assert_eq!(request.args, Some(parsed(r#"{"threadId": -3}"#)));

    let request = fetch_stack(4);
    assert_eq!(request.command, "stackTrace");
    assert_eq!(request.args, Some(parsed(r#"{"threadId": 4}"#)));

    let request = fetch_threads();
    assert_eq!(request.command, "threads");
    assert_eq!(request.args, Some(parsed("{}")));
}

#[test]
fn a_written_message_is_framed() {
    let bytes = write_message(1, "threads", None).unwrap();
    assert_eq!(
        String::from_utf8(bytes).unwrap(),
        "Content-Length: 46\r\n\r\n{\"command\":\"threads\",\"seq\":1,\"type\":\"request\"}"
    );
}

#[test]
fn a_written_message_reads_back() {
    let args = parsed(r#"{"a": [1, -2, "ü\n", null, true], "b": {"c": {}}}"#);
    let mut bytes = write_message(12, "evaluate", Some(args.clone())).unwrap();
    let written = bytes.len();
    bytes.extend_from_slice(b"Content-Le");
    match read_message(&bytes, false) {
        ReadStep::Message { value, used } => {
            assert_eq!(used, written);
            assert_eq!(value["seq"], Value::from(12));
            assert_eq!(value["type"], Value::from("request"));
            assert_eq!(value["command"], Value::from("evaluate"));
            assert_eq!(value["arguments"], args);
        }
        _ => panic!("expected a message"),
    }
}

#[test]
fn a_complaint_is_not_framed() {
    match frame_encoded(Err("no text".to_string())) {
        Err(complaint) => assert_eq!(complaint, "no text"),
        Ok(_) => panic!("expected the complaint"),
    }
    assert_eq!(frame_encoded(Ok(b"{}".to_vec())).unwrap(), b"Content-Length: 2\r\n\r\n{}");
}

#[test]
fn a_decoded_body_is_a_message() {
    match decoded_message(Ok(parsed("[1]")), 30) {
        ReadStep::Message { value, used } => {
            assert_eq!(value, parsed("[1]"));
            assert_eq!(used, 30);
        }
        _ => panic!("expected a message"),
    }
    match decoded_message(Err("bad".to_string()), 30) {
        ReadStep::Failed { error } => assert_eq!(error.text(), "bad"),
        _ => panic!("expected a failure"),
    }
}

#[test]
fn header_lines_are_told_apart() {
    assert!(matches!(read_header("\r\n"), HeaderLine::Blank));
    assert!(matches!(read_header("\n\r\r\n"), HeaderLine::Blank));
    assert!(matches!(read_header(""), HeaderLine::Blank));
    assert!(matches!(read_header(" \r\n"), HeaderLine::Other));
    assert!(matches!(read_header("Content-Type: x\r\n"), HeaderLine::Other));
    assert!(matches!(read_header(" Content-Length: 3\r\n"), HeaderLine::Other));
    assert!(matches!(read_header("CONTENT-length:\t 17 \r\n"), HeaderLine::Length(Some(17))));
    assert!(matches!(read_header("Content-Length:+5\n"), HeaderLine::Length(Some(5))));
    assert!(matches!(read_header("Content-Length: -5\r\n"), HeaderLine::Length(None)));
    assert!(matches!(read_header("Content-Length:\r\n"), HeaderLine::Length(None)));
    assert!(matches!(read_header("Content-Length: +\r\n"), HeaderLine::Length(None)));
    assert!(matches!(read_header("Content-Length: 1x\r\n"), HeaderLine::Length(None)));
    assert!(matches!(
        read_header("Content-Length: 99999999999999999999999\r\n"),
        HeaderLine::Length(None)
    ));
}

#[test]
fn a_stream_is_read_piece_by_piece() {
    let bytes = b"Content-Length: 2\r\n\r\n{}rest";
    for cut in 0..23 {
        assert!(matches!(read_frame(&bytes[..cut], false), FrameRead::Incomplete));
    }
    for cut in 23..bytes.len() + 1 {
        assert!(matches!(
            read_frame(&bytes[..cut], false),
            FrameRead::Frame { start: 21, end: 23 }
        ));
    }
}

#[test]
fn a_later_length_wins() {
    let bytes = b"Content-Length: 9\nX: y\ncontent-length: 2\n\n[]";
    match read_message(bytes, false) {
        ReadStep::Message { value, used } => {
            assert_eq!(value, parsed("[]"));
            assert_eq!(used, bytes.len());
        }
        _ => panic!("expected a message"),
    }
}

#[test]
fn only_an_end_between_messages_is_clean() {
    assert!(matches!(read_message(b"", true), ReadStep::Ended));
    assert!(matches!(read_message(b"", false), ReadStep::Incomplete));
    assert_eq!(failure(b"C", true), "early eof");
    assert_eq!(failure(b"Content-Length: 2\r\n", true), "early eof");
    assert!(matches!(read_message(b"Content-Length: 2\r\n", false), ReadStep::Incomplete));
}

#[test]
fn a_message_cut_anywhere_is_an_error() {
    let bytes = write_message(1, "threads", None).unwrap();
    for cut in 1..bytes.len() {
        assert!(matches!(read_frame(&bytes[..cut], true), FrameRead::Failed { .. }));
    }
    assert!(matches!(read_frame(&bytes, true), FrameRead::Frame { .. }));
}

#[test]
fn what_was_read_decides_what_is_done() {
    let connection: Connection<u8> = Connection::new();
    let closing = |bytes: &[u8]| match connection.on_read(read_message(bytes, true)) {
        ReadAction::Act { action: ConnAction::Close { event: ConnEvent::Disconnected(why) } } => why,
        _ => panic!("expected the end"),
    };
    assert_eq!(closing(b""), None);
    assert_eq!(closing(b"X: y\r\n"), Some("early eof".to_string()));
    assert_eq!(closing(b"Content-Length: x\r\n"), Some("invalid Content-Length".to_string()));
    assert!(matches!(connection.on_read(read_message(b"X", false)), ReadAction::Wait));
    match connection.on_read(read_message(b"Content-Length: 1\n\n7", false)) {
        ReadAction::Classify { value, used } => {
            assert_eq!(value, parsed("7"));
            assert_eq!(used, 20);
        }
        _ => panic!("expected a message"),
    }
}

#[test]
fn each_way_of_failing_is_told() {
    assert_eq!(failure(b"Content-Length: two\r\n", false), "invalid Content-Length");
    assert_eq!(failure(b"X: y\r\n\r\n", false), "message missing Content-Length header");
    assert_eq!(failure(b"\r\n", true), "message missing Content-Length header");
    assert_eq!(failure(b"Content-Length: 3\r\n\r\n{}", true), "early eof");
    assert_eq!(
        failure(b"Content-Length: 2\r\n\r\n{x", false),
        "key must be a string at line 1 column 2"
    );
    assert_eq!(
        failure(b"X: \xff\r\n", false),
        "invalid utf-8 sequence of 1 bytes from index 3"
    );
}

#[test]
fn failures_are_told_apart() {
    assert!(matches!(
        read_message(b"Content-Length: 1\r\n\r\n}", false),
        ReadStep::Failed { error: ReadError::BadJson { .. } }
    ));
    assert!(matches!(
        read_message(b"\xc3\n", false),
        ReadStep::Failed { error: ReadError::NotText { .. } }
    ));
    // A length that was given before does not excuse a line that holds none.
    assert!(matches!(
        read_message(b"Content-Length: 1\nContent-Length: x\n\n1", false),
        ReadStep::Failed { error: ReadError::InvalidLength }
    ));
}

#[test]
fn an_unterminated_last_line_counts_at_the_end() {
    // The last header line is read though no line feed ends it.
    assert_eq!(failure(b"Content-Length: x", true), "invalid Content-Length");
    assert!(matches!(read_message(b"Content-Length: x", false), ReadStep::Incomplete));
}

#[test]
fn responses_reach_who_asked_in_any_order() {
    let mut connection: Connection<&'static str> = Connection::new();
    for (asker, number) in [("a", 1), ("b", 2), ("c", 3)] {
        let command = Command::Request { command: "evaluate".to_string(), args: None, reply: asker };
        match connection.on_command(command) {
            ConnAction::Send { bytes } => assert_eq!(body_of(&bytes)["seq"], Value::from(number)),
            _ => panic!("expected a message to send"),
        }
    }
    for (number, asker) in [(2, "b"), (3, "c"), (1, "a")] {
        match connection.on_message(Some(Inbound::Response(response(number)))) {
            ConnAction::Deliver { reply, response } => {
                assert_eq!(reply, asker);
                assert_eq!(response.request_seq, number);
            }
            _ => panic!("expected a delivery"),
        }
    }
}

#[test]
fn a_request_is_answered_once() {
    let mut connection: Connection<u8> = Connection::new();
    connection.on_command(Command::Request { command: "x".to_string(), args: None, reply: 9 });
    assert!(matches!(
        connection.on_message(Some(Inbound::Response(response(1)))),
        ConnAction::Deliver { reply: 9, .. }
    ));
    assert!(matches!(
        connection.on_message(Some(Inbound::Response(response(1)))),
        ConnAction::Nothing
    ));
}

#[test]
fn what_nobody_awaits_is_ignored() {
    let mut connection: Connection<u8> = Connection::new();
    assert!(matches!(
        connection.on_message(Some(Inbound::Response(response(5)))),
        ConnAction::Nothing
    ));
    assert!(matches!(connection.on_message(Some(Inbound::Request)), ConnAction::Nothing));
    assert!(matches!(connection.on_message(None), ConnAction::Nothing));
}

#[test]
fn a_disconnect_takes_a_number_and_no_reply() {
    let mut connection: Connection<u8> = Connection::new();
    match connection.on_command(Command::Disconnect) {
        ConnAction::TrySend { bytes } => {
            let body = body_of(&bytes);
            assert_eq!(body["command"], Value::from("disconnect"));
            assert_eq!(body["arguments"], parsed("{}"));
            assert_eq!(body["seq"], Value::from(1));
        }
        _ => panic!("expected a message to try"),
    }
    assert!(matches!(
        connection.on_message(Some(Inbound::Response(response(1)))),
        ConnAction::Nothing
    ));
    let command = Command::Request { command: "x".to_string(), args: None, reply: 1 };
    match connection.on_command(command) {
        ConnAction::Send { bytes } => assert_eq!(body_of(&bytes)["seq"], Value::from(2)),
        _ => panic!("expected a message to send"),
    }
    assert_eq!(connection.last_number(), 2);
}

#[test]
fn events_and_the_end_are_published() {
    let mut connection: Connection<u8> = Connection::new();
    let event = EventMessage { event: "continued".to_string(), body: None };
    match connection.on_message(Some(Inbound::Event(event))) {
        ConnAction::Publish { event: ConnEvent::Dap(msg) } => assert_eq!(msg.event, "continued"),
        _ => panic!("expected the event"),
    }
    match connection.on_end(Some("broken pipe".to_string())) {
        ConnAction::Close { event: ConnEvent::Disconnected(Some(error)) } => {
            assert_eq!(error, "broken pipe")
        }
        _ => panic!("expected the end"),
    }
    assert!(matches!(
        connection.on_end(None),
        ConnAction::Close { event: ConnEvent::Disconnected(None) }
    ));
}
