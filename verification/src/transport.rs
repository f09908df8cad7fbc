//! The wire: `Content-Length` framing, numbering of requests, and correlation of
//! the responses.
//!
//! A single task owns the socket. It feeds what it reads to [`read_message`] and
//! what arrives on its channels to a [`Connection`], and performs the actions
//! that come back.

use crate::json::{
    decode_json, encode_json, field_map, int_value, json_contents, json_decoding, json_encoding,
    object_value, optional_contents, plain, text_value, Json,
};
use crate::framing_laws::law_frame_reads_back;
use crate::text::{
    decimal, from_utf8, lowered, lowercase, numeral_value, parse_usize, push_decimal, starts_with,
    strip_line_end, strip_prefix, trim, trim_line_end, trimmed, utf8_complaint,
};
use crate::types::{EventMessage, Inbound, Response};
use serde_json::Value;
use std::collections::HashMap;
use vstd::prelude::*;
use vstd::slice::slice_subrange;
use vstd::utf8::{decode_utf8, encode_utf8, encode_utf8_decode_utf8, valid_utf8};

verus! {

/// Why a message could not be read.
pub enum ReadError {
    /// A header line is no UTF-8 text.
    NotText { complaint: String },
    /// The `Content-Length` header holds no length.
    InvalidLength,
    /// The headers name no length.
    MissingLength,
    /// The stream ended within a message.
    EarlyEnd,
    /// The body is no JSON text.
    BadJson { complaint: String },
}

/// The mathematical content of a [`ReadError`].
#[verifier::ext_equal]
pub enum ReadErrorView {
    NotText { complaint: Seq<char> },
    InvalidLength,
    MissingLength,
    EarlyEnd,
    BadJson { complaint: Seq<char> },
}

impl View for ReadError {
    type V = ReadErrorView;

    open spec fn view(&self) -> ReadErrorView {
        match *self {
            ReadError::NotText { complaint } => ReadErrorView::NotText { complaint: complaint@ },
            ReadError::InvalidLength => ReadErrorView::InvalidLength,
            ReadError::MissingLength => ReadErrorView::MissingLength,
            ReadError::EarlyEnd => ReadErrorView::EarlyEnd,
            ReadError::BadJson { complaint } => ReadErrorView::BadJson { complaint: complaint@ },
        }
    }
}

impl ReadErrorView {
    /// What is told to the user.
    pub open spec fn text(self) -> Seq<char> {
        match self {
            ReadErrorView::NotText { complaint } => complaint,
            ReadErrorView::InvalidLength => "invalid Content-Length"@,
            ReadErrorView::MissingLength => "message missing Content-Length header"@,
            ReadErrorView::EarlyEnd => "early eof"@,
            ReadErrorView::BadJson { complaint } => complaint,
        }
    }
}

impl ReadError {
    /// What is told to the user.
    pub fn text(self) -> (text: String)
        ensures
            text@ == self@.text(),
    {
        match self {
            ReadError::NotText { complaint } => complaint,
            ReadError::InvalidLength => "invalid Content-Length".to_owned(),
            ReadError::MissingLength => "message missing Content-Length header".to_owned(),
            ReadError::EarlyEnd => "early eof".to_owned(),
            ReadError::BadJson { complaint } => complaint,
        }
    }
}

/// What one header line says.
#[derive(Clone, Copy)]
pub enum HeaderLine {
    /// Nothing: the headers are over.
    Blank,
    /// The length of the body, or something else in its place.
    Length(Option<usize>),
    /// A header that does not matter here.
    Other,
}

/// What a header line says, by its text. Names are told apart without regard to
/// case, and space around a length does not matter.
pub open spec fn header_of(line: Seq<char>) -> HeaderLine {
    let text = strip_line_end(line);
    if text.len() == 0 {
        HeaderLine::Blank
    } else if starts_with(lowered(text), "content-length:"@) {
        HeaderLine::Length(
            numeral_value(trimmed(lowered(text).skip("content-length:"@.len() as int))),
        )
    } else {
        HeaderLine::Other
    }
}

/// Reads one header line.
pub fn read_header(line: &str) -> (header: HeaderLine)
    ensures
        header == header_of(line@),
{
    let text: &str = trim_line_end(line);
    if text.is_empty() {
        return HeaderLine::Blank;
    }
    let name: String = lowercase(text);
    match strip_prefix(name.as_str(), "content-length:") {
        Some(rest) => HeaderLine::Length(parse_usize(trim(rest))),
        None => HeaderLine::Other,
    }
}

/// What the bytes of a stream hold so far.
pub enum FrameRead {
    /// Less than a message.
    Incomplete,
    /// No further message: the stream ended.
    Ended,
    /// A message, whose body stands between these two positions.
    Frame { start: usize, end: usize },
    Failed { error: ReadError },
}

/// The mathematical content of a [`FrameRead`].
#[verifier::ext_equal]
pub enum FrameReadView {
    Incomplete,
    Ended,
    Frame { start: int, end: int },
    Failed { error: ReadErrorView },
}

impl View for FrameRead {
    type V = FrameReadView;

    open spec fn view(&self) -> FrameReadView {
        match *self {
            FrameRead::Incomplete => FrameReadView::Incomplete,
            FrameRead::Ended => FrameReadView::Ended,
            FrameRead::Frame { start, end } => FrameReadView::Frame {
                start: start as int,
                end: end as int,
            },
            FrameRead::Failed { error } => FrameReadView::Failed { error: error@ },
        }
    }
}

/// The position behind the first line feed at or after `at`.
pub open spec fn line_end(bytes: Seq<u8>, at: int) -> Option<int>
    decreases bytes.len() - at,
{
    if at < 0 || at >= bytes.len() {
        None
    } else if bytes[at] == 0x0a {
        Some(at + 1)
    } else {
        line_end(bytes, at + 1)
    }
}

/// A line ends behind where it begins and within the bytes.
pub proof fn lemma_line_end(bytes: Seq<u8>, at: int)
    ensures
        line_end(bytes, at) matches Some(end) ==> at < end <= bytes.len(),
    decreases bytes.len() - at,
{
    if 0 <= at < bytes.len() {
        lemma_line_end(bytes, at + 1);
    }
}

/// What the body of a message is, once its length and its start are known.
pub open spec fn read_body(
    bytes: Seq<u8>,
    at: int,
    length: Option<usize>,
    ended: bool,
) -> FrameReadView {
    match length {
        None => FrameReadView::Failed { error: ReadErrorView::MissingLength },
        Some(length) => if bytes.len() - at >= length {
            FrameReadView::Frame { start: at, end: at + length }
        } else if ended {
            FrameReadView::Failed { error: ReadErrorView::EarlyEnd }
        } else {
            FrameReadView::Incomplete
        },
    }
}

/// What the bytes from `at` on hold, when the headers before named `length`. A
/// later length takes the place of an earlier one. When the stream has ended, the
/// last line need not be terminated. Ending before the first byte of a message is a
/// clean end, ending among its headers is not.
pub open spec fn read_headers(
    bytes: Seq<u8>,
    at: int,
    length: Option<usize>,
    ended: bool,
) -> FrameReadView
    decreases bytes.len() - at,
{
    if at < 0 || (line_end(bytes, at) is None && !ended) {
        FrameReadView::Incomplete
    } else if at >= bytes.len() {
        if at == 0 {
            FrameReadView::Ended
        } else {
            FrameReadView::Failed { error: ReadErrorView::EarlyEnd }
        }
    } else {
        proof {
            lemma_line_end(bytes, at);
        }
        let end = match line_end(bytes, at) {
            Some(end) => end,
            None => bytes.len() as int,
        };
        let line = bytes.subrange(at, end);
        if !valid_utf8(line) {
            FrameReadView::Failed { error: ReadErrorView::NotText { complaint: utf8_complaint(line) } }
        } else {
            match header_of(decode_utf8(line)) {
                HeaderLine::Blank => read_body(bytes, end, length, ended),
                HeaderLine::Length(None) => FrameReadView::Failed {
                    error: ReadErrorView::InvalidLength,
                },
                HeaderLine::Length(Some(length)) => read_headers(bytes, end, Some(length), ended),
                HeaderLine::Other => read_headers(bytes, end, length, ended),
            }
        }
    }
}

/// What a stream holds, by the bytes received so far and whether more can come.
pub open spec fn framed(bytes: Seq<u8>, ended: bool) -> FrameReadView {
    read_headers(bytes, 0, None, ended)
}

/// The position behind the first line feed at or after `at`.
fn find_line_end(bytes: &[u8], at: usize) -> (end: Option<usize>)
    requires
        at <= bytes@.len(),
    ensures
        match end {
            Some(end) => line_end(bytes@, at as int) == Some(end as int),
            None => line_end(bytes@, at as int) is None,
        },
{
    let mut i: usize = at;
    while i < bytes.len()
        invariant
            i <= bytes@.len(),
            line_end(bytes@, at as int) == line_end(bytes@, i as int),
        decreases bytes@.len() - i,
    {
        if bytes[i] == 0x0a {
            return Some(i + 1);
        }
        i = i + 1;
    }
    None
}

/// Finds one `Content-Length`-framed message at the start of the bytes.
pub fn read_frame(bytes: &[u8], ended: bool) -> (read: FrameRead)
    ensures
        read@ == framed(bytes@, ended),
{
    let mut at: usize = 0;
    let mut length: Option<usize> = None;
    loop
        invariant
            at <= bytes@.len(),
            framed(bytes@, ended) == read_headers(bytes@, at as int, length, ended),
        decreases bytes@.len() - at,
    {
        let found: Option<usize> = find_line_end(bytes, at);
        if found.is_none() && !ended {
            return FrameRead::Incomplete;
        }
        if at == bytes.len() {
            return if at == 0 {
                FrameRead::Ended
            } else {
                FrameRead::Failed { error: ReadError::EarlyEnd }
            };
        }
        proof {
            lemma_line_end(bytes@, at as int);
        }
        let end: usize = match found {
            Some(end) => end,
            None => bytes.len(),
        };
        let line: &str = match from_utf8(slice_subrange(bytes, at, end)) {
            Ok(line) => line,
            Err(complaint) => {
                return FrameRead::Failed { error: ReadError::NotText { complaint } };
            },
        };
        proof {
            encode_utf8_decode_utf8(line@);
        }
        match read_header(line) {
            HeaderLine::Blank => {
                return match length {
                    None => FrameRead::Failed { error: ReadError::MissingLength },
                    Some(length) => if bytes.len() - end >= length {
                        FrameRead::Frame { start: end, end: end + length }
                    } else if ended {
                        FrameRead::Failed { error: ReadError::EarlyEnd }
                    } else {
                        FrameRead::Incomplete
                    },
                };
            },
            HeaderLine::Length(None) => {
                return FrameRead::Failed { error: ReadError::InvalidLength };
            },
            HeaderLine::Length(Some(named)) => {
                length = Some(named);
            },
            HeaderLine::Other => {},
        }
        at = end;
    }
}

/// What a stream holds so far, as a message.
pub enum ReadStep {
    /// Less than a message.
    Incomplete,
    /// No further message: a clean end of the stream.
    Ended,
    /// A message, which took up this many bytes.
    Message { value: Value, used: usize },
    Failed { error: ReadError },
}

/// The mathematical content of a [`ReadStep`].
#[verifier::ext_equal]
pub enum ReadStepView {
    Incomplete,
    Ended,
    Message { contents: Json, used: int },
    Failed { error: ReadErrorView },
}

impl View for ReadStep {
    type V = ReadStepView;

    open spec fn view(&self) -> ReadStepView {
        match *self {
            ReadStep::Incomplete => ReadStepView::Incomplete,
            ReadStep::Ended => ReadStepView::Ended,
            ReadStep::Message { value, used } => ReadStepView::Message {
                contents: json_contents(value),
                used: used as int,
            },
            ReadStep::Failed { error } => ReadStepView::Failed { error: error@ },
        }
    }
}

/// What a frame holds, given what its body decodes to.
pub open spec fn message_in(frame: FrameReadView, decoded: Result<Json, Seq<char>>) -> ReadStepView {
    match frame {
        FrameReadView::Incomplete => ReadStepView::Incomplete,
        FrameReadView::Ended => ReadStepView::Ended,
        FrameReadView::Frame { start, end } => match decoded {
            Ok(contents) => ReadStepView::Message { contents, used: end },
            Err(complaint) => ReadStepView::Failed { error: ReadErrorView::BadJson { complaint } },
        },
        FrameReadView::Failed { error } => ReadStepView::Failed { error },
    }
}

/// The body of a frame.
pub open spec fn frame_body(bytes: Seq<u8>, frame: FrameReadView) -> Seq<u8> {
    bytes.subrange(frame->start, frame->end)
}

/// What a stream holds so far, as a message.
pub open spec fn message_read(bytes: Seq<u8>, ended: bool) -> ReadStepView {
    message_in(framed(bytes, ended), json_decoding(frame_body(bytes, framed(bytes, ended))))
}

/// The message that a body decodes to, when it took up this many bytes in all.
pub fn decoded_message(decoded: Result<Value, String>, used: usize) -> (step: ReadStep)
    ensures
        step == match decoded {
            Ok(value) => ReadStep::Message { value, used },
            Err(complaint) => ReadStep::Failed { error: ReadError::BadJson { complaint } },
        },
{
    match decoded {
        Ok(value) => ReadStep::Message { value, used },
        Err(complaint) => ReadStep::Failed { error: ReadError::BadJson { complaint } },
    }
}

/// Reads one `Content-Length`-framed message at the start of the bytes. The
/// stream ending before it is a clean end. Ending within it, among its headers or
/// in its body, is an error.
pub fn read_message(bytes: &[u8], ended: bool) -> (step: ReadStep)
    ensures
        step@ == message_read(bytes@, ended),
{
    match read_frame(bytes, ended) {
        FrameRead::Incomplete => ReadStep::Incomplete,
        FrameRead::Ended => ReadStep::Ended,
        FrameRead::Frame { start, end } => {
            proof {
                lemma_frame_within(bytes@, 0, None, ended);
            }
            decoded_message(decode_json(slice_subrange(bytes, start, end)), end)
        },
        FrameRead::Failed { error } => ReadStep::Failed { error },
    }
}

/// A frame that was found lies within the bytes.
pub proof fn lemma_frame_within(bytes: Seq<u8>, at: int, length: Option<usize>, ended: bool)
    ensures
        read_headers(bytes, at, length, ended) matches FrameReadView::Frame { start, end } ==> at
            < start <= end <= bytes.len(),
    decreases bytes.len() - at,
{
    lemma_line_end(bytes, at);
    if 0 <= at < bytes.len() && (line_end(bytes, at) is Some || ended) {
        let end = match line_end(bytes, at) {
            Some(end) => end,
            None => bytes.len() as int,
        };
        if let HeaderLine::Length(Some(named)) = header_of(decode_utf8(bytes.subrange(at, end))) {
            lemma_frame_within(bytes, end, Some(named), ended);
        }
        lemma_frame_within(bytes, end, length, ended);
    }
}

/// The header that announces a body of this length.
pub open spec fn frame_header(length: nat) -> Seq<char> {
    "Content-Length: "@ + decimal(length) + "\r\n\r\n"@
}

/// A body under the header that announces it.
pub open spec fn frame(body: Seq<u8>) -> Seq<u8> {
    encode_utf8(frame_header(body.len())) + body
}

/// The body under the header that announces it.
fn write_frame(body: &Vec<u8>) -> (bytes: Vec<u8>)
    ensures
        bytes@ == frame(body@),
{
    let mut header: String = "Content-Length: ".to_owned();
    push_decimal(&mut header, body.len() as u64);
    vstd::string::StringExecFns::append(&mut header, "\r\n\r\n");
    let mut bytes: Vec<u8> = vstd::slice::slice_to_vec(header.as_str().as_bytes());
    bytes.extend_from_slice(body.as_slice());
    assert(bytes@ =~= frame(body@));
    bytes
}

/// The fields of a request message.
pub open spec fn request_fields(seq: int, command: Seq<char>, args: Option<Json>) -> Map<
    Seq<char>,
    Json,
> {
    let fields = map![
        "seq"@ => Json::Int(seq),
        "type"@ => Json::Text("request"@),
        "command"@ => Json::Text(command),
    ];
    match args {
        Some(args) => fields.insert("arguments"@, args),
        None => fields,
    }
}

/// The bytes of a request, given what its message encodes to.
pub open spec fn written(encoded: Result<Seq<u8>, Seq<char>>) -> Result<Seq<u8>, Seq<char>> {
    match encoded {
        Ok(body) => Ok(frame(body)),
        Err(complaint) => Err(complaint),
    }
}

/// The bytes that a request is sent as.
pub open spec fn request_bytes(seq: int, command: Seq<char>, args: Option<Json>) -> Seq<u8> {
    frame(json_encoding(Json::Object(request_fields(seq, command, args))))
}

/// The content of the bytes of a message, or of the complaint in their place.
pub open spec fn written_view(bytes: Result<Vec<u8>, String>) -> Result<Seq<u8>, Seq<char>> {
    match bytes {
        Ok(bytes) => Ok(bytes@),
        Err(complaint) => Err(complaint@),
    }
}

/// Frames the text of a message, if it has one.
pub fn frame_encoded(encoded: Result<Vec<u8>, String>) -> (bytes: Result<Vec<u8>, String>)
    ensures
        written_view(bytes) == written(written_view(encoded)),
{
    match encoded {
        Ok(body) => Ok(write_frame(&body)),
        Err(complaint) => Err(complaint),
    }
}

/// Encode one `Content-Length`-framed request. It is read back as the message that
/// was written, whatever follows it on the wire, as long as the arguments hold no
/// fractional numbers and are not nested too deep to be read.
pub fn write_message(seq: i64, command: &str, args: Option<Value>) -> (bytes: Result<
    Vec<u8>,
    String,
>)
    ensures
        bytes is Ok,
        bytes->Ok_0@ == request_bytes(seq as int, command@, optional_contents(args)),
        (args is Some ==> plain(json_contents(args->0), 126)) ==> forall|
            tail: Seq<u8>,
            ended: bool,
        | #[trigger]
            message_read(bytes->Ok_0@ + tail, ended) == (ReadStepView::Message {
                contents: Json::Object(
                    request_fields(seq as int, command@, optional_contents(args)),
                ),
                used: bytes->Ok_0@.len() as int,
            }),
{
    let mut fields: Vec<(String, Value)> = vec![
        ("seq".to_owned(), int_value(seq)),
        ("type".to_owned(), text_value("request")),
        ("command".to_owned(), text_value(command)),
    ];
    let ghost three = fields@;
    if let Some(args) = args {
        fields.push(("arguments".to_owned(), args));
    }
    proof {
        reveal_strlit("seq");
        reveal_strlit("type");
        reveal_strlit("command");
        reveal_strlit("arguments");
        assert(three.len() == 3);
        assert(three[0].0@ == "seq"@ && three[1].0@ == "type"@ && three[2].0@ == "command"@);
        assert(fields@.take(3) =~= three);
        assert(args is Some ==> fields@[3].0@ == "arguments"@);
        assert forall|i: int, j: int| 0 <= i < j < fields@.len() implies (
        #[trigger] fields@[i]).0@ != (#[trigger] fields@[j]).0@ by {
            assert(fields@[0] == three[0] && fields@[1] == three[1] && fields@[2] == three[2]);
            assert("seq"@.len() == 3 && "type"@.len() == 4 && "command"@.len() == 7
                && "arguments"@.len() == 9);
        }
        reveal_with_fuel(field_map, 4);
        assert(field_map(three) =~= request_fields(seq as int, command@, None));
        if args is Some {
            assert(fields@.drop_last() =~= three);
        }
        assert(field_map(fields@) =~= request_fields(
            seq as int,
            command@,
            optional_contents(args),
        ));
    }
    let message: Value = object_value(fields);
    let encoded: Result<Vec<u8>, String> = encode_json(&message);
    proof {
        if encoded is Ok {
            let body = encoded->Ok_0@;
            let contents = json_contents(message);
            assert(encoded->Ok_0.len() <= usize::MAX);
            if args is Some ==> plain(json_contents(args->0), 126) {
                let map = request_fields(seq as int, command@, optional_contents(args));
                assert forall|name: Seq<char>| #[trigger] map.contains_key(name) implies plain(
                    map[name],
                    126,
                ) by {
                    reveal_with_fuel(plain, 2);
                }
                assert(plain(contents, 127));
            }
            assert forall|tail: Seq<u8>, ended: bool| #[trigger]
                framed(frame(body) + tail, ended) is Frame && frame_body(
                    frame(body) + tail,
                    framed(frame(body) + tail, ended),
                ) == body && framed(frame(body) + tail, ended)->end == frame(body).len() by {
                law_frame_reads_back(body, tail, ended);
            }
        }
    }
    frame_encoded(encoded)
}

/// What the connection pushes toward the application.
pub enum ConnEvent {
    /// A decoded event (`stopped`, `continued`, `terminated`, …).
    Dap(EventMessage),
    /// The connection ended. Holds the error, or nothing for a clean end.
    Disconnected(Option<String>),
}

/// A command sent from the application to the connection. `T` is the handle that
/// the response is handed to.
pub enum Command<T> {
    Request { command: String, args: Option<Value>, reply: T },
    Disconnect,
}

/// What the task that owns the socket is to do.
pub enum ConnAction<T> {
    /// Write these bytes. A failure to do so ends the connection.
    Send { bytes: Vec<u8> },
    /// Write these bytes. A failure to do so does not matter.
    TrySend { bytes: Vec<u8> },
    /// Hand a response to who asked.
    Deliver { reply: T, response: Response },
    Publish { event: ConnEvent },
    /// Publish a last event and stop.
    Close { event: ConnEvent },
    Nothing,
}

/// What the bytes received so far call for.
pub enum ReadAction<T> {
    /// Nothing, until there are more.
    Wait,
    /// Drop this many bytes and classify the message that they held.
    Classify { value: Value, used: usize },
    Act { action: ConnAction<T> },
}

/// The requests in flight on one connection.
pub struct Connection<T> {
    seq: i64,
    pending: HashMap<i64, T>,
}

/// The mathematical content of a [`Connection`].
#[verifier::ext_equal]
#[verifier::reject_recursive_types(T)]
pub struct ConnectionView<T> {
    /// The number of the last request.
    pub seq: int,
    /// Who awaits the response to which request.
    pub pending: Map<i64, T>,
}

impl<T> View for Connection<T> {
    type V = ConnectionView<T>;

    closed spec fn view(&self) -> ConnectionView<T> {
        ConnectionView { seq: self.seq as int, pending: self.pending@ }
    }
}

impl<T> ConnectionView<T> {
    /// Only numbers that were given out are awaited.
    pub open spec fn well_formed(self) -> bool {
        &&& 0 <= self.seq
        &&& forall|n: i64| #[trigger] self.pending.contains_key(n) ==> 1 <= n <= self.seq
    }

    /// The connection after one more message was numbered.
    pub open spec fn numbered(self) -> ConnectionView<T> {
        ConnectionView { seq: self.seq + 1, ..self }
    }

    /// The connection after a request was numbered and its sender noted.
    pub open spec fn awaiting(self, reply: T) -> ConnectionView<T> {
        ConnectionView {
            seq: self.seq + 1,
            pending: self.pending.insert((self.seq + 1) as i64, reply),
        }
    }

    /// The connection after the response to a request arrived.
    pub open spec fn answered(self, number: i64) -> ConnectionView<T> {
        ConnectionView { pending: self.pending.remove(number), ..self }
    }
}

/// The connection after a command of the application.
pub open spec fn connection_after_command<T>(
    connection: ConnectionView<T>,
    command: Command<T>,
) -> ConnectionView<T> {
    match command {
        Command::Request { command, args, reply } => connection.awaiting(reply),
        Command::Disconnect => connection.numbered(),
    }
}

/// Whether this is what reading the stream calls for.
pub open spec fn read_calls_for<T>(step: ReadStep, next: ReadAction<T>) -> bool {
    match step {
        ReadStep::Incomplete => next == ReadAction::<T>::Wait,
        ReadStep::Message { value, used } => next == (ReadAction::<T>::Classify { value, used }),
        ReadStep::Ended => next == (ReadAction::<T>::Act {
            action: ConnAction::Close { event: ConnEvent::Disconnected(None) },
        }),
        ReadStep::Failed { error } => next matches ReadAction::Act {
            action: ConnAction::Close { event: ConnEvent::Disconnected(Some(text)) },
        } && text@ == error@.text(),
    }
}

/// The connection after a message of the adapter.
pub open spec fn connection_after<T>(
    connection: ConnectionView<T>,
    message: Option<Inbound>,
) -> ConnectionView<T> {
    match message {
        Some(Inbound::Response(response)) => connection.answered(response.request_seq),
        _ => connection,
    }
}

/// What a message of the adapter calls for.
pub open spec fn message_action<T>(
    connection: ConnectionView<T>,
    message: Option<Inbound>,
) -> ConnAction<T> {
    match message {
        Some(Inbound::Response(response)) => if connection.pending.contains_key(
            response.request_seq,
        ) {
            ConnAction::Deliver { reply: connection.pending[response.request_seq], response }
        } else {
            ConnAction::Nothing
        },
        Some(Inbound::Event(event)) => ConnAction::Publish { event: ConnEvent::Dap(event) },
        _ => ConnAction::Nothing,
    }
}

/// Whether the action is what a command calls for, when it was numbered `seq`: its
/// message is sent. Failing to send a request ends the connection, failing to send
/// a disconnect does not matter.
pub open spec fn command_action<T>(seq: int, command: Command<T>, action: ConnAction<T>) -> bool {
    match command {
        Command::Request { command, args, reply } => action matches ConnAction::Send { bytes }
            && bytes@ == request_bytes(seq, command@, optional_contents(args)),
        Command::Disconnect => action matches ConnAction::TrySend { bytes } && bytes@
            == request_bytes(seq, "disconnect"@, Some(Json::Object(Map::empty()))),
    }
}

impl<T> Connection<T> {
    pub fn new() -> (connection: Self)
        ensures
            connection@ == (ConnectionView::<T> { seq: 0, pending: Map::empty() }),
            connection@.well_formed(),
    {
        broadcast use vstd::std_specs::hash::group_hash_axioms;

        Connection { seq: 0, pending: HashMap::new() }
    }

    /// The number of the last message sent.
    pub fn last_number(&self) -> (number: i64)
        ensures
            number == self@.seq,
    {
        self.seq
    }

    /// Take one command of the application.
    pub fn on_command(&mut self, command: Command<T>) -> (action: ConnAction<T>)
        requires
            old(self)@.seq < i64::MAX,
        ensures
            final(self)@ == connection_after_command(old(self)@, command),
            command_action(final(self)@.seq, command, action),
            old(self)@.well_formed() ==> final(self)@.well_formed(),
    {
        broadcast use vstd::std_specs::hash::group_hash_axioms;

        self.seq = self.seq + 1;
        assert(old(self)@.well_formed() ==> old(self)@.numbered().well_formed());
        match command {
            Command::Request { command, args, reply } => {
                self.pending.insert(self.seq, reply);
                assert(old(self)@.well_formed() ==> self@.well_formed());
                match write_message(self.seq, command.as_str(), args) {
                    Ok(bytes) => ConnAction::Send { bytes },
                    Err(complaint) => ConnAction::Close {
                        event: ConnEvent::Disconnected(Some(complaint)),
                    },
                }
            },
            Command::Disconnect => {
                let fields: Vec<(String, Value)> = Vec::new();
                match write_message(self.seq, "disconnect", Some(object_value(fields))) {
                    Ok(bytes) => ConnAction::TrySend { bytes },
                    Err(_) => ConnAction::Nothing,
                }
            },
        }
    }

    /// Take one message of the adapter, or nothing when it could not be
    /// classified. Reverse requests are meant for the client driving the session,
    /// so they are ignored, as is what could not be classified and a response
    /// that nobody awaits.
    pub fn on_message(&mut self, message: Option<Inbound>) -> (action: ConnAction<T>)
        ensures
            final(self)@ == connection_after(old(self)@, message),
            action == message_action(old(self)@, message),
            old(self)@.well_formed() ==> final(self)@.well_formed(),
    {
        broadcast use vstd::std_specs::hash::group_hash_axioms;

        match message {
            Some(Inbound::Response(response)) => match self.pending.remove(&response.request_seq) {
                Some(reply) => ConnAction::Deliver { reply, response },
                None => ConnAction::Nothing,
            },
            Some(Inbound::Event(event)) => ConnAction::Publish { event: ConnEvent::Dap(event) },
            _ => ConnAction::Nothing,
        }
    }

    /// Take what reading the stream gave. A message is to be classified and handed
    /// to [`Connection::on_message`]. A clean end and an error close the
    /// connection.
    pub fn on_read(&self, step: ReadStep) -> (next: ReadAction<T>)
        ensures
            read_calls_for(step, next),
    {
        match step {
            ReadStep::Incomplete => ReadAction::Wait,
            ReadStep::Message { value, used } => ReadAction::Classify { value, used },
            ReadStep::Ended => ReadAction::Act { action: self.on_end(None) },
            ReadStep::Failed { error } => ReadAction::Act {
                action: self.on_end(Some(error.text())),
            },
        }
    }

    /// The stream ended, or reading or writing it failed.
    pub fn on_end(&self, error: Option<String>) -> (action: ConnAction<T>)
        ensures
            action == (ConnAction::<T>::Close { event: ConnEvent::Disconnected(error) }),
    {
        ConnAction::Close { event: ConnEvent::Disconnected(error) }
    }
}

} // verus!
