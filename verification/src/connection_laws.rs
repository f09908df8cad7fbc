//! What a connection promises across requests and responses: each response reaches
//! who asked, and only once.

use crate::json::{json_contents, json_encoding, optional_contents, Json};
use crate::transport::{
    command_action, connection_after, connection_after_command, frame, message_action,
    read_calls_for, request_fields, Command, ConnAction, ConnEvent, ConnectionView, ReadAction,
    ReadError, ReadStep,
};
use crate::types::{Inbound, Response};
use vstd::prelude::*;

verus! {

/// Something that changes which requests are in flight.
pub enum Traffic<T> {
    /// A request was sent on behalf of this one.
    Request { reply: T },
    /// A disconnect was sent.
    Disconnect,
    /// A response to the request of this number arrived.
    Response { number: i64 },
}

/// The connection after one message went out or came in.
pub open spec fn after<T>(connection: ConnectionView<T>, traffic: Traffic<T>) -> ConnectionView<T> {
    match traffic {
        Traffic::Request { reply } => connection.awaiting(reply),
        Traffic::Disconnect => connection.numbered(),
        Traffic::Response { number } => connection.answered(number),
    }
}

/// The connection after several messages, the first one first.
pub open spec fn after_all<T>(
    connection: ConnectionView<T>,
    traffic: Seq<Traffic<T>>,
) -> ConnectionView<T>
    decreases traffic.len(),
{
    if traffic.len() == 0 {
        connection
    } else {
        after(after_all(connection, traffic.drop_last()), traffic.last())
    }
}

/// Only numbers that were given out are ever awaited, as long as there are numbers
/// to give out.
pub proof fn law_only_given_numbers_are_awaited<T>(
    connection: ConnectionView<T>,
    traffic: Seq<Traffic<T>>,
)
    requires
        connection.well_formed(),
        connection.seq + traffic.len() <= i64::MAX,
    ensures
        after_all(connection, traffic).well_formed(),
        connection.seq <= after_all(connection, traffic).seq <= connection.seq + traffic.len(),
    decreases traffic.len(),
{
    if traffic.len() > 0 {
        law_only_given_numbers_are_awaited(connection, traffic.drop_last());
    }
}

/// A request gets a number that nobody awaits yet, so it takes no one's place.
pub proof fn law_numbers_are_fresh<T>(connection: ConnectionView<T>, reply: T)
    requires
        connection.well_formed(),
        connection.seq < i64::MAX,
    ensures
        !connection.pending.contains_key((connection.seq + 1) as i64),
        forall|n: i64| #[trigger]
            connection.pending.contains_key(n) ==> connection.awaiting(reply).pending.contains_key(n)
                && connection.awaiting(reply).pending[n] == connection.pending[n],
{
}

/// A request is awaited by who sent it, whatever else goes out or comes in, until
/// its own response does.
pub proof fn law_a_request_awaits_its_response<T>(
    connection: ConnectionView<T>,
    reply: T,
    traffic: Seq<Traffic<T>>,
)
    requires
        connection.well_formed(),
        connection.seq + 1 + traffic.len() <= i64::MAX,
        forall|i: int|
            0 <= i < traffic.len() ==> #[trigger] traffic[i] != (Traffic::<T>::Response {
                number: (connection.seq + 1) as i64,
            }),
    ensures
        ({
            let pending = after_all(connection.awaiting(reply), traffic).pending;
            let number = (connection.seq + 1) as i64;
            pending.contains_key(number) && pending[number] == reply
        }),
    decreases traffic.len(),
{
    if traffic.len() > 0 {
        let earlier = traffic.drop_last();
        assert forall|i: int| 0 <= i < earlier.len() implies #[trigger] earlier[i] != (Traffic::<
            T,
        >::Response { number: (connection.seq + 1) as i64 }) by {
            assert(earlier[i] == traffic[i]);
        }
        law_a_request_awaits_its_response(connection, reply, earlier);
        law_only_given_numbers_are_awaited(connection.awaiting(reply), earlier);
        assert(traffic.last() == traffic[traffic.len() - 1]);
    }
}

/// A number that was given out is not awaited again once its response arrived, so
/// no request is answered twice.
pub proof fn law_a_request_is_answered_once<T>(
    connection: ConnectionView<T>,
    number: i64,
    traffic: Seq<Traffic<T>>,
)
    requires
        connection.well_formed(),
        number <= connection.seq,
        connection.seq + traffic.len() <= i64::MAX,
    ensures
        !after_all(connection.answered(number), traffic).pending.contains_key(number),
    decreases traffic.len(),
{
    if traffic.len() > 0 {
        law_a_request_is_answered_once(connection, number, traffic.drop_last());
        law_only_given_numbers_are_awaited(connection.answered(number), traffic.drop_last());
    }
}

/// A command takes the next number, and a request is awaited under it by who sent it.
/// Nothing else that is awaited changes.
pub proof fn law_a_command_takes_the_next_number<T>(
    connection: ConnectionView<T>,
    command: Command<T>,
    n: i64,
)
    requires
        connection.well_formed(),
        connection.seq < i64::MAX,
    ensures
        ({
            let after = connection_after_command(connection, command);
            &&& after.seq == connection.seq + 1
            &&& match command {
                Command::Request { command, args, reply } => {
                    &&& after.pending.contains_key((connection.seq + 1) as i64)
                    &&& after.pending[(connection.seq + 1) as i64] == reply
                    &&& n != connection.seq + 1 ==> after.pending.contains_key(n)
                        == connection.pending.contains_key(n)
                },
                Command::Disconnect => after.pending == connection.pending,
            }
            &&& connection.pending.contains_key(n) ==> after.pending.contains_key(n)
                && after.pending[n] == connection.pending[n]
        }),
{
}

/// The fields of the message that a request is sent as.
pub open spec fn message_fields(seq: int, command: Seq<char>, args: Option<Json>) -> Map<
    Seq<char>,
    Json,
> {
    let always = Map::<Seq<char>, Json>::empty().insert("seq"@, Json::Int(seq)).insert(
        "type"@,
        Json::Text("request"@),
    ).insert("command"@, Json::Text(command));
    match args {
        Some(args) => always.insert("arguments"@, args),
        None => always,
    }
}

/// What is sent for a command is its message under its number: the command that was
/// asked for with its arguments, or a disconnect. It is sent for every request, and
/// only that of a request matters when it cannot be sent.
pub proof fn law_a_command_is_sent_as_its_message<T>(
    seq: int,
    command: Command<T>,
    action: ConnAction<T>,
)
    requires
        command_action(seq, command, action),
    ensures
        match command {
            Command::Request { command, args, reply } => action matches ConnAction::Send { bytes }
                && bytes@ == frame(
                json_encoding(
                    Json::Object(
                        message_fields(
                            seq,
                            command@,
                            match args {
                                Some(args) => Some(json_contents(args)),
                                None => None,
                            },
                        ),
                    ),
                ),
            ),
            Command::Disconnect => action matches ConnAction::TrySend { bytes } && bytes@ == frame(
                json_encoding(
                    Json::Object(
                        message_fields(seq, "disconnect"@, Some(Json::Object(Map::empty()))),
                    ),
                ),
            ),
        },
{
    match command {
        Command::Request { command, args, reply } => {
            let contents = optional_contents(args);
            assert(request_fields(seq, command@, contents) =~= message_fields(
                seq,
                command@,
                contents,
            ));
        },
        Command::Disconnect => {
            let none = Some(Json::Object(Map::empty()));
            assert(request_fields(seq, "disconnect"@, none) =~= message_fields(
                seq,
                "disconnect"@,
                none,
            ));
        },
    }
}

/// The response to a request is delivered to who sent it, as it came, whatever else
/// went out or came in meanwhile, and whatever it says. Then nobody awaits it, and
/// everyone else still does.
pub proof fn law_a_response_is_delivered<T>(
    connection: ConnectionView<T>,
    reply: T,
    traffic: Seq<Traffic<T>>,
    response: Response,
    n: i64,
)
    requires
        connection.well_formed(),
        connection.seq + 1 + traffic.len() <= i64::MAX,
        forall|i: int|
            0 <= i < traffic.len() ==> #[trigger] traffic[i] != (Traffic::<T>::Response {
                number: (connection.seq + 1) as i64,
            }),
        response.request_seq == connection.seq + 1,
    ensures
        ({
            let waiting = after_all(connection.awaiting(reply), traffic);
            let message = Some(Inbound::Response(response));
            let after = connection_after(waiting, message);
            &&& message_action(waiting, message) == (ConnAction::Deliver { reply, response })
            &&& !after.pending.contains_key(response.request_seq)
            &&& after.seq == waiting.seq
            &&& n != response.request_seq ==> {
                &&& after.pending.contains_key(n) == waiting.pending.contains_key(n)
                &&& waiting.pending.contains_key(n) ==> after.pending[n] == waiting.pending[n]
            }
        }),
{
    law_a_request_awaits_its_response(connection, reply, traffic);
}

/// Events are published as they came. Requests of the adapter, what cannot be told,
/// and responses that nobody awaits are let go. None of them changes what is awaited.
pub proof fn law_other_messages_answer_nobody<T>(
    connection: ConnectionView<T>,
    message: Option<Inbound>,
)
    requires
        message matches Some(Inbound::Response(response))
            ==> !connection.pending.contains_key(response.request_seq),
    ensures
        connection_after(connection, message).seq == connection.seq,
        connection_after(connection, message).pending == connection.pending,
        message_action(connection, message) == match message {
            Some(Inbound::Event(event)) => ConnAction::<T>::Publish {
                event: ConnEvent::Dap(event),
            },
            _ => ConnAction::Nothing,
        },
{
    assert(connection_after(connection, message).pending =~= connection.pending);
}

/// The connection is closed exactly when the stream ended or cannot be read, and only
/// a clean end goes without a reason. A message is handed on whole, and with less
/// than one nothing is done.
pub proof fn law_only_a_clean_end_has_no_reason<T>(step: ReadStep, next: ReadAction<T>)
    requires
        read_calls_for(step, next),
    ensures
        match next {
            ReadAction::Wait => step is Incomplete,
            ReadAction::Classify { value, used } => step == (ReadStep::Message { value, used }),
            ReadAction::Act {
                action: ConnAction::Close { event: ConnEvent::Disconnected(None) },
            } => step is Ended,
            ReadAction::Act {
                action: ConnAction::Close { event: ConnEvent::Disconnected(Some(text)) },
            } => step matches ReadStep::Failed { error } && text@ == match error {
                ReadError::NotText { complaint } => complaint@,
                ReadError::InvalidLength => "invalid Content-Length"@,
                ReadError::MissingLength => "message missing Content-Length header"@,
                ReadError::EarlyEnd => "early eof"@,
                ReadError::BadJson { complaint } => complaint@,
            },
            _ => false,
        },
{
}

} // verus!
