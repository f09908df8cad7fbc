//! The debug protocol's messages, reduced to what the engine reads of them.

use crate::json::{optional_contents, Json};
use serde_json::Value;
use vstd::prelude::*;

verus! {

/// Where the debugged program is in its life.
#[derive(Clone, Copy, Debug, PartialEq, Eq, Structural)]
pub enum SessionState {
    /// Connected, with no stop or resume seen yet.
    Connecting,
    Running,
    Stopped,
    Ended,
}

/// The source file of a stack frame.
pub struct Source {
    pub name: Option<String>,
    pub path: Option<String>,
}

/// One frame of a call stack.
pub struct StackFrame {
    pub id: i64,
    pub name: String,
    pub line: i64,
    pub source: Option<Source>,
}

/// The body of a `stopped` event.
pub struct StoppedBody {
    pub reason: String,
    pub thread_id: Option<i64>,
}

impl Default for StoppedBody {
    /// The body assumed when the event carries none that can be read.
    fn default() -> (body: StoppedBody)
        ensures
            body.reason@ == Seq::<char>::empty(),
            body.thread_id is None,
    {
        StoppedBody { reason: String::new(), thread_id: None }
    }
}

/// An event that the adapter broadcast.
pub struct EventMessage {
    pub event: String,
    /// The body, when the event has one that reads as the body of a stop.
    pub body: Option<StoppedBody>,
}

/// A request to the adapter.
pub struct Request {
    pub command: String,
    pub args: Option<Value>,
}

/// The mathematical content of a [`Request`].
#[verifier::ext_equal]
pub struct RequestView {
    pub command: Seq<char>,
    pub args: Option<Json>,
}

impl View for Request {
    type V = RequestView;

    open spec fn view(&self) -> RequestView {
        RequestView { command: self.command@, args: optional_contents(self.args) }
    }
}

/// The adapter's answer to a request.
pub struct Response {
    /// The number of the request that this answers.
    pub request_seq: i64,
    pub success: bool,
    /// Why the request failed, when the adapter says.
    pub message: Option<String>,
    pub body: Option<Value>,
}

/// The body of a successful `evaluate` response.
pub struct EvaluateBody {
    pub result: String,
    pub ty: Option<String>,
}

/// A thread that the adapter reports.
pub struct Thread {
    pub id: i64,
    pub name: String,
}

/// A message from the adapter.
pub enum Inbound {
    Response(Response),
    Event(EventMessage),
    /// A reverse request, meant for the client that drives the session.
    Request,
}

} // verus!
