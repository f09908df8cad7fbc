//! The REPL engine. It tracks session and frame state, and builds and reads the
//! requests that evaluate expressions and drive execution. Every function returns
//! data instead of printing, so the front-end owns all input and output.

use crate::json::{distinct_names, field_map, int_value, object_value, text_value, Json};
use crate::model::optional_text;
use crate::text::join2;
use crate::types::{EvaluateBody, Request, RequestView, SessionState, StackFrame, Thread};
use serde_json::Value;
use vstd::prelude::*;

verus! {

/// Session state, the stopped thread, and the frames an expression can target.
pub struct Session {
    pub state: SessionState,
    thread_id: Option<i64>,
    stack: Vec<StackFrame>,
    selected: usize,
}

/// The mathematical content of a [`Session`].
#[verifier::ext_equal]
pub struct SessionView {
    pub state: SessionState,
    pub thread_id: Option<i64>,
    pub stack: Seq<StackFrame>,
    pub selected: int,
}

impl View for Session {
    type V = SessionView;

    closed spec fn view(&self) -> SessionView {
        SessionView {
            state: self.state,
            thread_id: self.thread_id,
            stack: self.stack@,
            selected: self.selected as int,
        }
    }
}

/// What resolving a stop needs next.
pub enum StopStep {
    /// The threads of the program, to find the stopped one.
    Threads,
    /// The call stack of a thread.
    Stack { thread_id: i64 },
    /// Nothing more.
    Resolved,
}

impl SessionView {
    /// The selection is a frame of the stack, or the first when there is none.
    pub open spec fn well_formed(self) -> bool {
        0 <= self.selected && (self.selected < self.stack.len() || self.selected == 0)
    }

    /// The selected frame, or nothing when there is none.
    pub open spec fn current_frame(self) -> Option<StackFrame> {
        if 0 <= self.selected < self.stack.len() {
            Some(self.stack[self.selected])
        } else {
            None
        }
    }

    /// The id of the selected frame, or nothing when there is none.
    pub open spec fn frame_id(self) -> Option<i64> {
        match self.current_frame() {
            Some(frame) => Some(frame.id),
            None => None,
        }
    }

    /// The session without its frames.
    pub open spec fn without_frames(self, state: SessionState) -> SessionView {
        SessionView { state, stack: Seq::empty(), selected: 0, ..self }
    }

    /// The session at the top of a call stack.
    pub open spec fn at_top_of(self, stack: Seq<StackFrame>) -> SessionView {
        SessionView { stack, selected: 0, ..self }
    }

    /// The session at the start of a stop, before its frames are known. The thread
    /// of the last stop stands until another is named.
    pub open spec fn stopping(self, thread_hint: Option<i64>) -> SessionView {
        SessionView {
            thread_id: if thread_hint is Some {
                thread_hint
            } else {
                self.thread_id
            },
            ..self.without_frames(SessionState::Stopped)
        }
    }

    /// The session stopped on the first of these threads.
    pub open spec fn on_first_thread(self, threads: Seq<Thread>) -> SessionView {
        SessionView {
            thread_id: if threads.len() > 0 {
                Some(threads[0].id)
            } else {
                None
            },
            ..self
        }
    }

    /// The session after its end.
    pub open spec fn ended(self) -> SessionView {
        SessionView { thread_id: None, ..self.without_frames(SessionState::Ended) }
    }

    /// The session with another frame selected.
    pub open spec fn selecting(self, index: int) -> SessionView {
        SessionView { selected: index, ..self }
    }
}

/// The session before anything is known of the program.
pub open spec fn initial_session() -> SessionView {
    SessionView {
        state: SessionState::Connecting,
        thread_id: None,
        stack: Seq::empty(),
        selected: 0,
    }
}

impl Session {
    pub fn new() -> (session: Self)
        ensures
            session@ == initial_session(),
            session@.well_formed(),
    {
        Session { state: SessionState::Connecting, thread_id: None, stack: Vec::new(), selected: 0 }
    }

    /// Where the program is in its life.
    pub fn state(&self) -> (state: SessionState)
        ensures
            state == self@.state,
    {
        self.state
    }

    /// The frame an expression evaluates against, or nothing when there is none.
    /// The adapter only keeps frame references valid while the program is
    /// stopped, so the stack empties when it resumes.
    pub fn frame_id(&self) -> (id: Option<i64>)
        ensures
            id == self@.frame_id(),
    {
        match self.current_frame() {
            Some(frame) => Some(frame.id),
            None => None,
        }
    }

    /// The frame currently selected for navigation and evaluation.
    pub fn current_frame(&self) -> (frame: Option<&StackFrame>)
        ensures
            match frame {
                Some(frame) => self@.current_frame() == Some(*frame),
                None => self@.current_frame() is None,
            },
    {
        if self.selected < self.stack.len() {
            Some(&self.stack[self.selected])
        } else {
            None
        }
    }

    pub fn stack(&self) -> (stack: &[StackFrame])
        ensures
            stack@ == self@.stack,
    {
        self.stack.as_slice()
    }

    pub fn selected(&self) -> (selected: usize)
        ensures
            selected == self@.selected,
    {
        self.selected
    }

    pub fn thread_id(&self) -> (id: Option<i64>)
        ensures
            id == self@.thread_id,
    {
        self.thread_id
    }

    /// Begin to resolve a stop. The thread comes from the event when it carries
    /// one, otherwise from the first thread the adapter reports. Until then the
    /// thread of the last stop stands.
    pub fn on_stopped(&mut self, thread_hint: Option<i64>) -> (next: StopStep)
        ensures
            final(self)@ == old(self)@.stopping(thread_hint),
            final(self)@.well_formed(),
            next == match thread_hint {
                Some(thread_id) => StopStep::Stack { thread_id },
                None => StopStep::Threads,
            },
    {
        self.state = SessionState::Stopped;
        self.stack = Vec::new();
        self.selected = 0;
        match thread_hint {
            Some(thread_id) => {
                self.thread_id = Some(thread_id);
                StopStep::Stack { thread_id }
            },
            None => StopStep::Threads,
        }
    }

    /// Take the first reported thread as the stopped one.
    pub fn on_threads(&mut self, threads: &Vec<Thread>) -> (next: StopStep)
        ensures
            final(self)@ == old(self)@.on_first_thread(threads@),
            old(self)@.well_formed() ==> final(self)@.well_formed(),
            next == if threads@.len() > 0 {
                StopStep::Stack { thread_id: threads@[0].id }
            } else {
                StopStep::Resolved
            },
    {
        if threads.len() > 0 {
            let thread_id: i64 = threads[0].id;
            self.thread_id = Some(thread_id);
            StopStep::Stack { thread_id }
        } else {
            self.thread_id = None;
            StopStep::Resolved
        }
    }

    /// Take the call stack of the stopped thread, selecting the top frame.
    pub fn on_stack(&mut self, frames: Vec<StackFrame>)
        ensures
            final(self)@ == old(self)@.at_top_of(frames@),
            final(self)@.well_formed(),
    {
        self.stack = frames;
        self.selected = 0;
    }

    /// The program resumed. A thread keeps its identity across a resume, so
    /// pausing still has a target. Frame references do not, so the stack is
    /// dropped.
    pub fn on_continued(&mut self)
        ensures
            final(self)@ == old(self)@.without_frames(SessionState::Running),
            final(self)@.well_formed(),
    {
        self.state = SessionState::Running;
        self.stack = Vec::new();
        self.selected = 0;
    }

    /// The session is over.
    pub fn on_ended(&mut self)
        ensures
            final(self)@ == old(self)@.ended(),
            final(self)@.well_formed(),
    {
        self.state = SessionState::Ended;
        self.thread_id = None;
        self.stack = Vec::new();
        self.selected = 0;
    }

    /// Select the caller of the current frame. False at the outermost frame.
    pub fn select_up(&mut self) -> (moved: bool)
        ensures
            moved == (old(self)@.selected + 1 < old(self)@.stack.len()),
            final(self)@ == old(self)@.selecting(
                if moved {
                    old(self)@.selected + 1
                } else {
                    old(self)@.selected
                },
            ),
            old(self)@.well_formed() ==> final(self)@.well_formed(),
    {
        if self.selected < self.stack.len() && self.selected + 1 < self.stack.len() {
            self.selected = self.selected + 1;
            true
        } else {
            false
        }
    }

    /// Select the callee of the current frame. False at the innermost frame.
    pub fn select_down(&mut self) -> (moved: bool)
        ensures
            moved == (old(self)@.selected > 0),
            final(self)@ == old(self)@.selecting(
                if moved {
                    old(self)@.selected - 1
                } else {
                    old(self)@.selected
                },
            ),
            old(self)@.well_formed() ==> final(self)@.well_formed(),
    {
        if self.selected > 0 {
            self.selected = self.selected - 1;
            true
        } else {
            false
        }
    }

    /// Select a frame by index. False when the index is past the stack.
    pub fn select_index(&mut self, index: usize) -> (moved: bool)
        ensures
            moved == (index < old(self)@.stack.len()),
            final(self)@ == old(self)@.selecting(
                if moved {
                    index as int
                } else {
                    old(self)@.selected
                },
            ),
            old(self)@.well_formed() ==> final(self)@.well_formed(),
    {
        if index < self.stack.len() {
            self.selected = index;
            true
        } else {
            false
        }
    }
}

impl Default for Session {
    fn default() -> (session: Self)
        ensures
            session@ == initial_session(),
    {
        Self::new()
    }
}

/// The outcome of an evaluation. It holds the value the adapter rendered and a
/// type when the adapter provides one.
pub struct Evaluated {
    pub result: String,
    pub ty: Option<String>,
}

/// What an `evaluate` request asks for.
pub open spec fn evaluate_fields(expression: Seq<char>, frame_id: i64) -> Map<Seq<char>, Json> {
    map![
        "expression"@ => Json::Text(expression),
        "frameId"@ => Json::Int(frame_id as int),
        "context"@ => Json::Text("repl"@),
    ]
}

/// The request that evaluates a user-typed expression in the given frame, in the
/// protocol's repl context.
///
/// That context is not sandboxed. A typed expression can assign to variables or
/// call functions, so evaluating one can change the running program.
pub fn evaluate(expression: &str, frame_id: i64) -> (request: Request)
    ensures
        request@ == (RequestView {
            command: "evaluate"@,
            args: Some(Json::Object(evaluate_fields(expression@, frame_id))),
        }),
{
    let fields: Vec<(String, Value)> = vec![
        ("expression".to_owned(), text_value(expression)),
        ("frameId".to_owned(), int_value(frame_id)),
        ("context".to_owned(), text_value("repl")),
    ];
    proof {
        reveal_strlit("expression");
        reveal_strlit("frameId");
        reveal_strlit("context");
        assert("frameId"@[0] != "context"@[0]);
        assert(distinct_names(fields@)) by {
            assert(fields@[0].0@.len() == 10);
            assert(fields@[1].0@ == "frameId"@);
            assert(fields@[2].0@ == "context"@);
        }
        reveal_with_fuel(field_map, 4);
        assert(field_map(fields@) =~= evaluate_fields(expression@, frame_id));
    }
    Request { command: "evaluate".to_owned(), args: Some(object_value(fields)) }
}

/// What a request about one thread asks for.
pub open spec fn thread_fields(thread_id: i64) -> Map<Seq<char>, Json> {
    map!["threadId"@ => Json::Int(thread_id as int)]
}

/// A request about one thread.
fn thread_request(command: &str, thread_id: i64) -> (request: Request)
    ensures
        request@ == (RequestView {
            command: command@,
            args: Some(Json::Object(thread_fields(thread_id))),
        }),
{
    let fields: Vec<(String, Value)> = vec![("threadId".to_owned(), int_value(thread_id))];
    proof {
        reveal_with_fuel(field_map, 2);
        assert(field_map(fields@) =~= thread_fields(thread_id));
    }
    Request { command: command.to_owned(), args: Some(object_value(fields)) }
}

/// The request that drives execution of the stopped thread. The command is a
/// run-control request such as continue, next, stepIn, stepOut, or pause. The
/// resulting stop or resume arrives later as a broadcast event.
pub fn drive(command: &str, thread_id: i64) -> (request: Request)
    ensures
        request@ == (RequestView {
            command: command@,
            args: Some(Json::Object(thread_fields(thread_id))),
        }),
{
    thread_request(command, thread_id)
}

/// The request for a thread's full call stack.
pub fn fetch_stack(thread_id: i64) -> (request: Request)
    ensures
        request@ == (RequestView {
            command: "stackTrace"@,
            args: Some(Json::Object(thread_fields(thread_id))),
        }),
{
    thread_request("stackTrace", thread_id)
}

/// The request for the program's threads.
pub fn fetch_threads() -> (request: Request)
    ensures
        request@ == (RequestView {
            command: "threads"@,
            args: Some(Json::Object(Map::empty())),
        }),
{
    let fields: Vec<(String, Value)> = Vec::new();
    Request { command: "threads".to_owned(), args: Some(object_value(fields)) }
}

/// Why a failed request failed: what the adapter says, else that it did.
pub open spec fn failure(command: Seq<char>, message: Option<Seq<char>>) -> Seq<char> {
    match message {
        Some(message) => message,
        None => command + " failed"@,
    }
}

/// Why a failed request failed.
fn failure_text(command: &str, message: Option<String>) -> (text: String)
    ensures
        text@ == failure(command@, optional_text(message)),
{
    match message {
        Some(message) => message,
        None => join2(command, " failed"),
    }
}

/// An adapter's answer to a request, with its body read, or why that could not be.
pub struct Answer<B> {
    pub success: bool,
    /// Why the request failed, when the adapter says.
    pub message: Option<String>,
    pub body: Result<B, String>,
}

/// Reads the answer to an `evaluate` request.
pub fn evaluate_reply(answer: Answer<EvaluateBody>) -> (result: Result<Evaluated, String>)
    ensures
        !answer.success ==> result is Err && result->Err_0@ == failure(
            "evaluate"@,
            optional_text(answer.message),
        ),
        answer.success ==> match answer.body {
            Ok(body) => result is Ok && result->Ok_0.result == body.result && result->Ok_0.ty
                == body.ty,
            Err(error) => result is Err && result->Err_0 == error,
        },
{
    if !answer.success {
        return Err(failure_text("evaluate", answer.message));
    }
    match answer.body {
        Ok(body) => Ok(Evaluated { result: body.result, ty: body.ty }),
        Err(error) => Err(error),
    }
}

/// Reads the answer to a run-control request, whose body does not matter.
pub fn drive_reply(command: &str, success: bool, message: Option<String>) -> (result: Result<
    (),
    String,
>)
    ensures
        success ==> result is Ok,
        !success ==> result is Err && result->Err_0@ == failure(command@, optional_text(message)),
{
    if success {
        Ok(())
    } else {
        Err(failure_text(command, message))
    }
}

/// Reads the answer to a `stackTrace` request. A stale request after the program
/// resumed underneath yields an empty stack rather than an error.
pub fn stack_reply(answer: Answer<Vec<StackFrame>>) -> (result: Result<Vec<StackFrame>, String>)
    ensures
        !answer.success ==> result is Ok && result->Ok_0@ == Seq::<StackFrame>::empty(),
        answer.success ==> result == answer.body,
{
    if answer.success {
        answer.body
    } else {
        Ok(Vec::new())
    }
}

} // verus!
