//! Turns each input line and each adapter event into an outcome, or into the
//! request whose answer decides it. This layer updates session state but writes
//! nothing. Output is a separate rendering step.

use crate::model::optional_text;
use crate::repl::{
    drive as drive_request, evaluate as evaluate_request, evaluate_fields, thread_fields, Evaluated,
    Session, SessionView, StopStep,
};
use crate::json::Json;
use crate::text::{
    after_first_word, decimal, first_word, join3, numeral_value, parse_usize, push_decimal,
    same_text, split_word, strip_char, trim, trimmed,
};
use crate::types::{
    EventMessage, Request, RequestView, SessionState, StackFrame, StoppedBody,
};
use crate::update::{
    evaluation_unavailable_reason, is_command, stop_reason, stop_thread, unavailable_reason,
};
use crate::views::views;
use vstd::prelude::*;
use vstd::string::StringExecFns;

verus! {

/// A stack frame reduced to what the front-end shows about it.
pub struct FrameView {
    pub name: String,
    pub line: i64,
}

/// The mathematical content of a [`FrameView`].
#[verifier::ext_equal]
pub struct FrameLine {
    pub name: Seq<char>,
    pub line: i64,
}

impl View for FrameView {
    type V = FrameLine;

    open spec fn view(&self) -> FrameLine {
        FrameLine { name: self.name@, line: self.line }
    }
}

/// What is shown of a stack frame.
pub open spec fn frame_line(frame: StackFrame) -> FrameLine {
    FrameLine { name: frame.name@, line: frame.line }
}

/// What is shown of a call stack.
pub open spec fn frame_lines(stack: Seq<StackFrame>) -> Seq<FrameLine> {
    Seq::new(stack.len(), |i: int| frame_line(stack[i]))
}

impl FrameView {
    fn of(frame: &StackFrame) -> (shown: Self)
        ensures
            shown@ == frame_line(*frame),
    {
        FrameView { name: frame.name.clone(), line: frame.line }
    }
}

/// What deciding one input line or one adapter event produced. Variants carry the
/// values an outcome needs, not formatted text.
pub enum Outcome {
    /// A value the adapter returned, with its type when it gave one.
    Evaluated { value: String, ty: Option<String> },
    /// No frame to evaluate against.
    EvaluationUnavailable { reason: String },
    /// A run-control request was accepted. Its stop or resume arrives later as an
    /// event, so there is nothing to show for the request itself.
    DriveIssued,
    /// A run-control request could not be made in the current state.
    DriveUnavailable { reason: String },
    /// A frame became the selected one for navigation and evaluation.
    FrameSelected { index: usize, frame: FrameView },
    /// A frame move or selection could not be made in the current state.
    NavigationBlocked { reason: String },
    /// The call stack, with the index of the selected frame.
    Stack { frames: Vec<FrameView>, selected: usize },
    Help,
    Unrecognized { command: String },
    /// An adapter request failed.
    Failed { error: String },
    /// The program stopped. The frame is absent when none resolved at the stop.
    Stopped { reason: String, frame: Option<FrameView> },
    Resumed,
    Ended,
    Quit,
    /// Nothing to show.
    Noop,
}

/// The mathematical content of an [`Outcome`].
#[verifier::ext_equal]
pub enum OutcomeView {
    Evaluated { value: Seq<char>, ty: Option<Seq<char>> },
    EvaluationUnavailable { reason: Seq<char> },
    DriveIssued,
    DriveUnavailable { reason: Seq<char> },
    FrameSelected { index: int, frame: FrameLine },
    NavigationBlocked { reason: Seq<char> },
    Stack { frames: Seq<FrameLine>, selected: int },
    Help,
    Unrecognized { command: Seq<char> },
    Failed { error: Seq<char> },
    Stopped { reason: Seq<char>, frame: Option<FrameLine> },
    Resumed,
    Ended,
    Quit,
    Noop,
}

impl View for Outcome {
    type V = OutcomeView;

    open spec fn view(&self) -> OutcomeView {
        match *self {
            Outcome::Evaluated { value, ty } => OutcomeView::Evaluated {
                value: value@,
                ty: optional_text(ty),
            },
            Outcome::EvaluationUnavailable { reason } => OutcomeView::EvaluationUnavailable {
                reason: reason@,
            },
            Outcome::DriveIssued => OutcomeView::DriveIssued,
            Outcome::DriveUnavailable { reason } => OutcomeView::DriveUnavailable {
                reason: reason@,
            },
            Outcome::FrameSelected { index, frame } => OutcomeView::FrameSelected {
                index: index as int,
                frame: frame@,
            },
            Outcome::NavigationBlocked { reason } => OutcomeView::NavigationBlocked {
                reason: reason@,
            },
            Outcome::Stack { frames, selected } => OutcomeView::Stack {
                frames: views(frames@),
                selected: selected as int,
            },
            Outcome::Help => OutcomeView::Help,
            Outcome::Unrecognized { command } => OutcomeView::Unrecognized { command: command@ },
            Outcome::Failed { error } => OutcomeView::Failed { error: error@ },
            Outcome::Stopped { reason, frame } => OutcomeView::Stopped {
                reason: reason@,
                frame: match frame {
                    Some(frame) => Some(frame@),
                    None => None,
                },
            },
            Outcome::Resumed => OutcomeView::Resumed,
            Outcome::Ended => OutcomeView::Ended,
            Outcome::Quit => OutcomeView::Quit,
            Outcome::Noop => OutcomeView::Noop,
        }
    }
}

/// What one line of input leads to.
pub enum Decision {
    Done { outcome: Outcome },
    /// The value of an expression is to be asked for.
    Evaluate { request: Request },
    /// A run-control command is to be issued.
    Drive { command: &'static str, request: Request },
}

/// The mathematical content of a [`Decision`].
#[verifier::ext_equal]
pub enum DecisionView {
    Done { outcome: OutcomeView },
    Evaluate { request: RequestView },
    Drive { command: Seq<char>, request: RequestView },
}

impl View for Decision {
    type V = DecisionView;

    open spec fn view(&self) -> DecisionView {
        match *self {
            Decision::Done { outcome } => DecisionView::Done { outcome: outcome@ },
            Decision::Evaluate { request } => DecisionView::Evaluate { request: request@ },
            Decision::Drive { command, request } => DecisionView::Drive {
                command: command@,
                request: request@,
            },
        }
    }
}

/// A session and what was decided on reaching it.
pub struct Decided {
    pub session: SessionView,
    pub decision: DecisionView,
}

/// An outcome that leaves the session as it is.
pub open spec fn settled(session: SessionView, outcome: OutcomeView) -> Decided {
    Decided { session, decision: DecisionView::Done { outcome } }
}

/// A frame move or selection that could not be made.
pub open spec fn blocked(session: SessionView, reason: Seq<char>) -> Decided {
    settled(session, OutcomeView::NavigationBlocked { reason })
}

/// Selecting a frame that the stack has.
pub open spec fn selecting_frame(session: SessionView, index: int) -> Decided {
    settled(
        session.selecting(index),
        OutcomeView::FrameSelected { index, frame: frame_line(session.stack[index]) },
    )
}

/// The request that issues a run-control command.
pub open spec fn drive_decision(command: Seq<char>, thread_id: i64) -> DecisionView {
    DecisionView::Drive {
        command,
        request: RequestView { command, args: Some(Json::Object(thread_fields(thread_id))) },
    }
}

/// A run-control request that could not be made.
pub open spec fn drive_refused(reason: Seq<char>) -> DecisionView {
    DecisionView::Done { outcome: OutcomeView::DriveUnavailable { reason } }
}

/// Issuing a step or continue, which needs a stopped thread.
pub open spec fn deciding_drive(session: SessionView, command: Seq<char>) -> DecisionView {
    if session.state != SessionState::Stopped {
        drive_refused("can't "@ + command + " unless stopped"@)
    } else {
        match session.thread_id {
            Some(thread_id) => drive_decision(command, thread_id),
            None => drive_refused("can't "@ + command + ": no thread"@),
        }
    }
}

/// Pausing, which needs a running thread.
pub open spec fn deciding_pause(session: SessionView) -> DecisionView {
    if session.state != SessionState::Running {
        drive_refused("can't pause unless running"@)
    } else {
        match session.thread_id {
            Some(thread_id) => drive_decision("pause"@, thread_id),
            None => drive_refused("can't pause: no thread"@),
        }
    }
}

/// Moving one frame through the stack.
pub open spec fn deciding_move(session: SessionView, up: bool) -> Decided {
    if session.current_frame() is None {
        blocked(session, "not stopped at a frame"@)
    } else if up && session.selected + 1 < session.stack.len() {
        selecting_frame(session, session.selected + 1)
    } else if !up && session.selected > 0 {
        selecting_frame(session, session.selected - 1)
    } else if up {
        blocked(session, "already at the outermost frame"@)
    } else {
        blocked(session, "already at the innermost frame"@)
    }
}

/// Selecting a frame by number.
pub open spec fn deciding_frame(session: SessionView, index: usize) -> Decided {
    if session.current_frame() is None {
        blocked(session, "not stopped at a frame"@)
    } else if index < session.stack.len() {
        selecting_frame(session, index as int)
    } else {
        blocked(
            session,
            "no frame "@ + decimal(index as nat) + ", the stack has "@ + decimal(
                session.stack.len(),
            ),
        )
    }
}

/// Showing the call stack.
pub open spec fn deciding_stack(session: SessionView) -> OutcomeView {
    if session.stack.len() == 0 {
        OutcomeView::NavigationBlocked { reason: "no stack, not stopped at a frame"@ }
    } else {
        OutcomeView::Stack { frames: frame_lines(session.stack), selected: session.selected }
    }
}

/// Evaluating an expression against the selected frame.
pub open spec fn deciding_expression(session: SessionView, expression: Seq<char>) -> DecisionView {
    match session.frame_id() {
        Some(frame_id) => DecisionView::Evaluate {
            request: RequestView {
                command: "evaluate"@,
                args: Some(Json::Object(evaluate_fields(expression, frame_id))),
            },
        },
        None => DecisionView::Done {
            outcome: OutcomeView::EvaluationUnavailable {
                reason: unavailable_reason(session.state),
            },
        },
    }
}

/// Running a command: its first word says which, and `frame` takes a number.
pub open spec fn deciding_command(session: SessionView, cmd: Seq<char>) -> Decided {
    let verb = first_word(cmd);
    if verb.len() == 0 {
        settled(session, OutcomeView::Noop)
    } else if verb == "continue"@ || verb == "c"@ {
        Decided { session, decision: deciding_drive(session, "continue"@) }
    } else if verb == "next"@ || verb == "n"@ {
        Decided { session, decision: deciding_drive(session, "next"@) }
    } else if verb == "step"@ || verb == "s"@ {
        Decided { session, decision: deciding_drive(session, "stepIn"@) }
    } else if verb == "finish"@ || verb == "o"@ {
        Decided { session, decision: deciding_drive(session, "stepOut"@) }
    } else if verb == "pause"@ {
        Decided { session, decision: deciding_pause(session) }
    } else if verb == "up"@ {
        deciding_move(session, true)
    } else if verb == "down"@ {
        deciding_move(session, false)
    } else if verb == "frame"@ {
        match numeral_value(first_word(after_first_word(cmd))) {
            Some(index) => deciding_frame(session, index),
            None => blocked(session, "usage: :frame <index>"@),
        }
    } else if verb == "bt"@ || verb == "where"@ {
        settled(session, deciding_stack(session))
    } else if verb == "help"@ {
        settled(session, OutcomeView::Help)
    } else if verb == "quit"@ || verb == "q"@ {
        settled(session, OutcomeView::Quit)
    } else {
        settled(session, OutcomeView::Unrecognized { command: verb })
    }
}

/// The line that a typed one stands for: itself, or the last one when it is empty.
pub open spec fn effective_line(last_input: Option<Seq<char>>, input: Seq<char>) -> Option<
    Seq<char>,
> {
    if input.len() > 0 {
        Some(input)
    } else {
        last_input
    }
}

/// What a typed line leads to, after `last_input`.
pub open spec fn deciding_input(
    session: SessionView,
    last_input: Option<Seq<char>>,
    input: Seq<char>,
) -> Decided {
    match effective_line(last_input, input) {
        None => settled(session, OutcomeView::Noop),
        Some(line) => if is_command(line) {
            deciding_command(session, trimmed(line.drop_first()))
        } else {
            Decided { session, decision: deciding_expression(session, line) }
        },
    }
}

/// Decide what one line of input means, a colon command or an expression.
///
/// An empty line repeats the last input, so pressing Enter keeps stepping or
/// re-runs the last expression. A non-empty line becomes the new repeat target.
pub fn decide_input(session: &mut Session, last_input: &mut Option<String>, input: &str) -> (decision:
    Decision)
    ensures
        final(session)@ == deciding_input(
            old(session)@,
            optional_text(*old(last_input)),
            input@,
        ).session,
        decision@ == deciding_input(
            old(session)@,
            optional_text(*old(last_input)),
            input@,
        ).decision,
        optional_text(*final(last_input)) == effective_line(
            optional_text(*old(last_input)),
            input@,
        ),
{
    let line: String = if input.is_empty() {
        match last_input {
            Some(previous) => previous.clone(),
            None => {
                return Decision::Done { outcome: Outcome::Noop };
            },
        }
    } else {
        *last_input = Some(input.to_owned());
        input.to_owned()
    };
    match strip_char(line.as_str(), ':') {
        Some(command) => run_command(session, trim(command)),
        None => evaluate_line(session, line.as_str()),
    }
}

/// Runs a command.
fn run_command(session: &mut Session, cmd: &str) -> (decision: Decision)
    ensures
        final(session)@ == deciding_command(old(session)@, cmd@).session,
        decision@ == deciding_command(old(session)@, cmd@).decision,
{
    let (verb, rest) = split_word(cmd);
    if verb.is_empty() {
        Decision::Done { outcome: Outcome::Noop }
    } else if same_text(verb, "continue") || same_text(verb, "c") {
        drive(session, "continue")
    } else if same_text(verb, "next") || same_text(verb, "n") {
        drive(session, "next")
    } else if same_text(verb, "step") || same_text(verb, "s") {
        drive(session, "stepIn")
    } else if same_text(verb, "finish") || same_text(verb, "o") {
        drive(session, "stepOut")
    } else if same_text(verb, "pause") {
        pause(session)
    } else if same_text(verb, "up") {
        Decision::Done { outcome: navigate(session, true) }
    } else if same_text(verb, "down") {
        Decision::Done { outcome: navigate(session, false) }
    } else if same_text(verb, "frame") {
        let (number, _) = split_word(rest);
        match parse_usize(number) {
            Some(index) => Decision::Done { outcome: select_frame(session, index) },
            None => Decision::Done {
                outcome: Outcome::NavigationBlocked { reason: "usage: :frame <index>".to_owned() },
            },
        }
    } else if same_text(verb, "bt") || same_text(verb, "where") {
        Decision::Done { outcome: stack(session) }
    } else if same_text(verb, "help") {
        Decision::Done { outcome: Outcome::Help }
    } else if same_text(verb, "quit") || same_text(verb, "q") {
        Decision::Done { outcome: Outcome::Quit }
    } else {
        Decision::Done { outcome: Outcome::Unrecognized { command: verb.to_owned() } }
    }
}

/// Issue a step or continue against the stopped thread. A successful request
/// shows nothing now. Its stop or resume arrives later as an event.
fn drive(session: &Session, command: &'static str) -> (decision: Decision)
    ensures
        decision@ == deciding_drive(session@, command@),
{
    if session.state() != SessionState::Stopped {
        return Decision::Done {
            outcome: Outcome::DriveUnavailable {
                reason: join3("can't ", command, " unless stopped"),
            },
        };
    }
    match session.thread_id() {
        Some(thread_id) => Decision::Drive { command, request: drive_request(command, thread_id) },
        None => Decision::Done {
            outcome: Outcome::DriveUnavailable { reason: join3("can't ", command, ": no thread") },
        },
    }
}

/// Pause the running thread.
fn pause(session: &Session) -> (decision: Decision)
    ensures
        decision@ == deciding_pause(session@),
{
    if session.state() != SessionState::Running {
        return Decision::Done {
            outcome: Outcome::DriveUnavailable {
                reason: "can't pause unless running".to_owned(),
            },
        };
    }
    match session.thread_id() {
        Some(thread_id) => Decision::Drive {
            command: "pause",
            request: drive_request("pause", thread_id),
        },
        None => Decision::Done {
            outcome: Outcome::DriveUnavailable { reason: "can't pause: no thread".to_owned() },
        },
    }
}

/// Move one frame through the stack.
fn navigate(session: &mut Session, up: bool) -> (outcome: Outcome)
    ensures
        final(session)@ == deciding_move(old(session)@, up).session,
        (DecisionView::Done { outcome: outcome@ }) == deciding_move(old(session)@, up).decision,
{
    if session.current_frame().is_none() {
        return Outcome::NavigationBlocked { reason: "not stopped at a frame".to_owned() };
    }
    let moved: bool = if up {
        session.select_up()
    } else {
        session.select_down()
    };
    if moved {
        selected_frame(session)
    } else if up {
        Outcome::NavigationBlocked { reason: "already at the outermost frame".to_owned() }
    } else {
        Outcome::NavigationBlocked { reason: "already at the innermost frame".to_owned() }
    }
}

/// Select a frame by number.
fn select_frame(session: &mut Session, index: usize) -> (outcome: Outcome)
    ensures
        final(session)@ == deciding_frame(old(session)@, index).session,
        (DecisionView::Done { outcome: outcome@ }) == deciding_frame(
            old(session)@,
            index,
        ).decision,
{
    if session.current_frame().is_none() {
        Outcome::NavigationBlocked { reason: "not stopped at a frame".to_owned() }
    } else if session.select_index(index) {
        selected_frame(session)
    } else {
        let mut reason: String = "no frame ".to_owned();
        push_decimal(&mut reason, index as u64);
        reason.append(", the stack has ");
        push_decimal(&mut reason, session.stack().len() as u64);
        Outcome::NavigationBlocked { reason }
    }
}

/// What is told of the frame that was selected.
fn selected_frame(session: &Session) -> (outcome: Outcome)
    ensures
        outcome@ == match session@.current_frame() {
            Some(frame) => OutcomeView::FrameSelected {
                index: session@.selected,
                frame: frame_line(frame),
            },
            None => OutcomeView::Noop,
        },
{
    match session.current_frame() {
        Some(frame) => Outcome::FrameSelected {
            index: session.selected(),
            frame: FrameView::of(frame),
        },
        None => Outcome::Noop,
    }
}

/// Show the call stack.
fn stack(session: &Session) -> (outcome: Outcome)
    ensures
        outcome@ == deciding_stack(session@),
{
    let stack: &[StackFrame] = session.stack();
    if stack.is_empty() {
        return Outcome::NavigationBlocked {
            reason: "no stack, not stopped at a frame".to_owned(),
        };
    }
    let mut frames: Vec<FrameView> = Vec::new();
    let mut i: usize = 0;
    while i < stack.len()
        invariant
            i <= stack@.len(),
            frames@.len() == i,
            forall|j: int| 0 <= j < i ==> (#[trigger] frames@[j])@ == frame_line(stack@[j]),
        decreases stack@.len() - i,
    {
        frames.push(FrameView::of(&stack[i]));
        i = i + 1;
    }
    assert(views(frames@) =~= frame_lines(stack@));
    Outcome::Stack { frames, selected: session.selected() }
}

/// Evaluate one line against the selected frame, or say why it can't.
fn evaluate_line(session: &Session, expr: &str) -> (decision: Decision)
    ensures
        decision@ == deciding_expression(session@, expr@),
{
    match session.frame_id() {
        Some(frame_id) => Decision::Evaluate { request: evaluate_request(expr, frame_id) },
        None => Decision::Done {
            outcome: Outcome::EvaluationUnavailable {
                reason: evaluation_unavailable_reason(session.state()),
            },
        },
    }
}

/// What became of an evaluation.
pub fn evaluation_outcome(result: Result<Evaluated, String>) -> (outcome: Outcome)
    ensures
        outcome@ == match result {
            Ok(evaluated) => OutcomeView::Evaluated {
                value: evaluated.result@,
                ty: optional_text(evaluated.ty),
            },
            Err(error) => OutcomeView::Failed { error: error@ },
        },
{
    match result {
        Ok(evaluated) => Outcome::Evaluated { value: evaluated.result, ty: evaluated.ty },
        Err(error) => Outcome::Failed { error },
    }
}

/// What became of a run-control request.
pub fn drive_outcome(result: Result<(), String>) -> (outcome: Outcome)
    ensures
        outcome@ == match result {
            Ok(_) => OutcomeView::DriveIssued,
            Err(error) => OutcomeView::Failed { error: error@ },
        },
{
    match result {
        Ok(_) => Outcome::DriveIssued,
        Err(error) => Outcome::Failed { error },
    }
}

/// What one adapter event leads to.
pub enum EventDecision {
    Done { outcome: Outcome },
    /// The program stopped, and the stop is to be resolved.
    Resolve { reason: String, next: StopStep },
}

/// Whether an event ends the session.
pub open spec fn ends_session(event: Seq<char>) -> bool {
    event == "terminated"@ || event == "exited"@
}

/// The session after an event.
pub open spec fn session_after(session: SessionView, msg: EventMessage) -> SessionView {
    if msg.event@ == "stopped"@ {
        session.stopping(stop_thread(msg.body))
    } else if msg.event@ == "continued"@ {
        session.without_frames(SessionState::Running)
    } else if ends_session(msg.event@) {
        session.ended()
    } else {
        session
    }
}

/// What an event that is no stop comes to.
pub open spec fn event_outcome(event: Seq<char>) -> OutcomeView {
    if event == "continued"@ {
        OutcomeView::Resumed
    } else if ends_session(event) {
        OutcomeView::Ended
    } else {
        OutcomeView::Noop
    }
}

/// What resolving a stop needs first.
pub open spec fn first_stop_step(thread_hint: Option<i64>) -> StopStep {
    match thread_hint {
        Some(thread_id) => StopStep::Stack { thread_id },
        None => StopStep::Threads,
    }
}

/// Decide what one adapter event means, updating session state as it requires.
pub fn decide_event(session: &mut Session, msg: EventMessage) -> (decision: EventDecision)
    ensures
        final(session)@ == session_after(old(session)@, msg),
        msg.event@ == "stopped"@ ==> {
            &&& decision is Resolve
            &&& decision->reason@ == stop_reason(msg.body)
            &&& decision->next == first_stop_step(stop_thread(msg.body))
        },
        msg.event@ != "stopped"@ ==> decision is Done && decision->outcome@ == event_outcome(
            msg.event@,
        ),
{
    if same_text(msg.event.as_str(), "stopped") {
        let body: StoppedBody = match msg.body {
            Some(body) => body,
            None => StoppedBody::default(),
        };
        let next: StopStep = session.on_stopped(body.thread_id);
        EventDecision::Resolve { reason: body.reason, next }
    } else if same_text(msg.event.as_str(), "continued") {
        session.on_continued();
        EventDecision::Done { outcome: Outcome::Resumed }
    } else if same_text(msg.event.as_str(), "terminated") || same_text(
        msg.event.as_str(),
        "exited",
    ) {
        session.on_ended();
        EventDecision::Done { outcome: Outcome::Ended }
    } else {
        EventDecision::Done { outcome: Outcome::Noop }
    }
}

/// What a stop came to: the frame it is at, or why it could not be resolved.
pub open spec fn stop_outcome_view(
    session: SessionView,
    reason: Seq<char>,
    error: Option<Seq<char>>,
) -> OutcomeView {
    match error {
        Some(error) => OutcomeView::Failed { error },
        None => OutcomeView::Stopped {
            reason,
            frame: match session.current_frame() {
                Some(frame) => Some(frame_line(frame)),
                None => None,
            },
        },
    }
}

/// What a stop came to, once it was resolved or could not be.
pub fn stop_outcome(session: &Session, reason: String, error: Option<String>) -> (outcome: Outcome)
    ensures
        outcome@ == stop_outcome_view(session@, reason@, optional_text(error)),
{
    match error {
        Some(error) => Outcome::Failed { error },
        None => Outcome::Stopped {
            reason,
            frame: match session.current_frame() {
                Some(frame) => Some(FrameView::of(frame)),
                None => None,
            },
        },
    }
}

} // verus!
