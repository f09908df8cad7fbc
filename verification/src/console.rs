//! The print front-end: what each input and event writes to the terminal, what it
//! asks of the adapter, and when it ends the program.

use crate::model::optional_text;
use crate::outcome::{
    decide_event, decide_input, deciding_input, drive_outcome, effective_line, evaluation_outcome,
    event_outcome, first_stop_step, session_after, stop_outcome, stop_outcome_view, Decision,
    DecisionView, EventDecision, FrameLine, FrameView, Outcome, OutcomeView,
};
use crate::repl::{
    drive_reply, evaluate_reply, failure, fetch_stack, fetch_threads, initial_session, stack_reply,
    thread_fields, Answer, Evaluated, Session, SessionView, StopStep,
};
use crate::json::Json;
use crate::text::{decimal, join2, join3, push_decimal, push_signed, signed_decimal, trim, trimmed};
use crate::transport::ConnEvent;
use crate::types::{EvaluateBody, Request, RequestView, StackFrame, Thread};
use crate::update::{stop_reason, stop_thread};
use crate::views::views;
use vstd::prelude::*;
use vstd::string::StringExecFns;

verus! {

/// The list of commands.
pub const HELP: &'static str =
    "commands:\n  :c :continue   resume execution\n  :n :next       step over\n  :s :step       step into\n  :o :finish     step out\n  :pause         pause a running program\n  :up :down      move to the calling or called frame\n  :frame <n>     select frame n\n  :bt :where     print the call stack\n  :help          show this list\n  :q :quit       exit\nanything else is evaluated in the selected frame.\nan empty line repeats the last input.\n";

/// Where an outcome came from. Output for an event starts on a fresh line so it
/// breaks away from a possibly dangling prompt, the way input output, which
/// always follows a freshly typed line, does not need to.
#[derive(Clone, Copy, Debug, PartialEq, Eq, Structural)]
pub enum Source {
    Input,
    Event,
}

/// A frame's name and line.
pub open spec fn frame_text(frame: FrameLine) -> Seq<char> {
    frame.name + " @ line "@ + signed_decimal(frame.line as int)
}

/// The lines of the first `count` frames of a call stack, the selected one marked.
pub open spec fn stack_text(frames: Seq<FrameLine>, selected: int, count: nat) -> Seq<char>
    decreases count,
{
    if count == 0 || count > frames.len() {
        Seq::empty()
    } else {
        stack_text(frames, selected, (count - 1) as nat) + (if count - 1 == selected {
            "*"@
        } else {
            " "@
        }) + " #"@ + decimal((count - 1) as nat) + " "@ + frame_text(frames[count - 1]) + "\n"@
    }
}

/// What an outcome reads as. Some read as nothing.
pub open spec fn outcome_text(outcome: OutcomeView) -> Seq<char> {
    match outcome {
        OutcomeView::Evaluated { value, ty } => match ty {
            Some(ty) => if ty.len() > 0 {
                "=> "@ + value + " : "@ + ty + "\n"@
            } else {
                "=> "@ + value + "\n"@
            },
            None => "=> "@ + value + "\n"@,
        },
        OutcomeView::EvaluationUnavailable { reason } => "-- "@ + reason + "\n"@,
        OutcomeView::DriveUnavailable { reason } => "-- "@ + reason + "\n"@,
        OutcomeView::NavigationBlocked { reason } => "-- "@ + reason + "\n"@,
        OutcomeView::FrameSelected { index, frame } => "#"@ + decimal(index as nat) + " "@
            + frame_text(frame) + "\n"@,
        OutcomeView::Stack { frames, selected } => stack_text(frames, selected, frames.len()),
        OutcomeView::Help => HELP@,
        OutcomeView::Unrecognized { command } => "-- :"@ + command
            + " not recognized (try :help)\n"@,
        OutcomeView::Failed { error } => "!! "@ + error + "\n"@,
        OutcomeView::Stopped { reason, frame } => match frame {
            Some(frame) => "⏸ stop ("@ + reason + ") → "@ + frame_text(frame) + "\n"@,
            None => "⏸ stopped ("@ + reason + ") — no frame resolved\n"@,
        },
        OutcomeView::Resumed => "▶ running…\n"@,
        OutcomeView::Ended => "■ session ended.\n"@,
        OutcomeView::DriveIssued => Seq::empty(),
        OutcomeView::Quit => Seq::empty(),
        OutcomeView::Noop => Seq::empty(),
    }
}

/// What an outcome writes, given where it came from.
pub open spec fn rendered(outcome: OutcomeView, source: Source) -> Seq<char> {
    let text = outcome_text(outcome);
    if source == Source::Event && text.len() > 0 {
        "\n"@ + text
    } else {
        text
    }
}

/// Appends a frame's name and line.
fn push_frame(out: &mut String, frame: &FrameView)
    ensures
        final(out)@ == old(out)@ + frame_text(frame@),
{
    let ghost before = out@;
    out.append(frame.name.as_str());
    out.append(" @ line ");
    push_signed(out, frame.line);
    assert(out@ =~= before + frame_text(frame@));
}

/// The lines of a call stack, the selected frame marked.
fn stack_lines(frames: &Vec<FrameView>, selected: usize) -> (out: String)
    ensures
        out@ == stack_text(views(frames@), selected as int, frames@.len()),
{
    let mut out: String = String::new();
    let mut i: usize = 0;
    while i < frames.len()
        invariant
            i <= frames@.len(),
            out@ == stack_text(views(frames@), selected as int, i as nat),
        decreases frames@.len() - i,
    {
        let ghost before = out@;
        out.append(
            if i == selected {
                "*"
            } else {
                " "
            },
        );
        out.append(" #");
        push_decimal(&mut out, i as u64);
        out.append(" ");
        push_frame(&mut out, &frames[i]);
        out.append("\n");
        i = i + 1;
        assert(out@ =~= stack_text(views(frames@), selected as int, i as nat));
    }
    out
}

/// Appends the list of commands.
fn write_help(out: &mut String)
    ensures
        final(out)@ == old(out)@ + HELP@,
{
    out.append(HELP);
}

/// What an outcome reads as.
fn write_outcome(outcome: &Outcome) -> (out: String)
    ensures
        out@ == outcome_text(outcome@),
{
    match outcome {
        Outcome::Evaluated { value, ty } => {
            let mut out: String = join2("=> ", value.as_str());
            if let Some(ty) = ty {
                if !ty.as_str().is_empty() {
                    out.append(" : ");
                    out.append(ty.as_str());
                }
            }
            out.append("\n");
            out
        },
        Outcome::EvaluationUnavailable { reason } => join3("-- ", reason.as_str(), "\n"),
        Outcome::DriveUnavailable { reason } => join3("-- ", reason.as_str(), "\n"),
        Outcome::NavigationBlocked { reason } => join3("-- ", reason.as_str(), "\n"),
        Outcome::FrameSelected { index, frame } => {
            let mut out: String = "#".to_owned();
            push_decimal(&mut out, *index as u64);
            out.append(" ");
            push_frame(&mut out, frame);
            out.append("\n");
            out
        },
        Outcome::Stack { frames, selected } => stack_lines(frames, *selected),
        Outcome::Help => {
            let mut out: String = String::new();
            write_help(&mut out);
            assert(out@ =~= HELP@);
            out
        },
        Outcome::Unrecognized { command } => join3(
            "-- :",
            command.as_str(),
            " not recognized (try :help)\n",
        ),
        Outcome::Failed { error } => join3("!! ", error.as_str(), "\n"),
        Outcome::Stopped { reason, frame } => match frame {
            Some(frame) => {
                let mut out: String = join3("⏸ stop (", reason.as_str(), ") → ");
                push_frame(&mut out, frame);
                out.append("\n");
                out
            },
            None => join3("⏸ stopped (", reason.as_str(), ") — no frame resolved\n"),
        },
        Outcome::Resumed => "▶ running…\n".to_owned(),
        Outcome::Ended => "■ session ended.\n".to_owned(),
        Outcome::DriveIssued => String::new(),
        Outcome::Quit => String::new(),
        Outcome::Noop => String::new(),
    }
}

/// Turn an outcome into the terminal output it stands for. An empty text means
/// that nothing is shown.
pub fn render(outcome: &Outcome, source: Source) -> (text: String)
    ensures
        text@ == rendered(outcome@, source),
{
    let text: String = write_outcome(outcome);
    if source == Source::Event && !text.as_str().is_empty() {
        join2("\n", text.as_str())
    } else {
        text
    }
}

/// What the terminal or the connection hands to the console.
pub enum ConsoleInput {
    /// The user interrupted the program.
    Interrupt,
    Line { raw: String },
    /// The input reached its end.
    InputEnded,
    InputFailed { error: String },
    /// The connection says nothing more.
    ConnectionGone,
    Connection { event: ConnEvent },
}

/// What is to be asked of the adapter, and what the answer is for.
pub enum Ask {
    Evaluate { request: Request },
    Drive { command: &'static str, request: Request },
    /// The threads, to resolve a stop for this reason.
    Threads { reason: String, request: Request },
    /// The call stack, to resolve a stop for this reason.
    Stack { reason: String, request: Request },
}

/// What the program is to do next.
pub enum ConsoleStep {
    /// Ask the adapter and hand its answer to the console.
    Ask { ask: Ask },
    /// Write this text, then possibly the prompt.
    Show { text: String, prompt: bool },
    /// Write these texts to the output and the error output, and end the program.
    Exit { text: String, error: String, code: i32 },
}

/// The mathematical content of an [`Ask`].
#[verifier::ext_equal]
pub enum AskView {
    Evaluate { request: RequestView },
    Drive { command: Seq<char>, request: RequestView },
    Threads { reason: Seq<char>, request: RequestView },
    Stack { reason: Seq<char>, request: RequestView },
}

/// The mathematical content of a [`ConsoleStep`].
#[verifier::ext_equal]
pub enum ConsoleStepView {
    Ask { ask: AskView },
    Show { text: Seq<char>, prompt: bool },
    Exit { text: Seq<char>, error: Seq<char>, code: i32 },
}

impl View for Ask {
    type V = AskView;

    open spec fn view(&self) -> AskView {
        match *self {
            Ask::Evaluate { request } => AskView::Evaluate { request: request@ },
            Ask::Drive { command, request } => AskView::Drive {
                command: command@,
                request: request@,
            },
            Ask::Threads { reason, request } => AskView::Threads {
                reason: reason@,
                request: request@,
            },
            Ask::Stack { reason, request } => AskView::Stack {
                reason: reason@,
                request: request@,
            },
        }
    }
}

impl View for ConsoleStep {
    type V = ConsoleStepView;

    open spec fn view(&self) -> ConsoleStepView {
        match *self {
            ConsoleStep::Ask { ask } => ConsoleStepView::Ask { ask: ask@ },
            ConsoleStep::Show { text, prompt } => ConsoleStepView::Show { text: text@, prompt },
            ConsoleStep::Exit { text, error, code } => ConsoleStepView::Exit {
                text: text@,
                error: error@,
                code,
            },
        }
    }
}

/// The console: a session and the line that an empty one repeats.
pub struct Console {
    pub session: Session,
    pub last_input: Option<String>,
}

/// The mathematical content of a [`Console`].
#[verifier::ext_equal]
pub struct ConsoleView {
    pub session: SessionView,
    pub last_input: Option<Seq<char>>,
}

impl View for Console {
    type V = ConsoleView;

    open spec fn view(&self) -> ConsoleView {
        ConsoleView { session: self.session@, last_input: optional_text(self.last_input) }
    }
}

/// Ending the program with a text, without an error.
pub open spec fn leaving(text: Seq<char>) -> ConsoleStepView {
    ConsoleStepView::Exit { text, error: Seq::empty(), code: 0 }
}

/// Ending the program over an error.
pub open spec fn failing(error: Seq<char>) -> ConsoleStepView {
    ConsoleStepView::Exit { text: Seq::empty(), error, code: 1 }
}

/// Showing an outcome. A typed line always gets a new prompt. An event gets one
/// only when it showed something, so the stream of ignored events stays silent.
pub open spec fn showing(outcome: OutcomeView, source: Source) -> ConsoleStepView {
    let text = rendered(outcome, source);
    match source {
        Source::Input => if outcome is Quit {
            leaving(text)
        } else {
            ConsoleStepView::Show { text, prompt: true }
        },
        Source::Event => if outcome is Ended {
            leaving(text)
        } else {
            ConsoleStepView::Show { text, prompt: text.len() > 0 }
        },
    }
}

/// Acting on what a line was decided to mean.
pub open spec fn acting(decision: DecisionView) -> ConsoleStepView {
    match decision {
        DecisionView::Done { outcome } => showing(outcome, Source::Input),
        DecisionView::Evaluate { request } => ConsoleStepView::Ask {
            ask: AskView::Evaluate { request },
        },
        DecisionView::Drive { command, request } => ConsoleStepView::Ask {
            ask: AskView::Drive { command, request },
        },
    }
}

/// Going on with resolving a stop.
pub open spec fn resolving(session: SessionView, reason: Seq<char>, next: StopStep) -> ConsoleStepView {
    match next {
        StopStep::Threads => ConsoleStepView::Ask {
            ask: AskView::Threads {
                reason,
                request: RequestView {
                    command: "threads"@,
                    args: Some(Json::Object(Map::empty())),
                },
            },
        },
        StopStep::Stack { thread_id } => ConsoleStepView::Ask {
            ask: AskView::Stack {
                reason,
                request: RequestView {
                    command: "stackTrace"@,
                    args: Some(Json::Object(thread_fields(thread_id))),
                },
            },
        },
        StopStep::Resolved => showing(stop_outcome_view(session, reason, None), Source::Event),
    }
}

/// The console after an input.
pub open spec fn console_after(console: ConsoleView, input: ConsoleInput) -> ConsoleView {
    match input {
        ConsoleInput::Line { raw } => ConsoleView {
            session: deciding_input(
                console.session,
                console.last_input,
                trimmed(raw@),
            ).session,
            last_input: effective_line(console.last_input, trimmed(raw@)),
        },
        ConsoleInput::Connection { event: ConnEvent::Dap(msg) } => ConsoleView {
            session: session_after(console.session, msg),
            ..console
        },
        _ => console,
    }
}

/// What an input leads to.
pub open spec fn console_step(console: ConsoleView, input: ConsoleInput) -> ConsoleStepView {
    match input {
        ConsoleInput::Interrupt => leaving("\n"@),
        ConsoleInput::Line { raw } => acting(
            deciding_input(console.session, console.last_input, trimmed(raw@)).decision,
        ),
        ConsoleInput::InputEnded => leaving("\n"@),
        ConsoleInput::InputFailed { error } => failing("stdin error: "@ + error@ + "\n"@),
        ConsoleInput::ConnectionGone => leaving(Seq::empty()),
        ConsoleInput::Connection { event } => match event {
            ConnEvent::Disconnected(Some(error)) => failing("\n!! "@ + error@ + "\n"@),
            ConnEvent::Disconnected(None) => leaving("\n■ session ended.\n"@),
            ConnEvent::Dap(msg) => if msg.event@ == "stopped"@ {
                resolving(
                    session_after(console.session, msg),
                    stop_reason(msg.body),
                    first_stop_step(stop_thread(msg.body)),
                )
            } else {
                showing(event_outcome(msg.event@), Source::Event)
            },
        },
    }
}

/// What an evaluation that was asked for came to. An answer that never came holds
/// why instead.
pub open spec fn evaluation_view(answer: Result<Answer<EvaluateBody>, String>) -> OutcomeView {
    match answer {
        Err(error) => OutcomeView::Failed { error: error@ },
        Ok(answer) => if !answer.success {
            OutcomeView::Failed { error: failure("evaluate"@, optional_text(answer.message)) }
        } else {
            match answer.body {
                Ok(body) => OutcomeView::Evaluated {
                    value: body.result@,
                    ty: optional_text(body.ty),
                },
                Err(error) => OutcomeView::Failed { error: error@ },
            }
        },
    }
}

/// What a run-control request came to.
pub open spec fn driven_view(
    command: Seq<char>,
    answer: Result<(bool, Option<String>), String>,
) -> OutcomeView {
    match answer {
        Err(error) => OutcomeView::Failed { error: error@ },
        Ok((success, message)) => if success {
            OutcomeView::DriveIssued
        } else {
            OutcomeView::Failed { error: failure(command, optional_text(message)) }
        },
    }
}

/// The call stack an answer holds. A request that the adapter refused holds none.
pub open spec fn answered_stack(answer: Result<Answer<Vec<StackFrame>>, String>) -> Result<
    Seq<StackFrame>,
    Seq<char>,
> {
    match answer {
        Err(error) => Err(error@),
        Ok(answer) => if !answer.success {
            Ok(Seq::empty())
        } else {
            match answer.body {
                Ok(frames) => Ok(frames@),
                Err(error) => Err(error@),
            }
        },
    }
}

/// The console after the threads of a stopped program arrived, or did not.
pub open spec fn console_after_threads(
    console: ConsoleView,
    threads: Result<Vec<Thread>, String>,
) -> ConsoleView {
    match threads {
        Ok(threads) => ConsoleView {
            session: console.session.on_first_thread(threads@),
            ..console
        },
        Err(_) => console,
    }
}

/// What the threads of a stopped program lead to.
pub open spec fn threads_step(
    console: ConsoleView,
    reason: Seq<char>,
    threads: Result<Vec<Thread>, String>,
) -> ConsoleStepView {
    match threads {
        Ok(list) => resolving(
            console_after_threads(console, threads).session,
            reason,
            if list@.len() > 0 {
                StopStep::Stack { thread_id: list@[0].id }
            } else {
                StopStep::Resolved
            },
        ),
        Err(error) => showing(OutcomeView::Failed { error: error@ }, Source::Event),
    }
}

/// The console after the call stack of a stopped thread arrived, or did not.
pub open spec fn console_after_frames(
    console: ConsoleView,
    answer: Result<Answer<Vec<StackFrame>>, String>,
) -> ConsoleView {
    match answered_stack(answer) {
        Ok(stack) => ConsoleView { session: console.session.at_top_of(stack), ..console },
        Err(_) => console,
    }
}

/// What the call stack of a stopped thread leads to.
pub open spec fn frames_step(
    console: ConsoleView,
    reason: Seq<char>,
    answer: Result<Answer<Vec<StackFrame>>, String>,
) -> ConsoleStepView {
    match answered_stack(answer) {
        Ok(_) => showing(
            stop_outcome_view(console_after_frames(console, answer).session, reason, None),
            Source::Event,
        ),
        Err(error) => showing(OutcomeView::Failed { error }, Source::Event),
    }
}

/// Shows an outcome.
fn show(outcome: Outcome, source: Source) -> (step: ConsoleStep)
    ensures
        step@ == showing(outcome@, source),
{
    let text: String = render(&outcome, source);
    match source {
        Source::Input => if matches!(outcome, Outcome::Quit) {
            ConsoleStep::Exit { text, error: String::new(), code: 0 }
        } else {
            ConsoleStep::Show { text, prompt: true }
        },
        Source::Event => if matches!(outcome, Outcome::Ended) {
            ConsoleStep::Exit { text, error: String::new(), code: 0 }
        } else {
            let prompt: bool = !text.as_str().is_empty();
            ConsoleStep::Show { text, prompt }
        },
    }
}

impl Console {
    pub fn new() -> (console: Self)
        ensures
            console@ == (ConsoleView { session: initial_session(), last_input: None }),
    {
        Console { session: Session::new(), last_input: None }
    }

    /// Goes on with resolving a stop.
    fn resolve(&self, reason: String, next: StopStep) -> (step: ConsoleStep)
        ensures
            step@ == resolving(self@.session, reason@, next),
    {
        match next {
            StopStep::Threads => ConsoleStep::Ask {
                ask: Ask::Threads { reason, request: fetch_threads() },
            },
            StopStep::Stack { thread_id } => ConsoleStep::Ask {
                ask: Ask::Stack { reason, request: fetch_stack(thread_id) },
            },
            StopStep::Resolved => show(stop_outcome(&self.session, reason, None), Source::Event),
        }
    }

    /// Takes one input of the terminal or the connection.
    pub fn on_input(&mut self, input: ConsoleInput) -> (step: ConsoleStep)
        ensures
            final(self)@ == console_after(old(self)@, input),
            step@ == console_step(old(self)@, input),
    {
        match input {
            ConsoleInput::Interrupt => ConsoleStep::Exit {
                text: "\n".to_owned(),
                error: String::new(),
                code: 0,
            },
            ConsoleInput::Line { raw } => {
                let decision: Decision = decide_input(
                    &mut self.session,
                    &mut self.last_input,
                    trim(raw.as_str()),
                );
                match decision {
                    Decision::Done { outcome } => show(outcome, Source::Input),
                    Decision::Evaluate { request } => ConsoleStep::Ask {
                        ask: Ask::Evaluate { request },
                    },
                    Decision::Drive { command, request } => ConsoleStep::Ask {
                        ask: Ask::Drive { command, request },
                    },
                }
            },
            // The input reached its end, for example from Ctrl-D.
            ConsoleInput::InputEnded => ConsoleStep::Exit {
                text: "\n".to_owned(),
                error: String::new(),
                code: 0,
            },
            ConsoleInput::InputFailed { error } => ConsoleStep::Exit {
                text: String::new(),
                error: join3("stdin error: ", error.as_str(), "\n"),
                code: 1,
            },
            ConsoleInput::ConnectionGone => ConsoleStep::Exit {
                text: String::new(),
                error: String::new(),
                code: 0,
            },
            ConsoleInput::Connection { event } => match event {
                ConnEvent::Disconnected(Some(error)) => ConsoleStep::Exit {
                    text: String::new(),
                    error: join3("\n!! ", error.as_str(), "\n"),
                    code: 1,
                },
                ConnEvent::Disconnected(None) => ConsoleStep::Exit {
                    text: "\n■ session ended.\n".to_owned(),
                    error: String::new(),
                    code: 0,
                },
                ConnEvent::Dap(msg) => match decide_event(&mut self.session, msg) {
                    EventDecision::Done { outcome } => show(outcome, Source::Event),
                    EventDecision::Resolve { reason, next } => self.resolve(reason, next),
                },
            },
        }
    }

    /// Takes the answer to an evaluation.
    pub fn on_evaluated(&self, answer: Result<Answer<EvaluateBody>, String>) -> (step: ConsoleStep)
        ensures
            step@ == showing(evaluation_view(answer), Source::Input),
    {
        let result: Result<Evaluated, String> = match answer {
            Ok(answer) => evaluate_reply(answer),
            Err(error) => Err(error),
        };
        show(evaluation_outcome(result), Source::Input)
    }

    /// Takes the answer to a run-control request: whether it was accepted, and
    /// what the adapter says.
    pub fn on_driven(&self, command: &str, answer: Result<(bool, Option<String>), String>) -> (step:
        ConsoleStep)
        ensures
            step@ == showing(driven_view(command@, answer), Source::Input),
    {
        let result: Result<(), String> = match answer {
            Ok((success, message)) => drive_reply(command, success, message),
            Err(error) => Err(error),
        };
        show(drive_outcome(result), Source::Input)
    }

    /// Takes the threads of a stopped program.
    pub fn on_threads(&mut self, reason: String, threads: Result<Vec<Thread>, String>) -> (step:
        ConsoleStep)
        ensures
            final(self)@ == console_after_threads(old(self)@, threads),
            step@ == threads_step(old(self)@, reason@, threads),
    {
        match threads {
            Ok(threads) => {
                let next: StopStep = self.session.on_threads(&threads);
                self.resolve(reason, next)
            },
            Err(error) => show(stop_outcome(&self.session, reason, Some(error)), Source::Event),
        }
    }

    /// Takes the call stack of a stopped thread.
    pub fn on_frames(
        &mut self,
        reason: String,
        answer: Result<Answer<Vec<StackFrame>>, String>,
    ) -> (step: ConsoleStep)
        ensures
            final(self)@ == console_after_frames(old(self)@, answer),
            step@ == frames_step(old(self)@, reason@, answer),
    {
        let frames: Result<Vec<StackFrame>, String> = match answer {
            Ok(answer) => stack_reply(answer),
            Err(error) => Err(error),
        };
        match frames {
            Ok(frames) => {
                self.session.on_stack(frames);
                show(stop_outcome(&self.session, reason, None), Source::Event)
            },
            Err(error) => show(stop_outcome(&self.session, reason, Some(error)), Source::Event),
        }
    }
}

} // verus!
