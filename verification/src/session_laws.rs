//! What the console promises across lines and events: what a line can change, what
//! needs which state, and what is shown.

use crate::console::{
    console_after, console_step, rendered, stack_text, ConsoleInput, ConsoleStepView, ConsoleView,
    Source,
};
use crate::dap::resolved_addr;
use crate::outcome::{
    deciding_input, deciding_move, deciding_pause, drive_decision, effective_line, session_after,
    Decided, DecisionView, FrameLine, OutcomeView,
};
use crate::repl::{evaluate_fields, initial_session, SessionView};
use crate::json::Json;
use crate::transport::ConnEvent;
use crate::types::{EventMessage, RequestView, SessionState, StackFrame, Thread};
use crate::update::unavailable_reason;
use vstd::prelude::*;

verus! {

/// There are frames to select only while the program is stopped, and the selection
/// is one of them.
pub open spec fn frames_fit(session: SessionView) -> bool {
    &&& session.well_formed()
    &&& session.stack.len() > 0 ==> session.state == SessionState::Stopped
}

/// Something that changes a session.
pub enum Change {
    /// A line was typed after another one.
    Line { last_input: Option<Seq<char>>, input: Seq<char> },
    Event { msg: EventMessage },
    /// The threads of a stopped program arrived.
    Threads { threads: Seq<Thread> },
    /// The call stack of a stopped thread arrived.
    Frames { stack: Seq<StackFrame> },
}

/// The session after a change.
pub open spec fn changed(session: SessionView, change: Change) -> SessionView {
    match change {
        Change::Line { last_input, input } => deciding_input(session, last_input, input).session,
        Change::Event { msg } => session_after(session, msg),
        Change::Threads { threads } => session.on_first_thread(threads),
        Change::Frames { stack } => session.at_top_of(stack),
    }
}

/// The session after several changes, the first one first.
pub open spec fn changed_by(session: SessionView, changes: Seq<Change>) -> SessionView
    decreases changes.len(),
{
    if changes.len() == 0 {
        session
    } else {
        changed(changed_by(session, changes.drop_last()), changes.last())
    }
}

/// Whether each call stack arrived while the program was stopped.
pub open spec fn frames_arrive_stopped(session: SessionView, changes: Seq<Change>) -> bool
    decreases changes.len(),
{
    changes.len() > 0 ==> {
        let before = changed_by(session, changes.drop_last());
        &&& frames_arrive_stopped(session, changes.drop_last())
        &&& changes.last() is Frames ==> before.state == SessionState::Stopped
    }
}

/// In every state that a new session can get into, frames are there only while the
/// program is stopped, and the selection is one of them.
pub proof fn law_frames_fit_the_state(changes: Seq<Change>)
    requires
        frames_arrive_stopped(initial_session(), changes),
    ensures
        frames_fit(changed_by(initial_session(), changes)),
    decreases changes.len(),
{
    if changes.len() > 0 {
        law_frames_fit_the_state(changes.drop_last());
        let before = changed_by(initial_session(), changes.drop_last());
        if let Change::Line { last_input, input } = changes.last() {
            law_a_line_only_moves_the_selection(before, last_input, input);
        }
    }
}

/// A stop is resolved while the program is stopped: the event stops it, and the
/// answer about its threads does not move it on.
pub proof fn law_a_stop_is_resolved_while_stopped(
    session: SessionView,
    msg: EventMessage,
    threads: Seq<Thread>,
)
    requires
        msg.event@ == "stopped"@,
    ensures
        session_after(session, msg).state == SessionState::Stopped,
        session_after(session, msg).stack.len() == 0,
        session_after(session, msg).on_first_thread(threads).state == SessionState::Stopped,
{
}

/// The threads and the call stack of a stop are only asked for while the program is
/// stopped.
pub proof fn law_frames_are_asked_for_while_stopped(console: ConsoleView, input: ConsoleInput)
    ensures
        console_step(console, input) matches ConsoleStepView::Ask { ask } && (ask is Threads || ask
            is Stack) ==> console_after(console, input).session.state == SessionState::Stopped,
{
}

/// A typed line changes nothing of the session but which frame is selected, and it
/// selects a frame of the stack.
pub proof fn law_a_line_only_moves_the_selection(
    session: SessionView,
    last_input: Option<Seq<char>>,
    input: Seq<char>,
)
    ensures
        ({
            let after = deciding_input(session, last_input, input).session;
            &&& after == session.selecting(after.selected)
            &&& session.well_formed() ==> after.well_formed()
        }),
{
}

/// An empty line does what the last input did, and leaves it the one to repeat.
pub proof fn law_an_empty_line_repeats(
    session: SessionView,
    before: Option<Seq<char>>,
    input: Seq<char>,
)
    requires
        input.len() > 0,
    ensures
        ({
            let last_input = effective_line(before, input);
            &&& deciding_input(session, last_input, Seq::empty()) == deciding_input(
                session,
                before,
                input,
            )
            &&& effective_line(last_input, Seq::empty()) == last_input
        }),
{
}

/// Before any input there is nothing to repeat.
pub proof fn law_nothing_to_repeat_at_first(session: SessionView)
    ensures
        deciding_input(session, None, Seq::empty()) == (Decided {
            session,
            decision: DecisionView::Done { outcome: OutcomeView::Noop },
        }),
        effective_line(None, Seq::empty()) is None,
{
}

/// Anything that does not start with a colon is evaluated as it stands in the
/// selected frame, or answered with why there is none.
pub proof fn law_a_plain_line_is_evaluated(
    session: SessionView,
    last_input: Option<Seq<char>>,
    input: Seq<char>,
)
    requires
        input.len() > 0,
        input[0] != ':',
    ensures
        ({
            let decided = deciding_input(session, last_input, input);
            &&& decided.session == session
            &&& session.current_frame() is Some ==> decided.decision == (DecisionView::Evaluate {
                request: RequestView {
                    command: "evaluate"@,
                    args: Some(
                        Json::Object(evaluate_fields(input, session.current_frame()->0.id)),
                    ),
                },
            })
            &&& session.current_frame() is None ==> decided.decision == (DecisionView::Done {
                outcome: OutcomeView::EvaluationUnavailable {
                    reason: unavailable_reason(session.state),
                },
            })
        }),
{
}

/// A line with a colon is never evaluated, and one without is never run.
pub proof fn law_a_colon_starts_a_command(
    session: SessionView,
    last_input: Option<Seq<char>>,
    input: Seq<char>,
)
    requires
        input.len() > 0,
    ensures
        input[0] == ':' ==> !(deciding_input(session, last_input, input).decision is Evaluate),
        input[0] != ':' ==> !(deciding_input(session, last_input, input).decision is Drive),
{
}

/// An expression is only ever evaluated while the program is stopped.
pub proof fn law_evaluation_needs_a_stop(
    session: SessionView,
    last_input: Option<Seq<char>>,
    input: Seq<char>,
)
    requires
        frames_fit(session),
        deciding_input(session, last_input, input).decision is Evaluate,
    ensures
        session.state == SessionState::Stopped,
        session.current_frame() is Some,
{
}

/// A run-control request fits the state, and acts on the thread the program last
/// stopped on: a pause needs a running program, the others a stopped one.
pub proof fn law_run_control_fits_the_session(
    session: SessionView,
    last_input: Option<Seq<char>>,
    input: Seq<char>,
)
    ensures
        deciding_input(session, last_input, input).decision matches DecisionView::Drive {
            command,
            request,
        } ==> {
            &&& session.thread_id matches Some(thread_id) && drive_decision(command, thread_id)
                == (DecisionView::Drive { command, request })
            &&& if session.state == SessionState::Running {
                command == "pause"@
            } else {
                session.state == SessionState::Stopped && (command == "continue"@ || command
                    == "next"@ || command == "stepIn"@ || command == "stepOut"@)
            }
        },
{
}

/// The thread of a stop stays the target across the resume that follows it, so
/// that pausing reaches it.
pub proof fn law_a_resume_keeps_the_thread(
    session: SessionView,
    msg: EventMessage,
    thread_id: i64,
)
    requires
        session.thread_id == Some(thread_id),
        msg.event@ == "continued"@,
    ensures
        session_after(session, msg).thread_id == Some(thread_id),
        deciding_pause(session_after(session, msg)) == drive_decision("pause"@, thread_id),
{
    reveal_strlit("continued");
    reveal_strlit("stopped");
    assert("continued"@.len() != "stopped"@.len());
}

/// After the session ended nothing is asked of the adapter any more, whatever is
/// typed, and no frame can be selected.
pub proof fn law_an_ended_session_asks_nothing(
    session: SessionView,
    last_input: Option<Seq<char>>,
    input: Seq<char>,
)
    ensures
        deciding_input(session.ended(), last_input, input).decision is Done,
        deciding_input(session.ended(), last_input, input).session == session.ended(),
{
}

/// Moving up and then down comes back to the frame it started from, and so does
/// moving down and then up.
pub proof fn law_moves_undo_each_other(session: SessionView)
    requires
        session.well_formed(),
    ensures
        session.selected + 1 < session.stack.len() ==> deciding_move(
            deciding_move(session, true).session,
            false,
        ).session == session,
        session.selected > 0 ==> deciding_move(
            deciding_move(session, false).session,
            true,
        ).session == session,
{
}

/// A move that is blocked leaves the selection where it is.
pub proof fn law_a_blocked_move_stays(session: SessionView, up: bool)
    ensures
        deciding_move(session, up).decision matches DecisionView::Done {
            outcome: OutcomeView::NavigationBlocked { reason },
        } ==> deciding_move(session, up).session == session,
{
}

/// An event that is none of the four that matter changes nothing and shows
/// nothing.
pub proof fn law_other_events_are_ignored(console: ConsoleView, msg: EventMessage)
    requires
        msg.event@ != "stopped"@,
        msg.event@ != "continued"@,
        msg.event@ != "terminated"@,
        msg.event@ != "exited"@,
    ensures
        ({
            let input = ConsoleInput::Connection { event: ConnEvent::Dap(msg) };
            &&& console_after(console, input) == console
            &&& console_step(console, input) == (ConsoleStepView::Show {
                text: Seq::empty(),
                prompt: false,
            })
        }),
{
}

/// Every typed line is answered: something is asked of the adapter, or what it
/// came to is shown with a new prompt, or the program ends without an error.
pub proof fn law_every_line_is_answered(console: ConsoleView, raw: String)
    ensures
        match console_step(console, (ConsoleInput::Line { raw })) {
            ConsoleStepView::Ask { .. } => true,
            ConsoleStepView::Show { text, prompt } => prompt,
            ConsoleStepView::Exit { text, error, code } => text.len() == 0 && error.len() == 0
                && code == 0,
        },
{
}

/// The program ends with an error only when its input or its connection failed,
/// and it says so.
pub proof fn law_errors_come_from_outside(console: ConsoleView, input: ConsoleInput)
    ensures
        console_step(console, input) matches ConsoleStepView::Exit { text, error, code } ==> {
            &&& code == 0 || code == 1
            &&& (code == 1) == (input is InputFailed || input matches ConsoleInput::Connection {
                event: ConnEvent::Disconnected(Some(_)),
            })
            &&& (code == 1) == (error.len() > 0)
        },
{
    reveal_strlit("stdin error: ");
    reveal_strlit("\n!! ");
}

/// The lines of a call stack are none exactly when it has no frames, and end with
/// a line break else.
proof fn lemma_stack_text(frames: Seq<FrameLine>, selected: int, count: nat)
    requires
        count <= frames.len(),
    ensures
        count == 0 ==> stack_text(frames, selected, count).len() == 0,
        count > 0 ==> stack_text(frames, selected, count).len() > 0 && stack_text(
            frames,
            selected,
            count,
        ).last() == '\n',
{
    reveal_strlit("\n");
}

/// Whether an outcome has nothing to show.
pub open spec fn silent(outcome: OutcomeView) -> bool {
    match outcome {
        OutcomeView::DriveIssued => true,
        OutcomeView::Quit => true,
        OutcomeView::Noop => true,
        OutcomeView::Stack { frames, selected } => frames.len() == 0,
        _ => false,
    }
}

/// An outcome is shown unless it has nothing to show. What is shown ends its line,
/// and for an event starts on a fresh one.
pub proof fn law_what_is_shown_is_whole_lines(outcome: OutcomeView, source: Source)
    ensures
        silent(outcome) <==> rendered(outcome, source).len() == 0,
        !silent(outcome) ==> rendered(outcome, source).last() == '\n',
        !silent(outcome) && source == Source::Event ==> rendered(outcome, source)[0] == '\n',
        !silent(outcome) ==> rendered(outcome, Source::Event) == "\n"@ + rendered(
            outcome,
            Source::Input,
        ),
{
    reveal_strlit("\n");
    reveal_strlit(" not recognized (try :help)\n");
    reveal_strlit(") — no frame resolved\n");
    reveal_strlit("▶ running…\n");
    reveal_strlit("■ session ended.\n");
    reveal_strlit(
        "commands:\n  :c :continue   resume execution\n  :n :next       step over\n  :s :step       step into\n  :o :finish     step out\n  :pause         pause a running program\n  :up :down      move to the calling or called frame\n  :frame <n>     select frame n\n  :bt :where     print the call stack\n  :help          show this list\n  :q :quit       exit\nanything else is evaluated in the selected frame.\nan empty line repeats the last input.\n",
    );
    if let OutcomeView::Stack { frames, selected } = outcome {
        lemma_stack_text(frames, selected, frames.len());
    }
}

/// A target with a colon is the address as it stands, and one without is a port of the
/// loopback host.
pub proof fn law_a_target_is_kept(target: Seq<char>)
    ensures
        target.contains(':') ==> resolved_addr(Some(target)) == target,
        !target.contains(':') ==> resolved_addr(Some(target)) == "127.0.0.1:"@ + target,
{
}

/// A resolved address always has a port, and resolving it once more keeps it.
pub proof fn law_addresses_are_resolved_once(target: Option<Seq<char>>)
    ensures
        resolved_addr(target).contains(':'),
        resolved_addr(Some(resolved_addr(target))) == resolved_addr(target),
{
    reveal_strlit("127.0.0.1:5679");
    reveal_strlit("127.0.0.1:");
    let addr = resolved_addr(target);
    if target is None || !target->0.contains(':') {
        assert(addr[9] == ':');
    }
}

} // verus!
