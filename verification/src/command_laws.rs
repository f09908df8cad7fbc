//! What each line typed at the console leads to, word by word, and what a stop leads
//! to step by step.

use crate::action_laws::reason_for;
use crate::console::{
    console_after, console_after_frames, console_after_threads, console_step, driven_view,
    evaluation_view, frames_step, rendered, showing, stack_text, threads_step, AskView,
    ConsoleInput, ConsoleStepView, ConsoleView, Source,
};
use crate::json::Json;
use crate::outcome::{
    deciding_input, Decided, DecisionView, FrameLine, OutcomeView,
};
use crate::repl::{Answer, SessionView};
use crate::text::{
    after_first_word, decimal, first_word, is_whitespace, numeral_value, signed_decimal, trim_end,
    trimmed,
};
use crate::text_laws::{
    ends_word, is_gap, is_word, law_a_word_is_found, law_the_first_word_ends_at_space,
    law_trimming_takes_off_the_space,
};
use crate::transport::ConnEvent;
use crate::types::{EvaluateBody, EventMessage, RequestView, SessionState, StackFrame, Thread};
use vstd::prelude::*;

verus! {

/// A line that starts with a colon and then, behind any space, a word.
pub open spec fn command_line(gap: Seq<char>, verb: Seq<char>, rest: Seq<char>) -> Seq<char> {
    seq![':'] + (gap + verb + rest)
}

/// Whether the parts of a command line are what they should be.
pub open spec fn is_command_line(gap: Seq<char>, verb: Seq<char>, rest: Seq<char>) -> bool {
    is_gap(gap) && is_word(verb) && ends_word(rest)
}

/// The text of the command behind the colon has its verb first.
proof fn lemma_verb(gap: Seq<char>, verb: Seq<char>, rest: Seq<char>)
    requires
        is_command_line(gap, verb, rest),
    ensures
        ({
            let line = command_line(gap, verb, rest);
            &&& line.len() > 0
            &&& line[0] == ':'
            &&& first_word(trimmed(line.drop_first())) == verb
            &&& after_first_word(trimmed(line.drop_first())) == trim_end(rest)
        }),
{
    assert(command_line(gap, verb, rest).drop_first() =~= gap + verb + rest);
    law_a_word_is_found(gap, verb, rest);
}

/// The verbs, by what they are. None is another.
proof fn lemma_verbs()
    ensures
        "c"@.len() == 1 && "n"@.len() == 1 && "s"@.len() == 1 && "o"@.len() == 1 && "q"@.len()
            == 1,
        "c"@[0] == 'c' && "n"@[0] == 'n' && "s"@[0] == 's' && "o"@[0] == 'o' && "q"@[0] == 'q',
        "up"@.len() == 2 && "bt"@.len() == 2 && "up"@[0] == 'u' && "bt"@[0] == 'b',
        "next"@.len() == 4 && "step"@.len() == 4 && "down"@.len() == 4 && "help"@.len() == 4
            && "quit"@.len() == 4,
        "next"@[0] == 'n' && "step"@[0] == 's' && "down"@[0] == 'd' && "help"@[0] == 'h'
            && "quit"@[0] == 'q',
        "pause"@.len() == 5 && "frame"@.len() == 5 && "where"@.len() == 5,
        "pause"@[0] == 'p' && "frame"@[0] == 'f' && "where"@[0] == 'w',
        "finish"@.len() == 6,
        "continue"@.len() == 8,
{
    reveal_strlit("c");
    reveal_strlit("n");
    reveal_strlit("s");
    reveal_strlit("o");
    reveal_strlit("q");
    reveal_strlit("up");
    reveal_strlit("bt");
    reveal_strlit("next");
    reveal_strlit("step");
    reveal_strlit("down");
    reveal_strlit("help");
    reveal_strlit("quit");
    reveal_strlit("pause");
    reveal_strlit("frame");
    reveal_strlit("where");
    reveal_strlit("finish");
    reveal_strlit("continue");
}

/// The request that a run-control verb stands for.
pub open spec fn run_control(verb: Seq<char>) -> Option<Seq<char>> {
    if verb == "c"@ || verb == "continue"@ {
        Some("continue"@)
    } else if verb == "n"@ || verb == "next"@ {
        Some("next"@)
    } else if verb == "s"@ || verb == "step"@ {
        Some("stepIn"@)
    } else if verb == "o"@ || verb == "finish"@ {
        Some("stepOut"@)
    } else if verb == "pause"@ {
        Some("pause"@)
    } else {
        None
    }
}

/// The state that a run-control verb needs.
pub open spec fn needed_state(verb: Seq<char>) -> SessionState {
    if verb == "pause"@ {
        SessionState::Running
    } else {
        SessionState::Stopped
    }
}

/// The request that issues a run-control command to a thread.
pub open spec fn run_request(command: Seq<char>, thread_id: i64) -> RequestView {
    RequestView {
        command,
        args: Some(Json::Object(map!["threadId"@ => Json::Int(thread_id as int)])),
    }
}

/// Each run-control verb issues its request to the thread the program last stopped
/// on, whenever the program is in the state it needs. Else it says what is missing.
/// The session stays as it is.
pub proof fn law_run_control_verbs_are_issued(
    session: SessionView,
    last_input: Option<Seq<char>>,
    gap: Seq<char>,
    verb: Seq<char>,
    rest: Seq<char>,
)
    requires
        is_command_line(gap, verb, rest),
        run_control(verb) is Some,
    ensures
        ({
            let decided = deciding_input(session, last_input, command_line(gap, verb, rest));
            let command = run_control(verb)->0;
            &&& decided.session == session
            &&& if session.state == needed_state(verb) && session.thread_id is Some {
                decided.decision == (DecisionView::Drive {
                    command,
                    request: run_request(command, session.thread_id->0),
                })
            } else {
                decided.decision == (DecisionView::Done {
                    outcome: OutcomeView::DriveUnavailable {
                        reason: "can't "@ + command + (if session.state == needed_state(verb) {
                            ": no thread"@
                        } else if verb == "pause"@ {
                            " unless running"@
                        } else {
                            " unless stopped"@
                        }),
                    },
                })
            }
        }),
{
    lemma_verb(gap, verb, rest);
    lemma_verbs();
    reveal_strlit("can't ");
    reveal_strlit(" unless running");
    reveal_strlit(": no thread");
    reveal_strlit("can't pause unless running");
    reveal_strlit("can't pause: no thread");
    assert("can't "@ + "pause"@ + " unless running"@ =~= "can't pause unless running"@) by {
        reveal_strlit("pause");
    }
    assert("can't "@ + "pause"@ + ": no thread"@ =~= "can't pause: no thread"@) by {
        reveal_strlit("pause");
    }
}

/// What is told of a frame.
pub open spec fn told(frame: StackFrame) -> FrameLine {
    FrameLine { name: frame.name@, line: frame.line }
}

/// Whether the decision is that a frame is selected and told, and nothing else of the
/// session changes.
pub open spec fn selects(session: SessionView, decided: Decided, index: int) -> bool {
    &&& decided.session == (SessionView { selected: index, ..session })
    &&& decided.decision == (DecisionView::Done {
        outcome: OutcomeView::FrameSelected { index, frame: told(session.stack[index]) },
    })
}

/// Whether the decision is that nothing is selected, for this reason.
pub open spec fn stays(session: SessionView, decided: Decided, reason: Seq<char>) -> bool {
    &&& decided.session == session
    &&& decided.decision == (DecisionView::Done {
        outcome: OutcomeView::NavigationBlocked { reason },
    })
}

/// Moving up selects the caller and moving down the callee, and either tells the
/// frame it reached. At an end of the stack, or without one, nothing moves.
pub proof fn law_moves_select_the_neighbour(
    session: SessionView,
    last_input: Option<Seq<char>>,
    gap: Seq<char>,
    verb: Seq<char>,
    rest: Seq<char>,
)
    requires
        is_command_line(gap, verb, rest),
        verb == "up"@ || verb == "down"@,
        session.well_formed(),
    ensures
        ({
            let decided = deciding_input(session, last_input, command_line(gap, verb, rest));
            let aim = if verb == "up"@ {
                session.selected + 1
            } else {
                session.selected - 1
            };
            if session.stack.len() == 0 {
                stays(session, decided, "not stopped at a frame"@)
            } else if 0 <= aim < session.stack.len() {
                selects(session, decided, aim)
            } else if verb == "up"@ {
                stays(session, decided, "already at the outermost frame"@)
            } else {
                stays(session, decided, "already at the innermost frame"@)
            }
        }),
{
    lemma_verb(gap, verb, rest);
    lemma_verbs();
}

proof fn lemma_argument(space: Seq<char>, arg: Seq<char>, more: Seq<char>)
    requires
        is_gap(space),
        is_word(arg),
        ends_word(more),
    ensures
        first_word(trim_end(space + arg + more)) == arg,
{
    let s = space + arg + more;
    lemma_trim_end_stops(s, (space.len() + arg.len()) as int);
    let d = trim_end(s).len() - (space.len() + arg.len());
    let left = more.take(d);
    assert(trim_end(s) =~= space + arg + left);
    assert(ends_word(left));
    law_a_word_is_found(space, arg, left);
}

/// Trimming stops at the last character that is no space.
proof fn lemma_trim_end_stops(s: Seq<char>, k: int)
    requires
        0 < k <= s.len(),
        !is_whitespace(s[k - 1]),
    ensures
        k <= trim_end(s).len() <= s.len(),
        trim_end(s) == s.take(trim_end(s).len() as int),
    decreases s.len(),
{
    if s.len() > k && is_whitespace(s.last()) {
        lemma_trim_end_stops(s.drop_last(), k);
        let n = trim_end(s).len() as int;
        assert(s.drop_last().take(n) =~= s.take(n));
    } else {
        assert(s.take(s.len() as int) =~= s);
    }
}

/// Naming a frame by its number selects that frame of the stack and tells it. A
/// number past the stack says how many there are, and anything else how to ask.
pub proof fn law_a_frame_is_selected_by_its_number(
    session: SessionView,
    last_input: Option<Seq<char>>,
    gap: Seq<char>,
    space: Seq<char>,
    arg: Seq<char>,
    more: Seq<char>,
)
    requires
        is_gap(gap),
        space.len() > 0,
        is_gap(space),
        is_word(arg),
        ends_word(more),
        session.well_formed(),
    ensures
        ({
            let line = command_line(gap, "frame"@, space + arg + more);
            let decided = deciding_input(session, last_input, line);
            match numeral_value(arg) {
                Some(n) => if session.stack.len() == 0 {
                    stays(session, decided, "not stopped at a frame"@)
                } else if n < session.stack.len() {
                    selects(session, decided, n as int)
                } else {
                    stays(
                        session,
                        decided,
                        "no frame "@ + decimal(n as nat) + ", the stack has "@ + decimal(
                            session.stack.len(),
                        ),
                    )
                },
                None => stays(session, decided, "usage: :frame <index>"@),
            }
        }),
{
    let rest = space + arg + more;
    assert(rest[0] == space[0]);
    reveal_strlit("frame");
    assert(is_word("frame"@));
    lemma_verb(gap, "frame"@, rest);
    lemma_verbs();
    lemma_argument(space, arg, more);
}

/// The call stack is shown frame by frame as it stands, with the selected one marked.
/// Without one it says so. The session stays as it is.
pub proof fn law_the_stack_is_shown_as_it_stands(
    session: SessionView,
    last_input: Option<Seq<char>>,
    gap: Seq<char>,
    verb: Seq<char>,
    rest: Seq<char>,
    i: int,
)
    requires
        is_command_line(gap, verb, rest),
        verb == "bt"@ || verb == "where"@,
        0 <= i < session.stack.len() || session.stack.len() == 0,
    ensures
        ({
            let decided = deciding_input(session, last_input, command_line(gap, verb, rest));
            if session.stack.len() == 0 {
                stays(session, decided, "no stack, not stopped at a frame"@)
            } else {
                &&& decided.session == session
                &&& decided.decision matches DecisionView::Done {
                    outcome: OutcomeView::Stack { frames, selected },
                } && selected == session.selected && frames.len() == session.stack.len()
                    && frames[i] == told(session.stack[i])
            }
        }),
{
    lemma_verb(gap, verb, rest);
    lemma_verbs();
}

/// Help is shown, quitting quits, and what is no command is named as such. None of
/// them changes the session.
pub proof fn law_other_verbs(
    session: SessionView,
    last_input: Option<Seq<char>>,
    gap: Seq<char>,
    verb: Seq<char>,
    rest: Seq<char>,
)
    requires
        is_command_line(gap, verb, rest),
        run_control(verb) is None,
        verb != "up"@ && verb != "down"@ && verb != "frame"@ && verb != "bt"@ && verb != "where"@,
    ensures
        deciding_input(session, last_input, command_line(gap, verb, rest)) == (Decided {
            session,
            decision: DecisionView::Done {
                outcome: if verb == "help"@ {
                    OutcomeView::Help
                } else if verb == "q"@ || verb == "quit"@ {
                    OutcomeView::Quit
                } else {
                    OutcomeView::Unrecognized { command: verb }
                },
            },
        }),
{
    lemma_verb(gap, verb, rest);
    lemma_verbs();
}

/// The request that evaluates an expression in a frame.
pub open spec fn evaluate_request(expression: Seq<char>, frame_id: i64) -> RequestView {
    RequestView {
        command: "evaluate"@,
        args: Some(
            Json::Object(
                map![
                    "expression"@ => Json::Text(expression),
                    "frameId"@ => Json::Int(frame_id as int),
                    "context"@ => Json::Text("repl"@),
                ],
            ),
        ),
    }
}

/// A line without a colon, apart from the space around it, is sent as it stands to be
/// evaluated in the selected frame. Where there is none, the reason is shown.
pub proof fn law_an_expression_is_sent(console: ConsoleView, raw: String)
    requires
        trimmed(raw@).len() > 0,
        trimmed(raw@)[0] != ':',
        console.session.well_formed(),
    ensures
        ({
            let line = ConsoleInput::Line { raw };
            let session = console.session;
            let step = console_step(console, line);
            &&& console_after(console, line).session == session
            &&& if session.stack.len() > 0 {
                step == (ConsoleStepView::Ask {
                    ask: AskView::Evaluate {
                        request: evaluate_request(
                            trimmed(raw@),
                            session.stack[session.selected].id,
                        ),
                    },
                })
            } else {
                &&& step is Show
                &&& step->Show_text == "-- "@ + reason_for(session.state) + "\n"@
                &&& step->prompt
            }
        }),
{
}

/// A run-control line is sent as the request it stands for.
pub proof fn law_run_control_is_sent(
    console: ConsoleView,
    raw: String,
    gap: Seq<char>,
    verb: Seq<char>,
    rest: Seq<char>,
)
    requires
        is_command_line(gap, verb, rest),
        run_control(verb) is Some,
        trimmed(raw@) == command_line(gap, verb, rest),
        console.session.state == needed_state(verb),
        console.session.thread_id is Some,
    ensures
        ({
            let line = ConsoleInput::Line { raw };
            let command = run_control(verb)->0;
            &&& console_after(console, line).session == console.session
            &&& console_step(console, line) == (ConsoleStepView::Ask {
                ask: AskView::Drive {
                    command,
                    request: run_request(command, console.session.thread_id->0),
                },
            })
        }),
{
    law_run_control_verbs_are_issued(console.session, console.last_input, gap, verb, rest);
}

/// A line that is not empty becomes the one to repeat, and an empty one does what
/// that did.
pub proof fn law_a_line_is_repeated(console: ConsoleView, raw: String, blank: String)
    requires
        trimmed(raw@).len() > 0,
        trimmed(blank@).len() == 0,
    ensures
        ({
            let line = ConsoleInput::Line { raw };
            let again = ConsoleInput::Line { raw: blank };
            let after = console_after(console, line);
            &&& after.last_input == Some(trimmed(raw@))
            &&& console_after(after, again) == console_after(after, line)
            &&& console_step(after, again) == console_step(after, line)
        }),
{
}

/// A stop that names its thread makes it the one that run control acts on, whatever
/// it was before, and asks for its stack.
pub proof fn law_a_stop_takes_over_its_thread(
    console: ConsoleView,
    msg: EventMessage,
    thread_id: i64,
)
    requires
        msg.event@ == "stopped"@,
        msg.body matches Some(body) && body.thread_id == Some(thread_id),
    ensures
        ({
            let input = ConsoleInput::Connection { event: ConnEvent::Dap(msg) };
            let after = console_after(console, input);
            &&& after.last_input == console.last_input
            &&& after.session.thread_id == Some(thread_id)
            &&& after.session.state == SessionState::Stopped
            &&& after.session.stack.len() == 0
            &&& after.session.selected == 0
            &&& console_step(console, input) == (ConsoleStepView::Ask {
                ask: AskView::Stack {
                    reason: msg.body->0.reason@,
                    request: run_request("stackTrace"@, thread_id),
                },
            })
        }),
{
}

/// A stop that names no thread asks for the threads, and leaves the last one until
/// they are known.
pub proof fn law_a_stop_asks_for_the_threads(console: ConsoleView, msg: EventMessage)
    requires
        msg.event@ == "stopped"@,
        msg.body matches Some(body) ==> body.thread_id is None,
    ensures
        ({
            let input = ConsoleInput::Connection { event: ConnEvent::Dap(msg) };
            let after = console_after(console, input);
            &&& after.last_input == console.last_input
            &&& after.session.thread_id == console.session.thread_id
            &&& after.session.state == SessionState::Stopped
            &&& after.session.stack.len() == 0
            &&& console_step(console, input) == (ConsoleStepView::Ask {
                ask: AskView::Threads {
                    reason: match msg.body {
                        Some(body) => body.reason@,
                        None => Seq::empty(),
                    },
                    request: RequestView {
                        command: "threads"@,
                        args: Some(Json::Object(Map::empty())),
                    },
                },
            })
        }),
{
}

/// The first of the threads becomes the one that run control acts on, and its stack
/// is asked for. With none there is no thread and no frame. Nothing else changes.
pub proof fn law_the_first_thread_is_taken(
    console: ConsoleView,
    reason: Seq<char>,
    threads: Vec<Thread>,
)
    requires
        console.session.stack.len() == 0,
    ensures
        ({
            let after = console_after_threads(console, Ok(threads));
            let step = threads_step(console, reason, Ok(threads));
            &&& after == (ConsoleView {
                session: SessionView {
                    thread_id: after.session.thread_id,
                    ..console.session
                },
                ..console
            })
            &&& threads@.len() > 0 ==> {
                &&& after.session.thread_id == Some(threads@[0].id)
                &&& step == (ConsoleStepView::Ask {
                    ask: AskView::Stack {
                        reason,
                        request: run_request("stackTrace"@, threads@[0].id),
                    },
                })
            }
            &&& threads@.len() == 0 ==> {
                &&& after.session.thread_id is None
                &&& step is Show
                &&& step->Show_text == "\n"@ + ("⏸ stopped ("@ + reason
                    + ") — no frame resolved\n"@)
                &&& step->prompt
            }
        }),
{
    reveal_strlit("⏸ stopped (");
    reveal_strlit("\n");
}

/// The stack that a stop is resolved to is taken over, with its top frame selected and
/// told. Neither the thread nor anything else changes. A refused request means that
/// there is none.
pub proof fn law_the_stack_of_a_stop_is_taken_over(
    console: ConsoleView,
    reason: Seq<char>,
    answer: Answer<Vec<StackFrame>>,
)
    requires
        answer.success ==> answer.body is Ok,
    ensures
        ({
            let after = console_after_frames(console, Ok(answer));
            let step = frames_step(console, reason, Ok(answer));
            &&& after == (ConsoleView {
                session: SessionView {
                    stack: after.session.stack,
                    selected: after.session.selected,
                    ..console.session
                },
                ..console
            })
            &&& after.session.selected == 0
            &&& answer.success ==> after.session.stack == answer.body->Ok_0@
            &&& !answer.success ==> after.session.stack.len() == 0
            &&& step is Show
            &&& step->prompt
            &&& step->Show_text == "\n"@ + (if after.session.stack.len() > 0 {
                let top = after.session.stack[0];
                "⏸ stop ("@ + reason + ") → "@ + (top.name@ + " @ line "@ + signed_decimal(
                    top.line as int,
                )) + "\n"@
            } else {
                "⏸ stopped ("@ + reason + ") — no frame resolved\n"@
            })
        }),
{
    reveal_strlit("⏸ stopped (");
    reveal_strlit("⏸ stop (");
    reveal_strlit("\n");
}

/// What could not be had of a stop changes nothing, and is told.
pub proof fn law_a_stop_that_fails_is_told(
    console: ConsoleView,
    reason: Seq<char>,
    message: Option<String>,
    error: String,
)
    ensures
        ({
            let told = ConsoleStepView::Show {
                text: "\n"@ + ("!! "@ + error@ + "\n"@),
                prompt: true,
            };
            &&& console_after_threads(console, Err(error)) == console
            &&& threads_step(console, reason, Err(error)) == told
            &&& console_after_frames(console, Err(error)) == console
            &&& frames_step(console, reason, Err(error)) == told
            &&& console_after_frames(
                console,
                Ok(Answer { success: true, message, body: Err(error) }),
            ) == console
            &&& frames_step(
                console,
                reason,
                Ok(Answer { success: true, message, body: Err(error) }),
            ) == told
        }),
{
    reveal_strlit("!! ");
    reveal_strlit("\n");
}

/// A step that is typed once a stop was resolved goes to the thread of that stop.
pub proof fn law_a_step_goes_to_the_latest_stop(
    console: ConsoleView,
    msg: EventMessage,
    thread_id: i64,
    answer: Answer<Vec<StackFrame>>,
    raw: String,
    gap: Seq<char>,
    verb: Seq<char>,
    rest: Seq<char>,
)
    requires
        msg.event@ == "stopped"@,
        msg.body matches Some(body) && body.thread_id == Some(thread_id),
        is_command_line(gap, verb, rest),
        run_control(verb) is Some,
        verb != "pause"@,
        trimmed(raw@) == command_line(gap, verb, rest),
    ensures
        ({
            let stopped = console_after(
                console,
                ConsoleInput::Connection { event: ConnEvent::Dap(msg) },
            );
            let resolved = console_after_frames(stopped, Ok(answer));
            let command = run_control(verb)->0;
            console_step(resolved, ConsoleInput::Line { raw }) == (ConsoleStepView::Ask {
                ask: AskView::Drive { command, request: run_request(command, thread_id) },
            })
        }),
{
    law_a_stop_takes_over_its_thread(console, msg, thread_id);
    let stopped = console_after(
        console,
        ConsoleInput::Connection { event: ConnEvent::Dap(msg) },
    );
    let resolved = console_after_frames(stopped, Ok(answer));
    assert(resolved.session.thread_id == Some(thread_id));
    assert(resolved.session.state == SessionState::Stopped);
    law_run_control_is_sent(resolved, raw, gap, verb, rest);
}

/// A resume drops the frames and keeps the thread, the end drops both, and either is
/// told. The line to repeat stays.
pub proof fn law_resumes_and_ends_are_told(console: ConsoleView, msg: EventMessage)
    requires
        msg.event@ == "continued"@ || msg.event@ == "terminated"@ || msg.event@ == "exited"@,
    ensures
        ({
            let input = ConsoleInput::Connection { event: ConnEvent::Dap(msg) };
            let after = console_after(console, input);
            let step = console_step(console, input);
            &&& after.last_input == console.last_input
            &&& after.session.stack.len() == 0
            &&& after.session.selected == 0
            &&& if msg.event@ == "continued"@ {
                &&& after.session.state == SessionState::Running
                &&& after.session.thread_id == console.session.thread_id
                &&& step is Show && step->Show_text == "\n"@ + "▶ running…\n"@ && step->prompt
            } else {
                &&& after.session.state == SessionState::Ended
                &&& after.session.thread_id is None
                &&& step is Exit && step->Exit_text == "\n"@ + "■ session ended.\n"@
                    && step->code == 0
            }
        }),
{
    reveal_strlit("stopped");
    reveal_strlit("continued");
    reveal_strlit("terminated");
    reveal_strlit("exited");
    assert("continued"@.len() == 9 && "stopped"@.len() == 7 && "terminated"@.len() == 10
        && "exited"@.len() == 6);
    reveal_strlit("▶ running…\n");
    reveal_strlit("■ session ended.\n");
    reveal_strlit("\n");
}

/// A name and a line, as a frame is told.
pub open spec fn name_and_line(frame: FrameLine) -> Seq<char> {
    frame.name + " @ line "@ + signed_decimal(frame.line as int)
}

/// What each outcome reads as: values with their type when there is one, refusals,
/// errors, frames, and stops, each with its own mark and nothing left out.
pub proof fn law_outcomes_read_in_full(outcome: OutcomeView)
    ensures
        ({
            let text = rendered(outcome, Source::Input);
            match outcome {
                OutcomeView::Evaluated { value, ty } => text == "=> "@ + value + (if ty is Some
                    && ty->0.len() > 0 {
                    " : "@ + ty->0
                } else {
                    Seq::empty()
                }) + "\n"@,
                OutcomeView::EvaluationUnavailable { reason } => text == "-- "@ + reason + "\n"@,
                OutcomeView::DriveUnavailable { reason } => text == "-- "@ + reason + "\n"@,
                OutcomeView::NavigationBlocked { reason } => text == "-- "@ + reason + "\n"@,
                OutcomeView::FrameSelected { index, frame } => text == "#"@ + decimal(
                    index as nat,
                ) + " "@ + name_and_line(frame) + "\n"@,
                OutcomeView::Unrecognized { command } => text == "-- :"@ + command
                    + " not recognized (try :help)\n"@,
                OutcomeView::Failed { error } => text == "!! "@ + error + "\n"@,
                OutcomeView::Stopped { reason, frame } => text == match frame {
                    Some(frame) => "⏸ stop ("@ + reason + ") → "@ + name_and_line(frame) + "\n"@,
                    None => "⏸ stopped ("@ + reason + ") — no frame resolved\n"@,
                },
                OutcomeView::DriveIssued => text.len() == 0,
                OutcomeView::Quit => text.len() == 0,
                OutcomeView::Noop => text.len() == 0,
                _ => true,
            }
        }),
{
    let text = rendered(outcome, Source::Input);
    if let OutcomeView::Evaluated { value, ty } = outcome {
        if ty is Some && ty->0.len() > 0 {
            assert(text =~= "=> "@ + value + (" : "@ + ty->0) + "\n"@);
        } else {
            assert(text =~= "=> "@ + value + Seq::empty() + "\n"@);
        }
    }
}

proof fn lemma_stack_prefix(frames: Seq<FrameLine>, frame: FrameLine, selected: int, count: nat)
    requires
        count <= frames.len(),
    ensures
        stack_text(frames.push(frame), selected, count) == stack_text(frames, selected, count),
    decreases count,
{
    if count > 0 {
        lemma_stack_prefix(frames, frame, selected, (count - 1) as nat);
    }
}

/// A call stack reads line by line, one for each frame with its number, and a star
/// before the selected one.
pub proof fn law_the_stack_reads_line_by_line(
    frames: Seq<FrameLine>,
    frame: FrameLine,
    selected: int,
)
    ensures
        rendered(OutcomeView::Stack { frames: Seq::empty(), selected }, Source::Input).len() == 0,
        rendered(OutcomeView::Stack { frames: frames.push(frame), selected }, Source::Input)
            == rendered(OutcomeView::Stack { frames, selected }, Source::Input) + (if selected
            == frames.len() {
            "*"@
        } else {
            " "@
        }) + " #"@ + decimal(frames.len()) + " "@ + name_and_line(frame) + "\n"@,
{
    lemma_stack_prefix(frames, frame, selected, frames.len());
}

/// The answer to an evaluation is shown: its value and type, or why there is none.
/// That of a run-control request is shown only when it was refused. Either way a new
/// prompt follows.
pub proof fn law_answers_are_shown(
    answer: Result<Answer<EvaluateBody>, String>,
    command: Seq<char>,
    success: bool,
    message: Option<String>,
)
    ensures
        showing(evaluation_view(answer), Source::Input) == (ConsoleStepView::Show {
            text: rendered(
                match answer {
                    Ok(Answer { success: true, message, body: Ok(body) }) => {
                        OutcomeView::Evaluated {
                            value: body.result@,
                            ty: match body.ty {
                                Some(ty) => Some(ty@),
                                None => None,
                            },
                        }
                    },
                    Ok(Answer { success: true, message, body: Err(error) }) => {
                        OutcomeView::Failed { error: error@ }
                    },
                    Ok(Answer { success: false, message: Some(message), body }) => {
                        OutcomeView::Failed { error: message@ }
                    },
                    Ok(Answer { success: false, message: None, body }) => OutcomeView::Failed {
                        error: "evaluate"@ + " failed"@,
                    },
                    Err(error) => OutcomeView::Failed { error: error@ },
                },
                Source::Input,
            ),
            prompt: true,
        }),
        showing(driven_view(command, Ok((success, message))), Source::Input)
            == (ConsoleStepView::Show {
            text: if success {
                Seq::empty()
            } else {
                "!! "@ + (match message {
                    Some(message) => message@,
                    None => command + " failed"@,
                }) + "\n"@
            },
            prompt: true,
        }),
{
}

/// A colon with nothing but space behind it does nothing.
pub proof fn law_a_lone_colon_does_nothing(
    session: SessionView,
    last_input: Option<Seq<char>>,
    gap: Seq<char>,
)
    requires
        is_gap(gap),
    ensures
        deciding_input(session, last_input, seq![':'] + gap) == (Decided {
            session,
            decision: DecisionView::Done { outcome: OutcomeView::Noop },
        }),
{
    assert((seq![':'] + gap).drop_first() =~= gap);
    let (a, b) = law_trimming_takes_off_the_space(gap);
    if a < b {
        assert(is_whitespace(gap[a]));
    }
    let cmd = trimmed(gap);
    assert(cmd.len() == 0);
    let (c, d) = law_the_first_word_ends_at_space(cmd);
}

/// What a line was decided to come to is shown in full, with a new prompt. Quitting
/// ends the program, without an error.
pub proof fn law_what_a_line_comes_to_is_shown(
    console: ConsoleView,
    raw: String,
    outcome: OutcomeView,
)
    requires
        deciding_input(console.session, console.last_input, trimmed(raw@)).decision
            == (DecisionView::Done { outcome }),
    ensures
        console_step(console, ConsoleInput::Line { raw }) == if outcome is Quit {
            ConsoleStepView::Exit { text: Seq::empty(), error: Seq::empty(), code: 0 }
        } else {
            ConsoleStepView::Show { text: rendered(outcome, Source::Input), prompt: true }
        },
{
}

/// A failure of the input or of the connection ends the program with the reason it
/// came with, and the session stays as it was.
pub proof fn law_failures_are_told_with_their_reason(console: ConsoleView, error: String)
    ensures
        ({
            let typed = ConsoleInput::InputFailed { error };
            let lost = ConsoleInput::Connection { event: ConnEvent::Disconnected(Some(error)) };
            &&& console_after(console, typed) == console
            &&& console_after(console, lost) == console
            &&& console_step(console, typed) == (ConsoleStepView::Exit {
                text: Seq::empty(),
                error: "stdin error: "@ + error@ + "\n"@,
                code: 1,
            })
            &&& console_step(console, lost) == (ConsoleStepView::Exit {
                text: Seq::empty(),
                error: "\n!! "@ + error@ + "\n"@,
                code: 1,
            })
        }),
{
}

} // verus!
