//! The console, line by line and event by event.

use dap_console::console::{
    render, Ask, Console, ConsoleInput, ConsoleStep, Source, HELP,
};
use dap_console::outcome::{
    decide_event, decide_input, drive_outcome, evaluation_outcome, stop_outcome, Decision,
    EventDecision, FrameView, Outcome,
};
use dap_console::repl::{
    drive_reply, evaluate_reply, stack_reply, Answer, Evaluated, Session, StopStep,
};
use dap_console::transport::ConnEvent;
use dap_console::types::{
    EvaluateBody, EventMessage, SessionState, StackFrame, StoppedBody, Thread,
};

fn frame(id: i64, name: &str, line: i64) -> StackFrame {
    StackFrame { id, name: name.to_string(), line, source: None }
}

fn frames() -> Vec<StackFrame> {
    vec![frame(10, "is_prime", 43), frame(11, "main", 60), frame(12, "_start", -1)]
}

fn stopped(reason: &str, thread_id: Option<i64>) -> EventMessage {
    EventMessage {
        event: "stopped".to_string(),
        body: Some(StoppedBody { reason: reason.to_string(), thread_id }),
    }
}

fn event(name: &str) -> EventMessage {
    EventMessage { event: name.to_string(), body: None }
}

fn connection(msg: EventMessage) -> ConsoleInput {
    ConsoleInput::Connection { event: ConnEvent::Dap(msg) }
}

fn line(raw: &str) -> ConsoleInput {
    ConsoleInput::Line { raw: raw.to_string() }
}

fn answer<B>(body: B) -> Result<Answer<B>, String> {
    Ok(Answer { success: true, message: None, body: Ok(body) })
}

/// A console stopped at three frames on thread 1.
fn stopped_console() -> Console {
    let mut console = Console::new();
    match console.on_input(connection(stopped("breakpoint", Some(1)))) {
        ConsoleStep::Ask { ask: Ask::Stack { reason, .. } } => {
            console.on_frames(reason, answer(frames()));
        }
        _ => panic!("expected the stack to be asked for"),
    }
    console
}

fn shown(step: ConsoleStep) -> (String, bool) {
    match step {
        ConsoleStep::Show { text, prompt } => (text, prompt),
        _ => panic!("expected something to show"),
    }
}

fn typed(console: &mut Console, raw: &str) -> String {
    let (text, prompt) = shown(console.on_input(line(raw)));
    assert!(prompt);
    text
}

#[test]
fn an_expression_shows_its_value_and_type() {
    let mut console = stopped_console();
    match console.on_input(line("  len(primes) ")) {
        ConsoleStep::Ask { ask: Ask::Evaluate { request } } => {
            let args = request.args.unwrap();
            assert_eq!(args["expression"].as_str(), Some("len(primes)"));
            assert_eq!(args["frameId"].as_i64(), Some(10));
        }
        _ => panic!("expected an evaluation"),
    }
    let body = EvaluateBody { result: "7".to_string(), ty: Some("int".to_string()) };
    assert_eq!(shown(console.on_evaluated(answer(body))), ("=> 7 : int\n".to_string(), true));
}

#[test]
fn a_step_shows_where_it_stopped() {
    let mut console = stopped_console();
    match console.on_input(line(":next")) {
        ConsoleStep::Ask { ask: Ask::Drive { command, request } } => {
            assert_eq!(command, "next");
            assert_eq!(request.command, "next");
            assert_eq!(request.args.unwrap()["threadId"].as_i64(), Some(1));
        }
        _ => panic!("expected a step"),
    }
    assert_eq!(shown(console.on_driven("next", Ok((true, None)))), (String::new(), true));
    match console.on_input(connection(stopped("step", Some(1)))) {
        ConsoleStep::Ask { ask: Ask::Stack { reason, request } } => {
            assert_eq!(request.command, "stackTrace");
            assert_eq!(
                shown(console.on_frames(reason, answer(frames()))),
                ("\n⏸ stop (step) → is_prime @ line 43\n".to_string(), true)
            );
        }
        _ => panic!("expected the stack to be asked for"),
    }
}

#[test]
fn every_command_has_its_request() {
    for (raw, command) in [
        (":c", "continue"),
        (":continue", "continue"),
        (":n", "next"),
        (":next now", "next"),
        (":s", "stepIn"),
        (": step ", "stepIn"),
        (":o", "stepOut"),
        (":finish", "stepOut"),
    ] {
        let mut console = stopped_console();
        match console.on_input(line(raw)) {
            ConsoleStep::Ask { ask: Ask::Drive { command: issued, request } } => {
                assert_eq!(issued, command);
                assert_eq!(request.command, command);
            }
            _ => panic!("expected a run-control request"),
        }
    }
}

#[test]
fn an_empty_line_keeps_stepping() {
    let mut console = stopped_console();
    console.on_input(line(":n"));
    for _ in 0..3 {
        match console.on_input(line("  ")) {
            ConsoleStep::Ask { ask: Ask::Drive { command, .. } } => assert_eq!(command, "next"),
            _ => panic!("expected the step again"),
        }
    }
    assert_eq!(console.last_input.as_deref(), Some(":n"));
}

#[test]
fn an_empty_line_at_first_does_nothing() {
    let mut console = Console::new();
    assert_eq!(typed(&mut console, ""), "");
    assert_eq!(console.last_input, None);
}

#[test]
fn a_lone_colon_does_nothing() {
    let mut console = stopped_console();
    assert_eq!(typed(&mut console, ":"), "");
    assert_eq!(typed(&mut console, ":   "), "");
}

#[test]
fn moving_through_the_stack_and_back() {
    let mut console = stopped_console();
    assert_eq!(typed(&mut console, ":down"), "-- already at the innermost frame\n");
    assert_eq!(typed(&mut console, ":up"), "#1 main @ line 60\n");
    assert_eq!(typed(&mut console, ":up"), "#2 _start @ line -1\n");
    assert_eq!(typed(&mut console, ":up"), "-- already at the outermost frame\n");
    assert_eq!(typed(&mut console, ":down"), "#1 main @ line 60\n");
    assert_eq!(
        typed(&mut console, ":bt"),
        "  #0 is_prime @ line 43\n* #1 main @ line 60\n  #2 _start @ line -1\n"
    );
    assert_eq!(console.session.frame_id(), Some(11));
    assert_eq!(console.session.selected(), 1);
}

#[test]
fn selecting_a_frame_by_number() {
    let mut console = stopped_console();
    assert_eq!(typed(&mut console, ":frame 2"), "#2 _start @ line -1\n");
    assert_eq!(typed(&mut console, ":frame   +1 x"), "#1 main @ line 60\n");
    assert_eq!(typed(&mut console, ":frame 3"), "-- no frame 3, the stack has 3\n");
    assert_eq!(typed(&mut console, ":frame"), "-- usage: :frame <index>\n");
    assert_eq!(typed(&mut console, ":frame -1"), "-- usage: :frame <index>\n");
    assert_eq!(typed(&mut console, ":frame 99999999999999999999"), "-- usage: :frame <index>\n");
    assert_eq!(console.session.selected(), 1);
}

#[test]
fn without_a_frame_nothing_is_evaluated_or_selected() {
    let mut console = Console::new();
    assert_eq!(typed(&mut console, "x"), "-- nothing to evaluate against (not stopped yet)\n");
    assert_eq!(typed(&mut console, ":up"), "-- not stopped at a frame\n");
    assert_eq!(typed(&mut console, ":frame 0"), "-- not stopped at a frame\n");
    assert_eq!(typed(&mut console, ":where"), "-- no stack, not stopped at a frame\n");
    assert_eq!(typed(&mut console, ":c"), "-- can't continue unless stopped\n");
    assert_eq!(typed(&mut console, ":s"), "-- can't stepIn unless stopped\n");
    assert_eq!(typed(&mut console, ":pause"), "-- can't pause unless running\n");

    console.on_input(connection(event("continued")));
    assert_eq!(typed(&mut console, "x"), "-- nothing to evaluate against (the program is running)\n");
    assert_eq!(typed(&mut console, ":pause"), "-- can't pause: no thread\n");

    console.on_input(connection(stopped("pause", None)));
    assert_eq!(
        typed(&mut console, "x"),
        "-- nothing to evaluate against (no frame is resolved at this stop)\n"
    );
    assert_eq!(typed(&mut console, ":o"), "-- can't stepOut: no thread\n");

    console.on_input(connection(event("exited")));
    assert_eq!(typed(&mut console, "x"), "-- nothing to evaluate against (the session has ended)\n");
}

#[test]
fn a_resume_keeps_the_thread_and_drops_the_frames() {
    let mut console = stopped_console();
    assert_eq!(
        shown(console.on_input(connection(event("continued")))),
        ("\n▶ running…\n".to_string(), true)
    );
    assert_eq!(console.session.state, SessionState::Running);
    assert_eq!(console.session.stack().len(), 0);
    match console.on_input(line(":pause")) {
        ConsoleStep::Ask { ask: Ask::Drive { command, request } } => {
            assert_eq!(command, "pause");
            assert_eq!(request.args.unwrap()["threadId"].as_i64(), Some(1));
        }
        _ => panic!("expected a pause"),
    }
}

#[test]
fn a_stop_without_a_thread_takes_the_first_reported_one() {
    let mut console = stopped_console();
    match console.on_input(connection(stopped("pause", None))) {
        ConsoleStep::Ask { ask: Ask::Threads { reason, request } } => {
            assert_eq!(request.command, "threads");
            // Until the threads are known, that of the last stop stands.
            assert_eq!(console.session.thread_id(), Some(1));
            let threads = vec![
                Thread { id: 8, name: "worker".to_string() },
                Thread { id: 9, name: "main".to_string() },
            ];
            match console.on_threads(reason, Ok(threads)) {
                ConsoleStep::Ask { ask: Ask::Stack { reason, request } } => {
                    assert_eq!(request.args.unwrap()["threadId"].as_i64(), Some(8));
                    assert_eq!(console.session.thread_id(), Some(8));
                    assert_eq!(reason, "pause");
                }
                _ => panic!("expected the stack to be asked for"),
            }
        }
        _ => panic!("expected the threads to be asked for"),
    }
}

#[test]
fn a_stop_with_no_threads_has_no_frame() {
    let mut console = Console::new();
    console.on_input(connection(event("stopped")));
    assert_eq!(
        shown(console.on_threads("pause".to_string(), Ok(Vec::new()))),
        ("\n⏸ stopped (pause) — no frame resolved\n".to_string(), true)
    );
    assert_eq!(console.session.thread_id(), None);
}

#[test]
fn a_stop_that_cannot_be_resolved_says_why() {
    let mut console = stopped_console();
    console.on_input(connection(stopped("pause", None)));
    assert_eq!(
        shown(console.on_threads("pause".to_string(), Err("gone".to_string()))),
        ("\n!! gone\n".to_string(), true)
    );
    assert_eq!(
        shown(console.on_frames("pause".to_string(), Err("gone".to_string()))),
        ("\n!! gone\n".to_string(), true)
    );
    let bad = Ok(Answer { success: true, message: None, body: Err("no body".to_string()) });
    assert_eq!(
        shown(console.on_frames("pause".to_string(), bad)),
        ("\n!! no body\n".to_string(), true)
    );
}

#[test]
fn a_stale_stack_request_yields_no_frames() {
    let mut console = stopped_console();
    let refused = Ok(Answer {
        success: false,
        message: Some("running".to_string()),
        body: Err("no body".to_string()),
    });
    assert_eq!(
        shown(console.on_frames("step".to_string(), refused)),
        ("\n⏸ stopped (step) — no frame resolved\n".to_string(), true)
    );
    assert_eq!(console.session.stack().len(), 0);
}

#[test]
fn refused_requests_say_why() {
    let console = stopped_console();
    let refused = |message: Option<&str>| {
        Ok(Answer {
            success: false,
            message: message.map(|text| text.to_string()),
            body: Err("no body".to_string()),
        })
    };
    assert_eq!(shown(console.on_evaluated(refused(None))).0, "!! evaluate failed\n");
    assert_eq!(shown(console.on_evaluated(refused(Some("no x")))).0, "!! no x\n");
    assert_eq!(shown(console.on_evaluated(Err("closed".to_string()))).0, "!! closed\n");
    assert_eq!(shown(console.on_driven("next", Ok((false, None)))).0, "!! next failed\n");
    assert_eq!(
        shown(console.on_driven("next", Ok((false, Some("busy".to_string()))))).0,
        "!! busy\n"
    );
    assert_eq!(shown(console.on_driven("next", Err("closed".to_string()))).0, "!! closed\n");
    let bad: Result<Answer<EvaluateBody>, String> =
        Ok(Answer { success: true, message: None, body: Err("missing field".to_string()) });
    assert_eq!(shown(console.on_evaluated(bad)).0, "!! missing field\n");
}

#[test]
fn other_events_stay_silent() {
    let mut console = stopped_console();
    assert_eq!(
        shown(console.on_input(connection(event("output")))),
        (String::new(), false)
    );
    assert_eq!(console.session.frame_id(), Some(10));
}

#[test]
fn unknown_commands_and_help() {
    let mut console = Console::new();
    assert_eq!(typed(&mut console, ":frobnicate 1"), "-- :frobnicate not recognized (try :help)\n");
    let help = typed(&mut console, ":help");
    assert_eq!(help, HELP);
    for text in [
        ":c :continue   resume execution",
        ":n :next       step over",
        ":s :step       step into",
        ":o :finish     step out",
        ":pause         pause a running program",
        ":up :down      move to the calling or called frame",
        ":bt :where     print the call stack",
    ] {
        assert!(help.contains(text));
    }
}

fn exit_of(step: ConsoleStep) -> (String, String, i32) {
    match step {
        ConsoleStep::Exit { text, error, code } => (text, error, code),
        _ => panic!("expected the end"),
    }
}

#[test]
fn each_way_of_ending() {
    let none = String::new();
    let mut console = stopped_console();
    assert_eq!(exit_of(console.on_input(line(":q"))), (none.clone(), none.clone(), 0));
    assert_eq!(exit_of(console.on_input(line(":quit"))), (none.clone(), none.clone(), 0));
    assert_eq!(exit_of(console.on_input(ConsoleInput::Interrupt)), ("\n".into(), none.clone(), 0));
    assert_eq!(exit_of(console.on_input(ConsoleInput::InputEnded)), ("\n".into(), none.clone(), 0));
    assert_eq!(
        exit_of(console.on_input(ConsoleInput::InputFailed { error: "bad".to_string() })),
        (none.clone(), "stdin error: bad\n".to_string(), 1)
    );
    assert_eq!(
        exit_of(console.on_input(ConsoleInput::ConnectionGone)),
        (none.clone(), none.clone(), 0)
    );
    let broken = ConnEvent::Disconnected(Some("early eof".to_string()));
    assert_eq!(
        exit_of(console.on_input(ConsoleInput::Connection { event: broken })),
        (none.clone(), "\n!! early eof\n".to_string(), 1)
    );
    let clean = ConnEvent::Disconnected(None);
    assert_eq!(
        exit_of(console.on_input(ConsoleInput::Connection { event: clean })),
        ("\n■ session ended.\n".to_string(), none.clone(), 0)
    );
    assert_eq!(
        exit_of(console.on_input(connection(event("terminated")))),
        ("\n■ session ended.\n".to_string(), none, 0)
    );
    assert_eq!(console.session.state(), SessionState::Ended);
}

#[test]
fn an_ended_session_asks_nothing() {
    let mut console = stopped_console();
    console.on_input(connection(event("exited")));
    for raw in ["x", ":c", ":n", ":s", ":o", ":pause", ":up", ":down", ":frame 0", ":bt", ""] {
        assert!(typed(&mut console, raw).starts_with("-- "));
    }
    assert_eq!(console.session.stack().len(), 0);
}

#[test]
fn every_outcome_has_its_text() {
    let value = || "1".to_string();
    let at = || FrameView { name: "f".to_string(), line: 0 };
    let cases = vec![
        (Outcome::Evaluated { value: value(), ty: None }, "=> 1\n"),
        (Outcome::Evaluated { value: value(), ty: Some(String::new()) }, "=> 1\n"),
        (Outcome::Evaluated { value: value(), ty: Some("i8".to_string()) }, "=> 1 : i8\n"),
        (Outcome::EvaluationUnavailable { reason: value() }, "-- 1\n"),
        (Outcome::DriveUnavailable { reason: value() }, "-- 1\n"),
        (Outcome::NavigationBlocked { reason: value() }, "-- 1\n"),
        (Outcome::FrameSelected { index: 10, frame: at() }, "#10 f @ line 0\n"),
        (Outcome::Stack { frames: vec![at()], selected: 0 }, "* #0 f @ line 0\n"),
        (Outcome::Stack { frames: vec![], selected: 0 }, ""),
        (Outcome::Unrecognized { command: value() }, "-- :1 not recognized (try :help)\n"),
        (Outcome::Failed { error: value() }, "!! 1\n"),
        (Outcome::Stopped { reason: value(), frame: Some(at()) }, "⏸ stop (1) → f @ line 0\n"),
        (Outcome::Stopped { reason: value(), frame: None }, "⏸ stopped (1) — no frame resolved\n"),
        (Outcome::Resumed, "▶ running…\n"),
        (Outcome::Ended, "■ session ended.\n"),
        (Outcome::DriveIssued, ""),
        (Outcome::Quit, ""),
        (Outcome::Noop, ""),
    ];
    for (outcome, text) in cases {
        assert_eq!(render(&outcome, Source::Input), text);
        let fresh = if text.is_empty() { String::new() } else { format!("\n{text}") };
        assert_eq!(render(&outcome, Source::Event), fresh);
    }
}

#[test]
fn a_new_session_knows_nothing() {
    let session = Session::default();
    assert_eq!(session.state, SessionState::Connecting);
    assert_eq!(session.thread_id(), None);
    assert_eq!(session.frame_id(), None);
    assert!(session.current_frame().is_none());
    assert_eq!(session.selected(), 0);
}

#[test]
fn a_session_walks_its_stack() {
    let mut session = Session::new();
    assert!(matches!(session.on_stopped(Some(4)), StopStep::Stack { thread_id: 4 }));
    session.on_stack(frames());
    assert!(!session.select_down());
    assert!(session.select_up());
    assert!(session.select_up());
    assert!(!session.select_up());
    assert_eq!(session.current_frame().unwrap().name, "_start");
    assert!(session.select_index(0));
    assert!(!session.select_index(3));
    assert_eq!(session.selected(), 0);
    session.on_continued();
    assert!(!session.select_up());
    assert!(!session.select_index(0));
    assert_eq!(session.thread_id(), Some(4));
    session.on_ended();
    assert_eq!(session.thread_id(), None);
    assert_eq!(session.state, SessionState::Ended);
}

#[test]
fn a_line_is_decided_without_a_console() {
    let mut session = Session::new();
    let mut last_input = None;
    assert!(matches!(
        decide_input(&mut session, &mut last_input, ":q"),
        Decision::Done { outcome: Outcome::Quit }
    ));
    assert!(matches!(
        decide_input(&mut session, &mut last_input, ""),
        Decision::Done { outcome: Outcome::Quit }
    ));
    session.on_stopped(Some(1));
    session.on_stack(frames());
    assert!(matches!(decide_input(&mut session, &mut last_input, "x:y"), Decision::Evaluate { .. }));
    assert_eq!(last_input.as_deref(), Some("x:y"));
}

#[test]
fn an_event_is_decided_without_a_console() {
    let mut session = Session::new();
    match decide_event(&mut session, stopped("step", None)) {
        EventDecision::Resolve { reason, next } => {
            assert_eq!(reason, "step");
            assert!(matches!(next, StopStep::Threads));
        }
        _ => panic!("expected a stop to resolve"),
    }
    session.on_stack(frames());
    match stop_outcome(&session, "step".to_string(), None) {
        Outcome::Stopped { reason, frame: Some(frame) } => {
            assert_eq!(reason, "step");
            assert_eq!(frame.name, "is_prime");
            assert_eq!(frame.line, 43);
        }
        _ => panic!("expected the top frame"),
    }
    assert!(matches!(
        decide_event(&mut session, event("terminated")),
        EventDecision::Done { outcome: Outcome::Ended }
    ));
}

#[test]
fn a_stop_without_a_body_has_no_reason() {
    let mut session = Session::new();
    match decide_event(&mut session, event("stopped")) {
        EventDecision::Resolve { reason, next } => {
            assert_eq!(reason, "");
            assert!(matches!(next, StopStep::Threads));
        }
        _ => panic!("expected a stop to resolve"),
    }
}

#[test]
fn answers_are_read() {
    let ok = Answer {
        success: true,
        message: Some("ignored".to_string()),
        body: Ok(EvaluateBody { result: "2".to_string(), ty: None }),
    };
    match evaluation_outcome(evaluate_reply(ok)) {
        Outcome::Evaluated { value, ty } => {
            assert_eq!(value, "2");
            assert_eq!(ty, None);
        }
        _ => panic!("expected a value"),
    }
    let value = Evaluated { result: "3".to_string(), ty: Some("int".to_string()) };
    assert!(matches!(evaluation_outcome(Ok(value)), Outcome::Evaluated { ty: Some(_), .. }));
    assert!(matches!(drive_outcome(drive_reply("next", true, None)), Outcome::DriveIssued));
    match drive_outcome(drive_reply("pause", false, None)) {
        Outcome::Failed { error } => assert_eq!(error, "pause failed"),
        _ => panic!("expected a failure"),
    }
    let stack = Answer { success: true, message: None, body: Ok(frames()) };
    assert_eq!(stack_reply(stack).ok().unwrap().len(), 3);
}
