//! The model under actions, events, and replies, on concrete values.

use dap_console::model::{
    find_selectable, find_watch, help_lines, rfind_selectable, DebuggerModel, InputMode, Row,
    RowKind, Tone, TranscriptEntry, Tree, Watch, WatchState,
};
use dap_console::node::{descend, VarNode};
use dap_console::types::{EventMessage, SessionState, StackFrame, StoppedBody};
use dap_console::update::{
    apply_action, apply_event, apply_update, evaluation_unavailable_reason, submit_input,
    toggle_watch, Action, Effect, FetchTarget, Update, UpdateKind,
};

fn frame(id: i64, name: &str, line: i64) -> StackFrame {
    StackFrame { id, name: name.to_string(), line, source: None }
}

fn var(name: &str, var_ref: i64) -> VarNode {
    VarNode {
        name: name.to_string(),
        value: format!("<{name}>"),
        ty: "T".to_string(),
        eval_name: name.to_string(),
        var_ref,
        children: None,
        expanded: false,
    }
}

fn parent(name: &str, children: Vec<VarNode>) -> VarNode {
    let mut node = var(name, 1);
    node.children = Some(children);
    node.expanded = true;
    node
}

fn event(name: &str) -> EventMessage {
    EventMessage { event: name.to_string(), body: None }
}

fn update(model: &mut DebuggerModel, kind: UpdateKind) -> Vec<Effect> {
    let epoch = model.epoch;
    apply_update(model, Update { epoch, kind })
}

/// A model stopped on thread 1 at frame 10, called by frame 11.
fn stopped_at(roots: Vec<VarNode>) -> DebuggerModel {
    let mut model = DebuggerModel::new();
    let body = StoppedBody { reason: "step".to_string(), thread_id: Some(1) };
    apply_event(&mut model, EventMessage { event: "stopped".to_string(), body: Some(body) });
    update(
        &mut model,
        UpdateKind::Stopped {
            thread_id: Some(1),
            stack: vec![frame(10, "inner", 5), frame(11, "outer", 9)],
            frame_id: Some(10),
            roots,
        },
    );
    model
}

fn names(model: &DebuggerModel) -> Vec<String> {
    model.rows.iter().map(|row| row.name.clone()).collect()
}

fn type_in(model: &mut DebuggerModel, text: &str) {
    for c in text.chars() {
        apply_action(model, Action::InputChar(c));
    }
}

fn place(model: &mut DebuggerModel, tree: Tree, path: &[usize]) {
    model.selected_row = model
        .rows
        .iter()
        .position(|row| row.selectable() && row.tree == tree && row.path == path)
        .unwrap();
}

#[test]
fn a_new_model_waits() {
    let model = DebuggerModel::default();
    assert_eq!(model.state, SessionState::Connecting);
    assert_eq!(model.status, "waiting for the program to stop (breakpoint or step)…");
    assert!(model.rows.is_empty());
    assert!(model.build_rows().is_empty());
    assert!(model.mode == InputMode::Normal);
    assert!(model.selected_stack_frame().is_none());
}

#[test]
fn typing_edits_the_line() {
    let mut model = DebuggerModel::new();
    apply_action(&mut model, Action::EnterInsert);
    assert!(model.mode == InputMode::Insert);
    type_in(&mut model, "aü⏎");
    assert_eq!(model.input, "aü⏎");
    apply_action(&mut model, Action::InputBackspace);
    assert_eq!(model.input, "aü");
    for _ in 0..4 {
        apply_action(&mut model, Action::InputBackspace);
    }
    assert_eq!(model.input, "");
    type_in(&mut model, "x");
    apply_action(&mut model, Action::InputCancel);
    assert_eq!(model.input, "");
    assert!(model.mode == InputMode::Normal);
}

#[test]
fn an_empty_line_repeats_the_last_expression() {
    let mut model = stopped_at(vec![]);
    assert!(apply_action(&mut model, Action::InputSubmit).is_empty());
    type_in(&mut model, "  x + 1 ");
    apply_action(&mut model, Action::InputSubmit);
    type_in(&mut model, "   ");
    let effects = apply_action(&mut model, Action::InputSubmit);
    match effects.as_slice() {
        [Effect::Evaluate { expression, frame_id, epoch }] => {
            assert_eq!(expression, "x + 1");
            assert_eq!(*frame_id, 10);
            assert_eq!(*epoch, model.epoch);
        }
        _ => panic!("expected the expression again"),
    }
}

#[test]
fn submitting_an_empty_line_is_submitting_the_last_expression() {
    let submitted = |text: &str| {
        let mut model = stopped_at(vec![]);
        model.last_expression = Some("x".to_string());
        model.input = text.to_string();
        let effects = submit_input(&mut model);
        assert_eq!(model.input, "");
        assert_eq!(model.last_expression.as_deref(), Some("x"));
        match effects.as_slice() {
            [Effect::Evaluate { expression, frame_id, epoch }] => {
                (expression.clone(), *frame_id, *epoch)
            }
            _ => panic!("expected an evaluation"),
        }
    };
    assert_eq!(submitted(" \t"), submitted("x"));
    let mut model = stopped_at(vec![]);
    model.input = "  ".to_string();
    assert!(submit_input(&mut model).is_empty());
    assert_eq!(model.input, "");
    assert!(model.transcript.is_empty());
}

#[test]
fn toggling_a_watch_twice_gives_back_the_list() {
    let mut model = stopped_at(vec![var("a", 0)]);
    model.watches.push(Watch { expression: "w".to_string(), state: WatchState::Unavailable });
    model.rebuild_rows();
    place(&mut model, Tree::Scope, &[0]);
    assert_eq!(toggle_watch(&mut model).len(), 1);
    assert_eq!(model.watches.len(), 2);
    assert!(toggle_watch(&mut model).is_empty());
    assert_eq!(model.watches.len(), 1);
    assert_eq!(model.watches[0].expression, "w");
    assert!(matches!(model.watches[0].state, WatchState::Unavailable));
}

#[test]
fn help_and_unknown_commands_go_to_the_transcript() {
    let mut model = stopped_at(vec![]);
    for text in ["help", ":help", "?", ":?"] {
        type_in(&mut model, text);
        assert!(apply_action(&mut model, Action::InputSubmit).is_empty());
        assert!(matches!(model.transcript.last(), Some(TranscriptEntry::Help)));
    }
    type_in(&mut model, ":next");
    assert!(apply_action(&mut model, Action::InputSubmit).is_empty());
    match model.rows.last() {
        Some(row) => {
            assert_eq!(row.name, "-- :next is not a command; type an expression to evaluate");
            assert!(row.tone == Tone::Note);
            assert!(row.kind == RowKind::Message);
        }
        None => panic!("expected a row"),
    }
    assert_eq!(model.last_expression, None);
    assert_eq!(model.rows.len(), 1 + 4 * 11 + 1);
}

#[test]
fn the_help_names_the_keys() {
    let lines = help_lines();
    assert_eq!(lines.len(), 11);
    assert_eq!(lines[0], "i            type an expression to evaluate (Esc to leave)");
    assert_eq!(lines[10], "?            toggle this help      q  quit");
}

#[test]
fn reasons_name_the_state() {
    let reasons = [
        (SessionState::Connecting, "nothing to evaluate against (not stopped yet)"),
        (SessionState::Running, "nothing to evaluate against (the program is running)"),
        (
            SessionState::Stopped,
            "nothing to evaluate against (no frame is resolved at this stop)",
        ),
        (SessionState::Ended, "nothing to evaluate against (the session has ended)"),
    ];
    for (state, reason) in reasons {
        assert_eq!(evaluation_unavailable_reason(state), reason);
        let mut model = DebuggerModel::new();
        model.state = state;
        type_in(&mut model, "x");
        apply_action(&mut model, Action::InputSubmit);
        assert_eq!(model.rows.last().unwrap().name, format!("-- {reason}"));
    }
}

#[test]
fn quitting_and_the_help_overlay() {
    let mut model = DebuggerModel::new();
    apply_action(&mut model, Action::ToggleHelp);
    assert!(model.show_help);
    apply_action(&mut model, Action::ToggleHelp);
    assert!(!model.show_help);
    assert!(!model.should_quit);
    apply_action(&mut model, Action::Quit);
    assert!(model.should_quit);
}

#[test]
fn the_cursor_skips_what_it_cannot_land_on() {
    let mut model = stopped_at(vec![var("a", 0), var("b", 0)]);
    model.watches.push(Watch { expression: "w".to_string(), state: WatchState::Pending });
    model.push_transcript(TranscriptEntry::Error { message: "no".to_string() });
    model.push_transcript(TranscriptEntry::Evaluated { node: var("r", 0) });
    model.rebuild_rows();
    assert_eq!(names(&model), ["watched", "w", "a", "b", "transcript", "!! no", "r"]);
    assert_eq!(model.selected_row, 1);
    let mut seen = vec![];
    for _ in 0..5 {
        seen.push(model.selected_row);
        apply_action(&mut model, Action::RowDown);
    }
    assert_eq!(seen, [1, 2, 3, 6, 6]);
    apply_action(&mut model, Action::RowUp);
    assert_eq!(model.selected_row, 3);
    apply_action(&mut model, Action::RowLast);
    assert_eq!(model.selected_row, 6);
    apply_action(&mut model, Action::RowFirst);
    assert_eq!(model.selected_row, 1);
    apply_action(&mut model, Action::RowUp);
    assert_eq!(model.selected_row, 1);
}

#[test]
fn a_cursor_out_of_place_is_clamped() {
    let mut model = stopped_at(vec![var("a", 0)]);
    model.selected_row = 40;
    model.rebuild_rows();
    assert_eq!(model.selected_row, 0);
    model.push_transcript(TranscriptEntry::Error { message: "no".to_string() });
    model.selected_row = 40;
    model.rebuild_rows();
    // Below the node there is only a header and a message.
    assert_eq!(model.selected_row, 0);
    model.roots.clear();
    model.selected_row = 1;
    model.rebuild_rows();
    assert_eq!(model.selected_row, 0);
}

#[test]
fn a_clamped_cursor_takes_the_nearest_row() {
    let mut model = stopped_at(vec![var("a", 0)]);
    model.push_transcript(TranscriptEntry::Error { message: "no".to_string() });
    model.push_transcript(TranscriptEntry::Evaluated { node: var("r", 0) });
    model.rebuild_rows();
    assert_eq!(names(&model), ["a", "transcript", "!! no", "r"]);
    for (from, to) in [(0, 0), (1, 0), (2, 3), (3, 3), (4, 3)] {
        model.selected_row = from;
        model.rebuild_rows();
        assert_eq!(model.selected_row, to);
    }
    // Of two equally near rows it is the one below.
    model.transcript.remove(0);
    model.selected_row = 1;
    model.rebuild_rows();
    assert_eq!(names(&model), ["a", "transcript", "r"]);
    assert_eq!(model.selected_row, 2);
}

#[test]
fn selectable_rows_are_found_from_either_side() {
    let mut model = stopped_at(vec![var("a", 0)]);
    model.push_transcript(TranscriptEntry::Evaluated { node: var("r", 0) });
    model.rebuild_rows();
    let rows: &Vec<Row> = &model.rows;
    assert_eq!(find_selectable(rows, 0), Some(0));
    assert_eq!(find_selectable(rows, 1), Some(2));
    assert_eq!(find_selectable(rows, 3), None);
    assert_eq!(rfind_selectable(rows, 3), Some(2));
    assert_eq!(rfind_selectable(rows, 2), Some(0));
    assert_eq!(rfind_selectable(rows, 0), None);
}

#[test]
fn rows_carry_what_they_show() {
    let mut inner = var("c", 7);
    inner.children = Some(vec![]);
    let model = stopped_at(vec![parent("a", vec![var("b", 0), inner])]);
    let row = &model.rows[2];
    assert!(row.tree == Tree::Scope);
    assert_eq!(row.path, [0, 1]);
    assert_eq!(row.depth, 1);
    assert_eq!(row.name, "c");
    assert_eq!(row.value, "<c>");
    assert_eq!(row.ty, "T");
    assert_eq!(row.eval_name, "c");
    assert!(row.expandable && row.fetched && !row.expanded && !row.watched);
    assert!(!model.rows[1].expandable);
    assert!(model.rows[0].expanded);
}

#[test]
fn addresses_lead_back_to_nodes() {
    let mut model = stopped_at(vec![var("a", 0), parent("b", vec![var("c", 0), var("d", 2)])]);
    model.watches.push(Watch {
        expression: "b".to_string(),
        state: WatchState::Resolved(parent("b", vec![var("c", 0)])),
    });
    model.push_transcript(TranscriptEntry::Help);
    model.push_transcript(TranscriptEntry::Evaluated { node: parent("r", vec![var("s", 0)]) });
    model.rebuild_rows();
    let addresses: Vec<(Tree, Vec<usize>, String)> = model
        .rows
        .iter()
        .filter(|row| row.selectable())
        .map(|row| (row.tree, row.path.clone(), row.name.clone()))
        .collect();
    assert_eq!(addresses.len(), 8);
    for (i, (tree, path, name)) in addresses.iter().enumerate() {
        let node = match tree {
            Tree::Scope => model.scope_node_mut(path),
            Tree::Watch => model.watch_node_mut(path),
            Tree::Result => model.result_node_mut(path),
        };
        assert_eq!(&node.unwrap().name, name);
        for (other, other_path, _) in &addresses[..i] {
            assert!(tree != other || path != other_path);
        }
    }
}

#[test]
fn addresses_that_lead_nowhere() {
    let mut model = stopped_at(vec![var("a", 0)]);
    model.watches.push(Watch { expression: "w".to_string(), state: WatchState::Pending });
    model.push_transcript(TranscriptEntry::Help);
    assert!(model.scope_node_mut(&[]).is_none());
    assert!(model.scope_node_mut(&[1]).is_none());
    assert!(model.scope_node_mut(&[0, 0]).is_none());
    assert!(model.watch_node_mut(&[]).is_none());
    assert!(model.watch_node_mut(&[0]).is_none());
    assert!(model.watch_node_mut(&[1]).is_none());
    assert!(model.watch_node_mut_by_expression("w", &[]).is_none());
    assert!(model.watch_node_mut_by_expression("v", &[]).is_none());
    assert!(model.result_node_mut(&[]).is_none());
    assert!(model.result_node_mut(&[0]).is_none());
    assert!(model.result_node_mut(&[1]).is_none());
}

#[test]
fn descending_changes_the_node_in_place() {
    let mut root = parent("a", vec![var("b", 0), parent("c", vec![var("d", 0)])]);
    descend(&mut root, &[9, 1, 0], 1).unwrap().value = "new".to_string();
    let children = root.children.as_ref().unwrap();
    assert_eq!(children[1].children.as_ref().unwrap()[0].value, "new");
    assert_eq!(children[0].value, "<b>");
    assert!(descend(&mut root, &[1, 1], 0).is_none());
}

#[test]
fn children_are_fetched_once_and_land() {
    let mut model = stopped_at(vec![var("a", 0), var("b", 77)]);
    place(&mut model, Tree::Scope, &[1]);
    let effects = apply_action(&mut model, Action::Expand);
    match effects.into_iter().next() {
        Some(Effect::FetchChildren { target: FetchTarget::Scope { path }, var_ref, epoch }) => {
            assert_eq!(path, [1]);
            assert_eq!(var_ref, 77);
            assert_eq!(epoch, model.epoch);
            let children = vec![var("c", 0)];
            let target = FetchTarget::Scope { path };
            assert!(update(&mut model, UpdateKind::Children { target, children }).is_empty());
        }
        _ => panic!("expected the children to be fetched"),
    }
    assert_eq!(names(&model), ["a", "b", "c"]);
    assert!(apply_action(&mut model, Action::Collapse).is_empty());
    assert_eq!(names(&model), ["a", "b"]);
    assert!(apply_action(&mut model, Action::Expand).is_empty());
    assert_eq!(names(&model), ["a", "b", "c"]);
    assert_eq!(model.selected_row, 1);
}

#[test]
fn a_leaf_fetches_nothing() {
    let mut model = stopped_at(vec![var("a", 0)]);
    for action in [Action::Expand, Action::Collapse, Action::ToggleExpand] {
        assert!(apply_action(&mut model, action).is_empty());
    }
    assert!(!model.roots[0].expanded);
}

#[test]
fn toggling_twice_gives_back_the_rows() {
    let mut model = stopped_at(vec![parent("a", vec![var("b", 0)]), var("c", 0)]);
    let before = names(&model);
    assert!(apply_action(&mut model, Action::ToggleExpand).is_empty());
    assert_eq!(names(&model), ["a", "c"]);
    assert_eq!(model.selected_row, 0);
    apply_action(&mut model, Action::ToggleExpand);
    assert_eq!(names(&model), before);
    assert_eq!(model.selected_row, 0);
}

#[test]
fn children_of_a_watch_find_it_at_another_position() {
    let mut model = stopped_at(vec![]);
    for name in ["first", "second"] {
        model.watches.push(Watch {
            expression: name.to_string(),
            state: WatchState::Resolved(var(name, 5)),
        });
    }
    model.rebuild_rows();
    place(&mut model, Tree::Watch, &[1]);
    let effects = apply_action(&mut model, Action::Expand);
    let target = match effects.into_iter().next() {
        Some(Effect::FetchChildren { target, .. }) => target,
        _ => panic!("expected the children to be fetched"),
    };
    match &target {
        FetchTarget::Watch { expression, subpath } => {
            assert_eq!(expression, "second");
            assert!(subpath.is_empty());
        }
        _ => panic!("expected a target below a watch"),
    }
    // The first watch is unpinned while the fetch is in flight.
    place(&mut model, Tree::Watch, &[0]);
    apply_action(&mut model, Action::ToggleWatch);
    update(&mut model, UpdateKind::Children { target, children: vec![var("kid", 0)] });
    assert_eq!(names(&model), ["watched", "second", "kid"]);
}

#[test]
fn children_of_a_result_find_it() {
    let mut model = stopped_at(vec![]);
    update(&mut model, UpdateKind::Evaluated { result: Ok(var("r", 3)) });
    place(&mut model, Tree::Result, &[0]);
    let effects = apply_action(&mut model, Action::ToggleExpand);
    let target = match effects.into_iter().next() {
        Some(Effect::FetchChildren { target, var_ref: 3, .. }) => target,
        _ => panic!("expected the children to be fetched"),
    };
    update(&mut model, UpdateKind::Evaluated { result: Err("no".to_string()) });
    update(&mut model, UpdateKind::Children { target, children: vec![var("kid", 0)] });
    assert_eq!(names(&model), ["transcript", "r", "kid", "!! no"]);
}

#[test]
fn children_for_nobody_change_nothing() {
    let mut model = stopped_at(vec![var("a", 1)]);
    let target = FetchTarget::Scope { path: vec![4] };
    update(&mut model, UpdateKind::Children { target, children: vec![var("kid", 0)] });
    assert_eq!(names(&model), ["a"]);
}

#[test]
fn pinning_evaluates_at_once_and_unpinning_undoes_it() {
    let mut model = stopped_at(vec![var("a", 0), var("b", 0)]);
    place(&mut model, Tree::Scope, &[1]);
    let effects = apply_action(&mut model, Action::ToggleWatch);
    match effects.as_slice() {
        [Effect::EvalWatch { expression, frame_id, epoch }] => {
            assert_eq!(expression, "b");
            assert_eq!(*frame_id, 10);
            assert_eq!(*epoch, model.epoch);
        }
        _ => panic!("expected the watch to be evaluated"),
    }
    assert_eq!(names(&model), ["watched", "b", "a", "b"]);
    assert_eq!(model.rows[1].value, "…");
    assert_eq!(find_watch(&model.watches, "b"), Some(0));
    assert_eq!(find_watch(&model.watches, "a"), None);

    // The same name again unpins it, wherever it is asked from.
    place(&mut model, Tree::Scope, &[1]);
    assert!(apply_action(&mut model, Action::ToggleWatch).is_empty());
    assert!(model.watches.is_empty());
    assert_eq!(names(&model), ["a", "b"]);
}

#[test]
fn pinning_without_a_frame_waits() {
    let mut model = stopped_at(vec![var("a", 0)]);
    apply_event(&mut model, event("continued"));
    assert!(apply_action(&mut model, Action::ToggleWatch).is_empty());
    assert_eq!(model.watches.len(), 1);
    assert!(matches!(model.watches[0].state, WatchState::Pending));
}

#[test]
fn pinning_inside_a_watch_adds_the_descendant() {
    let mut model = stopped_at(vec![]);
    model.watches.push(Watch {
        expression: "w".to_string(),
        state: WatchState::Resolved(parent("w", vec![var("w.x", 0)])),
    });
    model.rebuild_rows();
    place(&mut model, Tree::Watch, &[0, 0]);
    assert_eq!(apply_action(&mut model, Action::ToggleWatch).len(), 1);
    assert_eq!(find_watch(&model.watches, "w.x"), Some(1));
}

#[test]
fn what_has_no_name_is_not_pinned() {
    let mut node = var("a", 0);
    node.eval_name = String::new();
    let mut model = stopped_at(vec![node]);
    assert!(apply_action(&mut model, Action::ToggleWatch).is_empty());
    assert!(model.watches.is_empty());
    let mut nothing = DebuggerModel::new();
    assert!(apply_action(&mut nothing, Action::ToggleWatch).is_empty());
    assert!(apply_action(&mut nothing, Action::Expand).is_empty());
}

#[test]
fn watches_follow_the_frame() {
    let mut model = stopped_at(vec![var("a", 0)]);
    apply_action(&mut model, Action::ToggleWatch);
    let node = Some(var("a", 0));
    update(&mut model, UpdateKind::Watch { expression: "a".to_string(), node });
    assert!(matches!(model.watches[0].state, WatchState::Resolved(_)));

    let effects = apply_action(&mut model, Action::SelectCallerFrame);
    assert_eq!(effects.len(), 2);
    assert!(matches!(effects[0], Effect::FetchScopes { frame_id: 11, .. }));
    assert!(matches!(effects[1], Effect::EvalWatch { frame_id: 11, .. }));
    assert!(matches!(model.watches[0].state, WatchState::Pending));
    assert_eq!(model.status, "frame #1");
    assert!(model.roots.is_empty());

    update(&mut model, UpdateKind::Watch { expression: "a".to_string(), node: None });
    assert!(matches!(model.watches[0].state, WatchState::Unavailable));
    assert_eq!(model.rows[1].value, "(unavailable)");
    update(&mut model, UpdateKind::Scopes { roots: vec![var("z", 0)] });
    assert_eq!(names(&model), ["watched", "a", "z"]);
    assert_eq!(model.status, "stopped");
}

#[test]
fn a_watch_reply_for_nobody_changes_nothing() {
    let mut model = stopped_at(vec![]);
    let node = Some(var("a", 0));
    update(&mut model, UpdateKind::Watch { expression: "a".to_string(), node });
    assert!(model.watches.is_empty());
}

#[test]
fn stale_replies_about_the_frame_are_dropped() {
    let mut model = stopped_at(vec![var("a", 1)]);
    apply_action(&mut model, Action::ToggleWatch);
    let old = model.epoch;
    apply_event(&mut model, event("continued"));
    let status = model.status.clone();
    let rows = names(&model);
    let stale = vec![
        UpdateKind::Stopped {
            thread_id: Some(9),
            stack: vec![frame(1, "old", 1)],
            frame_id: Some(1),
            roots: vec![],
        },
        UpdateKind::Scopes { roots: vec![var("old", 0)] },
        UpdateKind::Children {
            target: FetchTarget::Scope { path: vec![0] },
            children: vec![var("old", 0)],
        },
        UpdateKind::Watch { expression: "a".to_string(), node: Some(var("old", 0)) },
        UpdateKind::Failed { message: "old".to_string() },
    ];
    for kind in stale {
        assert!(apply_update(&mut model, Update { epoch: old, kind }).is_empty());
        assert_eq!(names(&model), rows);
        assert_eq!(model.status, status);
        assert_eq!(model.thread_id, Some(1));
    }
}

#[test]
fn a_failed_fetch_is_told_in_its_own_generation_only() {
    let mut model = stopped_at(vec![]);
    let failed = || UpdateKind::Failed { message: "gone".to_string() };
    let status = model.status.clone();
    assert!(apply_update(&mut model, Update { epoch: 0, kind: failed() }).is_empty());
    assert_eq!(model.status, status);
    assert!(update(&mut model, failed()).is_empty());
    assert_eq!(model.status, "error: gone");
}

#[test]
fn a_refused_drive_is_told_whatever_the_generation() {
    let mut model = stopped_at(vec![]);
    let failed = UpdateKind::DriveFailed { message: "busy".to_string() };
    apply_update(&mut model, Update { epoch: 0, kind: failed });
    let row = model.rows.last().unwrap();
    assert_eq!(row.name, "!! busy");
    assert!(row.tone == Tone::Error);
}

#[test]
fn a_stop_with_no_frame_is_idle() {
    let mut model = stopped_at(vec![var("a", 0)]);
    apply_action(&mut model, Action::ToggleWatch);
    apply_event(&mut model, event("stopped"));
    assert_eq!(model.status, "stopped — resolving frame…");
    assert_eq!(model.stop_reason, "");
    let kind =
        UpdateKind::Stopped { thread_id: None, stack: vec![], frame_id: None, roots: vec![] };
    assert!(update(&mut model, kind).is_empty());
    assert_eq!(model.status, "stopped — no frames (idle)");
    assert!(matches!(model.watches[0].state, WatchState::Unavailable));
    assert!(apply_action(&mut model, Action::StepOut).is_empty());
    assert_eq!(model.status, "can't stepOut: no thread");
}

#[test]
fn generations_count_stops_resumes_and_frame_changes() {
    let mut model = stopped_at(vec![]);
    assert_eq!((model.epoch, model.stop_count), (1, 1));
    apply_action(&mut model, Action::SelectCallerFrame);
    assert_eq!((model.epoch, model.stop_count), (2, 1));
    apply_action(&mut model, Action::SelectCallerFrame);
    assert_eq!((model.epoch, model.stop_count), (2, 1));
    apply_action(&mut model, Action::SelectCalleeFrame);
    assert_eq!((model.epoch, model.stop_count), (3, 1));
    apply_event(&mut model, event("continued"));
    assert_eq!((model.epoch, model.stop_count), (4, 1));
    apply_event(&mut model, event("stopped"));
    assert_eq!((model.epoch, model.stop_count), (5, 2));
    apply_event(&mut model, event("output"));
    apply_event(&mut model, event("exited"));
    assert_eq!((model.epoch, model.stop_count), (5, 2));
}

#[test]
fn moving_to_the_caller_and_back() {
    let mut model = stopped_at(vec![]);
    apply_action(&mut model, Action::SelectCallerFrame);
    apply_action(&mut model, Action::SelectCalleeFrame);
    assert_eq!(model.selected_frame, 0);
    assert_eq!(model.frame_id, Some(10));
    apply_action(&mut model, Action::SelectCalleeFrame);
    assert_eq!(model.status, "already at the innermost frame");
    assert!(!model.select_callee_frame());
}

#[test]
fn a_resume_keeps_the_old_tree_on_screen() {
    let mut model = stopped_at(vec![var("a", 0)]);
    apply_event(&mut model, event("continued"));
    assert_eq!(names(&model), ["a"]);
    assert_eq!(model.status, "running — variables stale");
    assert_eq!(model.thread_id, Some(1));
    apply_event(&mut model, event("terminated"));
    assert_eq!(model.status, "session ended");
    assert!(apply_action(&mut model, Action::Continue).is_empty());
    assert_eq!(model.status, "can't continue unless stopped");
    assert!(apply_action(&mut model, Action::Pause).is_empty());
    assert_eq!(model.status, "can't pause unless running");
}

#[test]
fn run_control_reaches_the_stopped_thread() {
    for (action, name) in [
        (Action::Continue, "continue"),
        (Action::StepOver, "next"),
        (Action::StepInto, "stepIn"),
        (Action::StepOut, "stepOut"),
    ] {
        let mut model = stopped_at(vec![]);
        match apply_action(&mut model, action).as_slice() {
            [Effect::Drive { command, thread_id, epoch }] => {
                assert_eq!(*command, name);
                assert_eq!(*thread_id, 1);
                assert_eq!(*epoch, model.epoch);
            }
            _ => panic!("expected a run-control request"),
        }
    }
}

#[test]
fn pausing_needs_a_thread() {
    let mut model = DebuggerModel::new();
    apply_event(&mut model, event("continued"));
    assert!(apply_action(&mut model, Action::Pause).is_empty());
    assert_eq!(model.status, "can't pause: no thread");
}
