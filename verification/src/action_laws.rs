//! What each key does to the debugger: the input line, the cursor, the watch list,
//! the selected frame, and run control.

use crate::model::{
    lemma_first_selectable, lemma_last_selectable, watch_position, EntryView, InputMode, ModelView,
    RowKind, RowView, Tree, WatchView,
};
use crate::model_laws::{
    distance, law_a_clamped_cursor_is_placed, lemma_same_rows, lemma_watch_position, rows_current,
    watched_once,
};
use crate::text::{decimal, trimmed};
use crate::types::SessionState;
use crate::update::{action_step, interpreted, Action, EffectView, Happening};
use vstd::prelude::*;

verus! {

/// Whether two models differ at most in their cached rows and their cursor.
pub open spec fn same_state(a: ModelView, b: ModelView) -> bool {
    a == (ModelView { rows: a.rows, selected_row: a.selected_row, ..b })
}

/// The model after an action.
pub open spec fn after_action(model: ModelView, action: Action) -> ModelView {
    interpreted(model, Happening::Action(action)).model
}

/// What an action asks for.
pub open spec fn asked_by(model: ModelView, action: Action) -> Seq<EffectView> {
    interpreted(model, Happening::Action(action)).effects
}

/// A typed character goes to the end of the line, and nothing else changes. Taking
/// it back gives back the line.
pub proof fn law_typing_is_taken_back(model: ModelView, c: char)
    ensures
        ({
            let typed = after_action(model, Action::InputChar(c));
            let back = after_action(typed, Action::InputBackspace);
            &&& typed.input.len() == model.input.len() + 1
            &&& typed.input.last() == c
            &&& typed.input.drop_last() == model.input
            &&& same_state(typed, ModelView { input: typed.input, ..model })
            &&& same_state(back, model)
            &&& asked_by(model, Action::InputChar(c)).len() == 0
            &&& asked_by(typed, Action::InputBackspace).len() == 0
        }),
{
    let typed = after_action(model, Action::InputChar(c));
    let back = after_action(typed, Action::InputBackspace);
    assert(typed.input.drop_last() =~= model.input);
    assert(back.input == model.input);
}

/// Taking back shortens the line by its last character and changes nothing else. An
/// empty line stays.
pub proof fn law_taking_back_shortens_the_line(model: ModelView)
    ensures
        ({
            let after = after_action(model, Action::InputBackspace);
            &&& same_state(after, ModelView { input: after.input, ..model })
            &&& model.input.len() == 0 ==> after.input == model.input
            &&& model.input.len() > 0 ==> after.input.push(model.input.last()) == model.input
            &&& asked_by(model, Action::InputBackspace).len() == 0
        }),
{
}

/// Entering and leaving the line, the help overlay, and quitting each change their
/// own switch alone. Leaving the line also drops what was typed.
pub proof fn law_switches_change_alone(model: ModelView)
    ensures
        same_state(
            after_action(model, Action::EnterInsert),
            ModelView { mode: InputMode::Insert, ..model },
        ),
        same_state(
            after_action(model, Action::InputCancel),
            ModelView { mode: InputMode::Normal, input: Seq::empty(), ..model },
        ),
        same_state(
            after_action(model, Action::ToggleHelp),
            ModelView { show_help: !model.show_help, ..model },
        ),
        same_state(
            after_action(after_action(model, Action::ToggleHelp), Action::ToggleHelp),
            model,
        ),
        same_state(after_action(model, Action::Quit), ModelView { should_quit: true, ..model }),
        asked_by(model, Action::EnterInsert).len() == 0,
        asked_by(model, Action::InputCancel).len() == 0,
        asked_by(model, Action::ToggleHelp).len() == 0,
        asked_by(model, Action::Quit).len() == 0,
{
}

/// Why nothing can be evaluated in a state, by that state.
pub open spec fn reason_for(state: SessionState) -> Seq<char> {
    match state {
        SessionState::Running => "nothing to evaluate against ("@ + "the program is running"@
            + ")"@,
        SessionState::Ended => "nothing to evaluate against ("@ + "the session has ended"@ + ")"@,
        SessionState::Stopped => "nothing to evaluate against ("@
            + "no frame is resolved at this stop"@ + ")"@,
        SessionState::Connecting => "nothing to evaluate against ("@ + "not stopped yet"@ + ")"@,
    }
}

/// A submitted expression is remembered and evaluated as it stands against the
/// selected frame, and nothing else happens. With no frame nothing is asked for, and
/// the transcript says why.
pub proof fn law_an_expression_is_evaluated(model: ModelView)
    requires
        trimmed(model.input).len() > 0,
        trimmed(model.input)[0] != ':',
        trimmed(model.input) != "help"@,
        trimmed(model.input) != "?"@,
    ensures
        ({
            let line = trimmed(model.input);
            let after = after_action(model, Action::InputSubmit);
            let asked = asked_by(model, Action::InputSubmit);
            &&& after.last_expression == Some(line)
            &&& after.input.len() == 0
            &&& same_state(
                after,
                ModelView {
                    input: after.input,
                    last_expression: after.last_expression,
                    transcript: after.transcript,
                    ..model
                },
            )
            &&& match model.frame_id {
                Some(frame_id) => after.transcript == model.transcript && asked.len() == 1
                    && asked[0] == (EffectView::Evaluate {
                    expression: line,
                    frame_id,
                    epoch: model.epoch,
                }),
                None => asked.len() == 0 && after.transcript.len() == model.transcript.len() + 1
                    && after.transcript.drop_last() == model.transcript && after.transcript.last()
                    == (EntryView::Unavailable { reason: reason_for(model.state) }),
            }
        }),
{
    let after = after_action(model, Action::InputSubmit);
    if model.frame_id is None {
        assert(after.transcript.drop_last() =~= model.transcript);
    }
}

/// A submitted command asks for nothing and is not remembered. Help is shown for its
/// two names, with or without a colon, and any other command is recorded as unknown.
pub proof fn law_a_command_is_not_evaluated(model: ModelView)
    requires
        ({
            let line = trimmed(model.input);
            line.len() > 0 && (line[0] == ':' || line == "help"@ || line == "?"@)
        }),
    ensures
        ({
            let line = trimmed(model.input);
            let after = after_action(model, Action::InputSubmit);
            let helps = line == "help"@ || line == "?"@ || line.drop_first() == "help"@
                || line.drop_first() == "?"@;
            &&& asked_by(model, Action::InputSubmit).len() == 0
            &&& after.input.len() == 0
            &&& after.transcript.len() == model.transcript.len() + 1
            &&& after.transcript.drop_last() == model.transcript
            &&& after.transcript.last() == if helps {
                EntryView::Help
            } else {
                EntryView::Unrecognized { input: line }
            }
            &&& same_state(
                after,
                ModelView { input: after.input, transcript: after.transcript, ..model },
            )
        }),
{
    let line = trimmed(model.input);
    let after = after_action(model, Action::InputSubmit);
    reveal_strlit("help");
    reveal_strlit("?");
    if line[0] != ':' {
        assert(line == "help"@ || line == "?"@);
    } else {
        assert(line != "help"@ && line != "?"@);
    }
    assert(after.transcript.drop_last() =~= model.transcript);
}

/// The cursor can land on the rows of nodes and of watches without a value, and on
/// no others.
pub proof fn law_where_the_cursor_can_be(row: RowView)
    ensures
        row.selectable() <==> row.kind == RowKind::Node || row.kind == RowKind::Placeholder,
{
}

/// Whether a model's rows are current, with the cursor on one it can be on.
pub open spec fn at_a_row(model: ModelView) -> bool {
    &&& rows_current(model)
    &&& model.rows.len() <= usize::MAX
    &&& 0 <= model.selected_row < model.rows.len()
    &&& model.rows[model.selected_row].selectable()
}

/// Moving down goes to the next row that the cursor can be on, and moving up to the
/// last one before. Where there is none the cursor stays. Nothing else changes.
pub proof fn law_the_cursor_steps_to_its_neighbour(model: ModelView)
    requires
        at_a_row(model),
    ensures
        ({
            let at = model.selected_row;
            let down = after_action(model, Action::RowDown);
            let up = after_action(model, Action::RowUp);
            &&& down == (ModelView { selected_row: down.selected_row, ..model })
            &&& up == (ModelView { selected_row: up.selected_row, ..model })
            &&& at <= down.selected_row < model.rows.len()
            &&& model.rows[down.selected_row].selectable()
            &&& forall|j: int|
                at < j < down.selected_row ==> !(#[trigger] model.rows[j]).selectable()
            &&& down.selected_row == at ==> forall|j: int|
                at < j < model.rows.len() ==> !(#[trigger] model.rows[j]).selectable()
            &&& 0 <= up.selected_row <= at
            &&& model.rows[up.selected_row].selectable()
            &&& forall|j: int|
                up.selected_row < j < at ==> !(#[trigger] model.rows[j]).selectable()
            &&& up.selected_row == at ==> forall|j: int|
                0 <= j < at ==> !(#[trigger] model.rows[j]).selectable()
            &&& asked_by(model, Action::RowDown).len() == 0
            &&& asked_by(model, Action::RowUp).len() == 0
        }),
{
    let at = model.selected_row;
    let down = after_action(model, Action::RowDown);
    let up = after_action(model, Action::RowUp);
    lemma_first_selectable(model.rows, at + 1);
    lemma_last_selectable(model.rows, at);
    lemma_moved(model, down);
    lemma_moved(model, up);
}

/// Going to the first or the last row goes to the first or last one that the cursor
/// can be on. Nothing else changes.
pub proof fn law_the_cursor_goes_to_the_ends(model: ModelView)
    requires
        at_a_row(model),
    ensures
        ({
            let first = after_action(model, Action::RowFirst);
            let last = after_action(model, Action::RowLast);
            &&& first == (ModelView { selected_row: first.selected_row, ..model })
            &&& last == (ModelView { selected_row: last.selected_row, ..model })
            &&& 0 <= first.selected_row <= last.selected_row < model.rows.len()
            &&& model.rows[first.selected_row].selectable()
            &&& model.rows[last.selected_row].selectable()
            &&& forall|j: int|
                0 <= j < model.rows.len() && (#[trigger] model.rows[j]).selectable()
                    ==> first.selected_row <= j <= last.selected_row
            &&& asked_by(model, Action::RowFirst).len() == 0
            &&& asked_by(model, Action::RowLast).len() == 0
        }),
{
    let first = after_action(model, Action::RowFirst);
    let last = after_action(model, Action::RowLast);
    lemma_first_selectable(model.rows, 0);
    lemma_last_selectable(model.rows, model.rows.len() as int);
    lemma_moved(model, first);
    lemma_moved(model, last);
}

/// A cursor that moved to a row it can be on stays there when the rows are rebuilt.
proof fn lemma_moved(model: ModelView, after: ModelView)
    requires
        at_a_row(model),
        exists|row: int|
            0 <= row < model.rows.len() && model.rows[row].selectable() && after
                == #[trigger] (ModelView { selected_row: row, ..model }).refreshed(),
    ensures
        after == (ModelView { selected_row: after.selected_row, ..model }),
        forall|row: int|
            0 <= row < model.rows.len() && model.rows[row].selectable() && after
                == #[trigger] (ModelView { selected_row: row, ..model }).refreshed()
                ==> after.selected_row == row,
{
    assert forall|row: int|
        0 <= row < model.rows.len() && model.rows[row].selectable() && after == #[trigger] (
        ModelView { selected_row: row, ..model }).refreshed() implies after.selected_row == row
        && after == (ModelView { selected_row: after.selected_row, ..model }) by {
        let moved = ModelView { selected_row: row, ..model };
        lemma_same_rows(moved, model);
        law_a_clamped_cursor_is_placed(model.rows, row);
    }
}

/// Toggling on the row of a watch takes out that watch and no other: the others stay
/// in their order with what they show, nothing else changes, and nothing is asked for.
pub proof fn law_a_watch_is_unpinned_from_its_own_row(model: ModelView, i: int)
    requires
        0 <= model.selected_row < model.rows.len(),
        model.rows[model.selected_row].tree == Tree::Watch,
        model.rows[model.selected_row].path.len() == 1,
        model.rows[model.selected_row].path[0] == i,
        0 <= i < model.watches.len(),
    ensures
        ({
            let after = after_action(model, Action::ToggleWatch);
            &&& asked_by(model, Action::ToggleWatch).len() == 0
            &&& same_state(after, ModelView { watches: after.watches, ..model })
            &&& after.watches.len() == model.watches.len() - 1
            &&& forall|j: int| 0 <= j < i ==> #[trigger] after.watches[j] == model.watches[j]
            &&& forall|j: int|
                i <= j < after.watches.len() ==> #[trigger] after.watches[j] == model.watches[j
                    + 1]
            &&& watched_once(model.watches) ==> forall|j: int|
                0 <= j < after.watches.len() ==> (#[trigger] after.watches[j]).expression
                    != model.watches[i].expression
        }),
{
}

/// Toggling on any other row toggles the name of what it shows. A name that is not
/// watched is added behind the others, pending, and evaluated at once when the
/// program is stopped at a frame. A watched one is taken out, whatever else is
/// watched stays, and nothing is asked for. What has no name cannot be watched.
pub proof fn law_a_name_is_pinned_or_unpinned(model: ModelView)
    requires
        0 <= model.selected_row < model.rows.len(),
        model.rows[model.selected_row].tree != Tree::Watch
            || model.rows[model.selected_row].path.len() != 1,
        watched_once(model.watches),
    ensures
        ({
            let name = model.rows[model.selected_row].eval_name;
            let after = after_action(model, Action::ToggleWatch);
            let asked = asked_by(model, Action::ToggleWatch);
            let watched = exists|i: int|
                0 <= i < model.watches.len() && (#[trigger] model.watches[i]).expression == name;
            &&& same_state(after, ModelView { watches: after.watches, ..model })
            &&& name.len() == 0 ==> after.watches == model.watches && asked.len() == 0
            &&& name.len() > 0 && !watched ==> {
                &&& after.watches.len() == model.watches.len() + 1
                &&& after.watches.drop_last() == model.watches
                &&& after.watches.last().expression == name
                &&& after.watches.last().state is Pending
                &&& if model.state == SessionState::Stopped && model.frame_id is Some {
                    asked.len() == 1 && asked[0] == (EffectView::EvalWatch {
                        expression: name,
                        frame_id: model.frame_id->0,
                        epoch: model.epoch,
                    })
                } else {
                    asked.len() == 0
                }
            }
            &&& name.len() > 0 && watched ==> {
                &&& asked.len() == 0
                &&& after.watches.len() == model.watches.len() - 1
                &&& forall|i: int|
                    0 <= i < model.watches.len() && (#[trigger] model.watches[i]).expression
                        == name ==> {
                        &&& forall|j: int|
                            0 <= j < i ==> #[trigger] after.watches[j] == model.watches[j]
                        &&& forall|j: int|
                            i <= j < after.watches.len() ==> #[trigger] after.watches[j]
                                == model.watches[j + 1]
                    }
            }
        }),
{
    let name = model.rows[model.selected_row].eval_name;
    let after = after_action(model, Action::ToggleWatch);
    lemma_watch_position(model.watches, name, 0);
    if name.len() > 0 && watch_position(model.watches, name, 0) is None {
        assert(after.watches.drop_last() =~= model.watches);
    }
}

/// Whether the effects are those of showing a frame: its scopes, then every watch in
/// its order, all against that frame in that generation.
pub open spec fn shows_frame(
    effects: Seq<EffectView>,
    watches: Seq<WatchView>,
    frame_id: i64,
    epoch: int,
) -> bool {
    &&& effects.len() == 1 + watches.len()
    &&& effects[0] == (EffectView::FetchScopes { frame_id, epoch })
    &&& evaluates_watches(effects.drop_first(), watches, frame_id, epoch)
}

/// Whether the effects evaluate every watch, in its order, against a frame.
pub open spec fn evaluates_watches(
    effects: Seq<EffectView>,
    watches: Seq<WatchView>,
    frame_id: i64,
    epoch: int,
) -> bool {
    &&& effects.len() == watches.len()
    &&& forall|i: int|
        0 <= i < watches.len() ==> #[trigger] effects[i] == (EffectView::EvalWatch {
            expression: watches[i].expression,
            frame_id,
            epoch,
        })
}

/// Whether every watch is kept and waits for its value.
pub open spec fn all_pending(before: Seq<WatchView>, after: Seq<WatchView>) -> bool {
    &&& after.len() == before.len()
    &&& forall|i: int|
        0 <= i < before.len() ==> (#[trigger] after[i]).expression == before[i].expression
            && after[i].state is Pending
}

/// The position that a move through the stack aims at.
pub open spec fn aimed_at(model: ModelView, toward_caller: bool) -> int {
    if toward_caller {
        model.selected_frame + 1
    } else {
        model.selected_frame - 1
    }
}

/// The action that moves through the stack.
pub open spec fn frame_action(toward_caller: bool) -> Action {
    if toward_caller {
        Action::SelectCallerFrame
    } else {
        Action::SelectCalleeFrame
    }
}

/// A move that reaches a frame of the stack, whichever way it goes, selects it and
/// starts a generation in which its scopes and every watch are asked for. What was
/// shown of the frame before is dropped, and the rest stays.
pub proof fn law_a_frame_move_shows_the_frame(model: ModelView, toward_caller: bool)
    requires
        0 <= model.selected_frame < model.stack.len(),
        0 <= aimed_at(model, toward_caller) < model.stack.len(),
    ensures
        ({
            let aim = aimed_at(model, toward_caller);
            let after = after_action(model, frame_action(toward_caller));
            let id = model.stack[aim].id;
            &&& after.selected_frame == aim
            &&& after.frame_id == Some(id)
            &&& after.epoch == model.epoch + 1
            &&& after.roots.len() == 0
            &&& all_pending(model.watches, after.watches)
            &&& after.status == "frame #"@ + decimal(aim as nat)
            &&& same_state(
                after,
                ModelView {
                    selected_frame: after.selected_frame,
                    frame_id: after.frame_id,
                    epoch: after.epoch,
                    roots: after.roots,
                    watches: after.watches,
                    status: after.status,
                    ..model
                },
            )
            &&& shows_frame(
                asked_by(model, frame_action(toward_caller)),
                model.watches,
                id,
                after.epoch,
            )
        }),
{
    let id = model.stack[aimed_at(model, toward_caller)].id;
    let asked = asked_by(model, frame_action(toward_caller));
    let moved = after_action(model, frame_action(toward_caller));
    assert(asked.drop_first() =~= moved.watch_evaluations(id));
}

/// A move past an end of the stack, or without a stack, changes nothing but the
/// status line, which tells the three apart, and asks for nothing.
pub proof fn law_a_frame_move_past_the_end_stays(model: ModelView, toward_caller: bool)
    requires
        model.selected_frame >= 0,
        model.stack.len() == 0 || (0 <= model.selected_frame < model.stack.len() && !(0
            <= aimed_at(model, toward_caller) < model.stack.len())),
    ensures
        ({
            let after = after_action(model, frame_action(toward_caller));
            &&& asked_by(model, frame_action(toward_caller)).len() == 0
            &&& same_state(after, ModelView { status: after.status, ..model })
            &&& after.status == if model.stack.len() == 0 {
                "not stopped at a frame"@
            } else if toward_caller {
                "already at the outermost frame"@
            } else {
                "already at the innermost frame"@
            }
        }),
{
}

/// The command that an action issues to a stopped thread.
pub open spec fn step_command(action: Action) -> Option<Seq<char>> {
    match action {
        Action::Continue => Some("continue"@),
        Action::StepOver => Some("next"@),
        Action::StepInto => Some("stepIn"@),
        Action::StepOut => Some("stepOut"@),
        _ => None,
    }
}

/// Stepping and continuing are issued to the stopped thread exactly when the program
/// is stopped on one, and pausing to the running one exactly when it runs. The model
/// stays as it is. When it cannot be issued, only the status line says so.
#[verifier::rlimit(40)]
pub proof fn law_run_control_is_issued(model: ModelView, action: Action)
    requires
        step_command(action) is Some || action is Pause,
    ensures
        ({
            let after = after_action(model, action);
            let asked = asked_by(model, action);
            let command = if action is Pause {
                "pause"@
            } else {
                step_command(action)->0
            };
            let needed = if action is Pause {
                SessionState::Running
            } else {
                SessionState::Stopped
            };
            if model.state == needed && model.thread_id is Some {
                &&& same_state(after, model)
                &&& asked.len() == 1
                &&& asked[0] == (EffectView::Drive {
                    command,
                    thread_id: model.thread_id->0,
                    epoch: model.epoch,
                })
            } else {
                &&& same_state(after, ModelView { status: after.status, ..model })
                &&& asked.len() == 0
                &&& after.status == "can't "@ + command + (if model.state == needed {
                    ": no thread"@
                } else if action is Pause {
                    " unless running"@
                } else {
                    " unless stopped"@
                })
            }
        }),
{
    reveal_strlit("can't ");
    reveal_strlit("pause");
    reveal_strlit(" unless running");
    reveal_strlit(": no thread");
    reveal_strlit("can't pause unless running");
    reveal_strlit("can't pause: no thread");
    assert("can't "@ + "pause"@ + " unless running"@ =~= "can't pause unless running"@);
    assert("can't "@ + "pause"@ + ": no thread"@ =~= "can't pause: no thread"@);
}

/// Whether the cursor is on the row nearest to a position that it can be on, and on
/// the lower one of two. A position behind the rows counts as the last one.
pub open spec fn is_near(model: ModelView, position: int) -> bool {
    let at = if position < model.rows.len() {
        position
    } else {
        model.rows.len() - 1
    };
    &&& model.rows.len() == 0 ==> model.selected_row == 0
    &&& forall|j: int|
        0 <= j < model.rows.len() && (#[trigger] model.rows[j]).selectable() ==> {
            &&& 0 <= model.selected_row < model.rows.len()
            &&& model.rows[model.selected_row].selectable()
            &&& distance(model.selected_row, at) <= distance(j, at)
            &&& distance(model.selected_row, at) == distance(j, at) ==> j <= model.selected_row
        }
}

/// Rebuilding the rows puts the cursor near where it was.
pub proof fn lemma_rebuilt_near(model: ModelView)
    requires
        model.selected_row >= 0,
    ensures
        is_near(model.refreshed(), model.selected_row),
{
    let rows = model.built_rows();
    law_a_clamped_cursor_is_placed(rows, model.selected_row);
    if rows.len() > 0 {
        let at = if model.selected_row < rows.len() {
            model.selected_row
        } else {
            rows.len() - 1
        };
        lemma_first_selectable(rows, at);
        lemma_last_selectable(rows, at);
    }
}

/// Where an action does not move the cursor, it ends on the row nearest to where it
/// was that it can be on.
pub proof fn law_the_cursor_is_kept_near(model: ModelView, action: Action)
    requires
        model.selected_row >= 0,
        !(action is RowDown || action is RowUp || action is RowFirst || action is RowLast
            || action is SelectCallerFrame || action is SelectCalleeFrame),
    ensures
        is_near(after_action(model, action), model.selected_row),
{
    assert(action_step(model, action).model.selected_row == model.selected_row);
    lemma_rebuilt_near(action_step(model, action).model);
}

/// A move to another frame starts at the top of what is shown.
pub proof fn law_another_frame_starts_at_the_top(model: ModelView, toward_caller: bool)
    requires
        0 <= model.selected_frame < model.stack.len(),
        0 <= aimed_at(model, toward_caller) < model.stack.len(),
    ensures
        is_near(after_action(model, frame_action(toward_caller)), 0),
{
    lemma_rebuilt_near(action_step(model, frame_action(toward_caller)).model);
}

/// With the cursor on no row there is nothing to expand or to watch.
pub proof fn law_without_a_row_nothing_is_toggled(model: ModelView, action: Action)
    requires
        model.selected_row >= model.rows.len(),
        action is ToggleWatch || action is Expand || action is Collapse || action is ToggleExpand,
    ensures
        same_state(after_action(model, action), model),
        asked_by(model, action).len() == 0,
{
}

} // verus!
