//! What each event and each reply does to the debugger, and that no watch waits for
//! a value that was not asked for.

use crate::action_laws::{
    after_action, all_pending, asked_by, evaluates_watches, is_near, lemma_rebuilt_near, same_state,
};
use crate::model::{
    initial_model, watch_position, EntryView, ModelView, Tree, WatchStateView, WatchView,
};
use crate::model_laws::{
    after_all, expressions, lemma_children_scope, lemma_expanding_scope, lemma_watch_position,
    watched_once,
};
use crate::node::NodeView;
use crate::types::{EventMessage, SessionState, StackFrame};
use crate::update::{
    event_step, interpreted, target_node, update_step, Action, EffectView, ExpandWant, Happening,
    Update, UpdateKind,
};
use crate::views::views;
use vstd::prelude::*;

verus! {

/// The model after an event.
pub open spec fn after_event(model: ModelView, msg: EventMessage) -> ModelView {
    interpreted(model, Happening::Event(msg)).model
}

/// What an event asks for.
pub open spec fn asked_by_event(model: ModelView, msg: EventMessage) -> Seq<EffectView> {
    interpreted(model, Happening::Event(msg)).effects
}

/// The model after a reply.
pub open spec fn after_reply(model: ModelView, update: Update) -> ModelView {
    interpreted(model, Happening::Update(update)).model
}

/// What a reply asks for.
pub open spec fn asked_by_reply(model: ModelView, update: Update) -> Seq<EffectView> {
    interpreted(model, Happening::Update(update)).effects
}

/// A stop is counted, starts a generation, drops what was shown of the old frame, and
/// asks for its own resolution, with the thread that the event names. Watches are
/// kept and wait. The history, the thread, and the input stay.
pub proof fn law_a_stop_asks_for_its_resolution(model: ModelView, msg: EventMessage)
    requires
        msg.event@ == "stopped"@,
    ensures
        ({
            let after = after_event(model, msg);
            let asked = asked_by_event(model, msg);
            &&& after.state == SessionState::Stopped
            &&& after.stop_count == model.stop_count + 1
            &&& after.epoch == model.epoch + 1
            &&& after.stack.len() == 0
            &&& after.roots.len() == 0
            &&& after.frame_id is None
            &&& after.selected_frame == 0
            &&& after.stop_reason == match msg.body {
                Some(body) => body.reason@,
                None => Seq::empty(),
            }
            &&& all_pending(model.watches, after.watches)
            &&& same_state(
                after,
                ModelView {
                    state: after.state,
                    stop_count: after.stop_count,
                    epoch: after.epoch,
                    stack: after.stack,
                    roots: after.roots,
                    frame_id: after.frame_id,
                    selected_frame: after.selected_frame,
                    stop_reason: after.stop_reason,
                    watches: after.watches,
                    status: after.status,
                    ..model
                },
            )
            &&& asked.len() == 1
            &&& asked[0] == (EffectView::ResolveStop {
                thread_hint: match msg.body {
                    Some(body) => body.thread_id,
                    None => None,
                },
                epoch: after.epoch,
            })
        }),
{
}

/// A resume starts a generation and drops the frames. The tree, the watches, and the
/// thread stay as they were, and nothing is asked for.
pub proof fn law_a_resume_keeps_what_is_shown(model: ModelView, msg: EventMessage)
    requires
        msg.event@ == "continued"@,
    ensures
        ({
            let after = after_event(model, msg);
            &&& after.state == SessionState::Running
            &&& after.epoch == model.epoch + 1
            &&& after.stack.len() == 0
            &&& after.frame_id is None
            &&& after.selected_frame == 0
            &&& same_state(
                after,
                ModelView {
                    state: after.state,
                    epoch: after.epoch,
                    stack: after.stack,
                    frame_id: after.frame_id,
                    selected_frame: after.selected_frame,
                    status: after.status,
                    ..model
                },
            )
            &&& asked_by_event(model, msg).len() == 0
        }),
{
    reveal_strlit("stopped");
    reveal_strlit("continued");
    assert("continued"@.len() != "stopped"@.len());
}

/// The end of the session drops the frames and the thread, and nothing else. No other
/// event changes anything, and none of them asks for anything.
pub proof fn law_other_events_ask_nothing(model: ModelView, msg: EventMessage)
    requires
        msg.event@ != "stopped"@,
        msg.event@ != "continued"@,
    ensures
        ({
            let after = after_event(model, msg);
            &&& asked_by_event(model, msg).len() == 0
            &&& if msg.event@ == "terminated"@ || msg.event@ == "exited"@ {
                &&& after.state == SessionState::Ended
                &&& after.thread_id is None
                &&& after.stack.len() == 0
                &&& after.frame_id is None
                &&& same_state(
                    after,
                    ModelView {
                        state: after.state,
                        thread_id: after.thread_id,
                        stack: after.stack,
                        frame_id: after.frame_id,
                        status: after.status,
                        ..model
                    },
                )
            } else {
                same_state(after, model)
            }
        }),
{
}

/// A stop that resolves takes over the thread, the stack, and the scopes it was
/// resolved to, with the top frame selected. When there is a frame, every watch is
/// asked for against it, in order, in the current generation. When there is none,
/// every watch is unavailable and nothing is asked for. The rest stays.
pub proof fn law_a_resolved_stop_evaluates_every_watch(
    model: ModelView,
    update: Update,
    thread_id: Option<i64>,
    stack: Vec<StackFrame>,
    frame_id: Option<i64>,
)
    requires
        update.epoch == model.epoch,
        update.kind matches UpdateKind::Stopped { thread_id: t, stack: s, frame_id: f, roots }
            && t == thread_id && s == stack && f == frame_id,
    ensures
        ({
            let after = after_reply(model, update);
            let asked = asked_by_reply(model, update);
            &&& after.thread_id == thread_id
            &&& after.stack == stack@
            &&& after.frame_id == frame_id
            &&& after.selected_frame == 0
            &&& after.roots == views(update.kind->Stopped_roots@)
            &&& match frame_id {
                Some(frame) => {
                    &&& all_pending(model.watches, after.watches)
                    &&& evaluates_watches(asked, model.watches, frame, model.epoch)
                },
                None => {
                    &&& asked.len() == 0
                    &&& after.watches.len() == model.watches.len()
                    &&& forall|i: int|
                        0 <= i < model.watches.len() ==> (
                        #[trigger] after.watches[i]).expression == model.watches[i].expression
                            && after.watches[i].state is Unavailable
                },
            }
            &&& same_state(
                after,
                ModelView {
                    thread_id: after.thread_id,
                    stack: after.stack,
                    frame_id: after.frame_id,
                    selected_frame: after.selected_frame,
                    roots: after.roots,
                    watches: after.watches,
                    status: after.status,
                    ..model
                },
            )
        }),
{
}

/// Scopes that arrive in their generation are those shown, and nothing else changes
/// but the status line.
pub proof fn law_scopes_are_shown(model: ModelView, update: Update)
    requires
        update.epoch == model.epoch,
        update.kind is Scopes,
    ensures
        ({
            let after = after_reply(model, update);
            &&& after.roots == views(update.kind->Scopes_roots@)
            &&& same_state(after, ModelView { roots: after.roots, status: after.status, ..model })
            &&& asked_by_reply(model, update).len() == 0
        }),
{
}

/// A value that arrives in its generation becomes that of the watch on its
/// expression, and a failed evaluation makes it unavailable. No other watch changes,
/// nor anything else. A value for what is not watched changes nothing.
pub proof fn law_a_value_reaches_its_watch(
    model: ModelView,
    update: Update,
    expression: Seq<char>,
    i: int,
)
    requires
        update.epoch == model.epoch,
        update.kind is Watch,
        update.kind->Watch_expression@ == expression,
        watched_once(model.watches),
        0 <= i < model.watches.len(),
    ensures
        ({
            let after = after_reply(model, update);
            &&& asked_by_reply(model, update).len() == 0
            &&& same_state(after, ModelView { watches: after.watches, ..model })
            &&& after.watches.len() == model.watches.len()
            &&& if model.watches[i].expression == expression {
                &&& after.watches[i].expression == expression
                &&& after.watches[i].state == match update.kind->node {
                    Some(node) => WatchStateView::Resolved(node@),
                    None => WatchStateView::Unavailable,
                }
            } else {
                after.watches[i] == model.watches[i]
            }
        }),
{
    lemma_watch_position(model.watches, expression, 0);
}

/// What is history is recorded at the end of the transcript, whatever generation it
/// is of: a value as a node, a failed evaluation and a refused run-control request
/// as an error. Nothing else changes.
pub proof fn law_history_is_recorded(model: ModelView, update: Update)
    requires
        update.kind is Evaluated || update.kind is DriveFailed,
    ensures
        ({
            let after = after_reply(model, update);
            &&& asked_by_reply(model, update).len() == 0
            &&& same_state(after, ModelView { transcript: after.transcript, ..model })
            &&& after.transcript.len() == model.transcript.len() + 1
            &&& after.transcript.drop_last() == model.transcript
            &&& after.transcript.last() == match update.kind {
                UpdateKind::Evaluated { result: Ok(node) } => EntryView::Evaluated { node: node@ },
                UpdateKind::Evaluated { result: Err(message) } => EntryView::Error {
                    message: message@,
                },
                UpdateKind::DriveFailed { message } => EntryView::Error { message: message@ },
                _ => EntryView::Help,
            }
        }),
{
    let after = after_reply(model, update);
    assert(after.transcript.drop_last() =~= model.transcript);
}

/// A failed resolve or fetch of the current generation is told in the status line,
/// and changes nothing else.
pub proof fn law_a_failed_fetch_is_told(model: ModelView, update: Update)
    requires
        update.epoch == model.epoch,
        update.kind is Failed,
    ensures
        ({
            let after = after_reply(model, update);
            &&& asked_by_reply(model, update).len() == 0
            &&& after.status == "error: "@ + update.kind->Failed_message@
            &&& same_state(after, ModelView { status: after.status, ..model })
        }),
{
}

/// A stop starts at the top of what is shown. Any other event leaves the cursor near
/// where it was.
pub proof fn law_events_keep_the_cursor_near(model: ModelView, msg: EventMessage)
    requires
        model.selected_row >= 0,
    ensures
        is_near(
            after_event(model, msg),
            if msg.event@ == "stopped"@ {
                0
            } else {
                model.selected_row
            },
        ),
{
    lemma_rebuilt_near(event_step(model, msg).model);
}

/// A reply of the current generation leaves the cursor near where it was.
pub proof fn law_replies_keep_the_cursor_near(model: ModelView, update: Update)
    requires
        model.selected_row >= 0,
        update.epoch == model.epoch,
    ensures
        is_near(after_reply(model, update), model.selected_row),
{
    assert(update_step(model, update.kind).model.selected_row == model.selected_row);
    lemma_rebuilt_near(update_step(model, update.kind).model);
}

/// Everything that was asked for over a run of happenings, in its order.
pub open spec fn asked_in_all(model: ModelView, happenings: Seq<Happening>) -> Seq<EffectView>
    decreases happenings.len(),
{
    if happenings.len() == 0 {
        Seq::empty()
    } else {
        let earlier = happenings.drop_last();
        asked_in_all(model, earlier) + interpreted(
            after_all(model, earlier),
            happenings.last(),
        ).effects
    }
}

/// Whether the value of each watch that waits was asked for against the frame that
/// the program is stopped at, in the current generation.
pub open spec fn waiting_was_asked(model: ModelView, asked: Seq<EffectView>) -> bool {
    model.state == SessionState::Stopped && model.frame_id is Some ==> forall|i: int|
        0 <= i < model.watches.len() && (#[trigger] model.watches[i]).state is Pending
            ==> asked.contains(
            EffectView::EvalWatch {
                expression: model.watches[i].expression,
                frame_id: model.frame_id->0,
                epoch: model.epoch,
            },
        )
}

/// What was asked for still was when more is asked for, as long as each watch that
/// waits did so before or was asked for now.
proof fn lemma_still_asked(
    before: ModelView,
    after: ModelView,
    asked: Seq<EffectView>,
    more: Seq<EffectView>,
)
    requires
        waiting_was_asked(before, asked),
        after.state == before.state,
        after.frame_id == before.frame_id,
        after.epoch == before.epoch,
        forall|i: int|
            0 <= i < after.watches.len() && (#[trigger] after.watches[i]).state is Pending ==> {
                ||| exists|j: int|
                    0 <= j < before.watches.len() && (#[trigger] before.watches[j])
                        == after.watches[i]
                ||| more.contains(
                    EffectView::EvalWatch {
                        expression: after.watches[i].expression,
                        frame_id: after.frame_id->0,
                        epoch: after.epoch,
                    },
                )
            },
    ensures
        waiting_was_asked(after, asked + more),
{
    if after.state == SessionState::Stopped && after.frame_id is Some {
        assert forall|i: int|
            0 <= i < after.watches.len() && (
            #[trigger] after.watches[i]).state is Pending implies (asked + more).contains(
            EffectView::EvalWatch {
                expression: after.watches[i].expression,
                frame_id: after.frame_id->0,
                epoch: after.epoch,
            },
        ) by {
            let wanted = EffectView::EvalWatch {
                expression: after.watches[i].expression,
                frame_id: after.frame_id->0,
                epoch: after.epoch,
            };
            if more.contains(wanted) {
                let k = choose|k: int| 0 <= k < more.len() && more[k] == wanted;
                assert((asked + more)[asked.len() + k] == wanted);
            } else {
                let j = choose|j: int|
                    0 <= j < before.watches.len() && (#[trigger] before.watches[j])
                        == after.watches[i];
                assert(asked.contains(wanted));
                let k = choose|k: int| 0 <= k < asked.len() && asked[k] == wanted;
                assert((asked + more)[k] == wanted);
            }
        }
    }
}

/// An edit of a node makes no watch wait.
proof fn lemma_edits_make_nothing_wait(model: ModelView, tree: Tree, path: Seq<usize>, new: NodeView)
    ensures
        forall|i: int|
            0 <= i < model.with_node_at(tree, path, new).watches.len() && (
            #[trigger] model.with_node_at(tree, path, new).watches[i]).state is Pending
                ==> model.with_node_at(tree, path, new).watches[i] == model.watches[i],
        model.with_node_at(tree, path, new).watches.len() == model.watches.len(),
{
}

/// Whether a watch was there before.
spec fn was_there(before: ModelView, watch: WatchView) -> bool {
    exists|j: int| 0 <= j < before.watches.len() && (#[trigger] before.watches[j]) == watch
}

/// The evaluation of an expression against the frame of a model.
spec fn evaluation(model: ModelView, expression: Seq<char>) -> EffectView {
    EffectView::EvalWatch { expression, frame_id: model.frame_id->0, epoch: model.epoch }
}

/// A watch in a toggled list was there before, or is asked for.
proof fn lemma_toggled(model: ModelView, i: int)
    requires
        0 <= i < model.watch_toggled().model.watches.len(),
    ensures
        was_there(model, model.watch_toggled().model.watches[i]) || (model.state
            == SessionState::Stopped && model.frame_id is Some
            ==> model.watch_toggled().effects.contains(
            evaluation(model, model.watch_toggled().model.watches[i].expression),
        )),
{
    let after = model.watch_toggled().model;
    let more = model.watch_toggled().effects;
    let row = model.rows[model.selected_row];
    lemma_watch_position(model.watches, row.eval_name, 0);
    let watches = model.watches;
    if after.watches == watches {
        assert(watches[i] == after.watches[i]);
    } else if row.tree == Tree::Watch && row.path.len() == 1 {
        let k = row.path[0] as int;
        assert(after.watches[i] == watches[if i < k {
            i
        } else {
            i + 1
        }]);
    } else if let Some(k) = watch_position(watches, row.eval_name, 0) {
        assert(after.watches[i] == watches[if i < k {
            i
        } else {
            i + 1
        }]);
    } else if i < watches.len() {
        assert(after.watches[i] == watches[i]);
    } else if model.state == SessionState::Stopped && model.frame_id is Some {
        assert(more[0] == evaluation(model, after.watches[i].expression));
    }
}

proof fn lemma_waiting_after_toggle(model: ModelView, asked: Seq<EffectView>)
    requires
        waiting_was_asked(model, asked),
    ensures
        waiting_was_asked(
            after_action(model, Action::ToggleWatch),
            asked + asked_by(model, Action::ToggleWatch),
        ),
{
    let after = after_action(model, Action::ToggleWatch);
    let more = asked_by(model, Action::ToggleWatch);
    if after.state == SessionState::Stopped && after.frame_id is Some {
        assert forall|i: int|
            0 <= i < after.watches.len() && (#[trigger] after.watches[i]).state is Pending implies {
            ||| exists|j: int|
                0 <= j < model.watches.len() && (#[trigger] model.watches[j]) == after.watches[i]
            ||| more.contains(
                EffectView::EvalWatch {
                    expression: after.watches[i].expression,
                    frame_id: after.frame_id->0,
                    epoch: after.epoch,
                },
            )
        } by {
            lemma_toggled(model, i);
        }
        lemma_still_asked(model, after, asked, more);
    }
}

proof fn lemma_waiting_after_expanding(
    model: ModelView,
    asked: Seq<EffectView>,
    want: ExpandWant,
)
    requires
        waiting_was_asked(model, asked),
    ensures
        waiting_was_asked(
            model.expanded(want).model.refreshed(),
            asked + model.expanded(want).effects,
        ),
{
    let after = model.expanded(want).model.refreshed();
    lemma_expanding_scope(model, want);
    let row = model.rows[model.selected_row];
    if let Some(node) = model.node_at(row.tree, row.path) {
        let show = match want {
            ExpandWant::Expand => true,
            ExpandWant::Collapse => false,
            ExpandWant::Toggle => !node.expanded,
        };
        lemma_edits_make_nothing_wait(
            model,
            row.tree,
            row.path,
            NodeView { expanded: show, ..node },
        );
    }
    assert forall|i: int|
        0 <= i < after.watches.len() && (
        #[trigger] after.watches[i]).state is Pending implies exists|j: int|
        0 <= j < model.watches.len() && (#[trigger] model.watches[j]) == after.watches[i] by {
        assert(model.watches[i] == after.watches[i]);
    }
    lemma_still_asked(model, after, asked, model.expanded(want).effects);
}

proof fn lemma_waiting_after_frame_move(
    model: ModelView,
    asked: Seq<EffectView>,
    toward_caller: bool,
)
    requires
        waiting_was_asked(model, asked),
    ensures
        waiting_was_asked(
            model.frame_moved(toward_caller).model.refreshed(),
            asked + model.frame_moved(toward_caller).effects,
        ),
{
    let after = model.frame_moved(toward_caller).model.refreshed();
    let more = model.frame_moved(toward_caller).effects;
    if model.neighbour_frame(toward_caller) is None {
        lemma_unchanged_watches(model, after, asked, more);
    } else if after.frame_id is Some {
        assert forall|i: int| 0 <= i < after.watches.len() implies (asked + more).contains(
            EffectView::EvalWatch {
                expression: (#[trigger] after.watches[i]).expression,
                frame_id: after.frame_id->0,
                epoch: after.epoch,
            },
        ) by {
            assert((asked + more)[asked.len() + 1 + i] == evaluation(
                after,
                after.watches[i].expression,
            ));
        }
    }
}

#[verifier::rlimit(40)]
proof fn lemma_waiting_after_action(model: ModelView, asked: Seq<EffectView>, action: Action)
    requires
        waiting_was_asked(model, asked),
    ensures
        waiting_was_asked(after_action(model, action), asked + asked_by(model, action)),
{
    match action {
        Action::Expand => {
            lemma_waiting_after_expanding(model, asked, ExpandWant::Expand);
        },
        Action::Collapse => {
            lemma_waiting_after_expanding(model, asked, ExpandWant::Collapse);
        },
        Action::ToggleExpand => {
            lemma_waiting_after_expanding(model, asked, ExpandWant::Toggle);
        },
        Action::ToggleWatch => {
            lemma_waiting_after_toggle(model, asked);
        },
        Action::SelectCallerFrame => {
            lemma_waiting_after_frame_move(model, asked, true);
        },
        Action::SelectCalleeFrame => {
            lemma_waiting_after_frame_move(model, asked, false);
        },
        _ => {
            lemma_unchanged_watches(
                model,
                after_action(model, action),
                asked,
                asked_by(model, action),
            );
        },
    }
}

proof fn lemma_unchanged_watches(
    before: ModelView,
    after: ModelView,
    asked: Seq<EffectView>,
    more: Seq<EffectView>,
)
    requires
        waiting_was_asked(before, asked),
        after.state == before.state,
        after.frame_id == before.frame_id,
        after.epoch == before.epoch,
        after.watches == before.watches,
    ensures
        waiting_was_asked(after, asked + more),
{
    assert forall|i: int|
        0 <= i < after.watches.len() && (
        #[trigger] after.watches[i]).state is Pending implies exists|j: int|
        0 <= j < before.watches.len() && (#[trigger] before.watches[j]) == after.watches[i] by {
        assert(before.watches[i] == after.watches[i]);
    }
    lemma_still_asked(before, after, asked, more);
}

proof fn lemma_waiting_after_reply(model: ModelView, asked: Seq<EffectView>, update: Update)
    requires
        waiting_was_asked(model, asked),
    ensures
        waiting_was_asked(after_reply(model, update), asked + asked_by_reply(model, update)),
{
    let after = after_reply(model, update);
    let more = asked_by_reply(model, update);
    if after == model {
        lemma_unchanged_watches(model, after, asked, more);
    } else {
        match update.kind {
            UpdateKind::Stopped { thread_id, stack, frame_id, roots } => {
                if let Some(frame) = frame_id {
                    assert forall|i: int| 0 <= i < after.watches.len() implies (asked
                        + more).contains(
                        EffectView::EvalWatch {
                            expression: (#[trigger] after.watches[i]).expression,
                            frame_id: frame,
                            epoch: after.epoch,
                        },
                    ) by {
                        assert((asked + more)[asked.len() + i] == (EffectView::EvalWatch {
                            expression: after.watches[i].expression,
                            frame_id: frame,
                            epoch: after.epoch,
                        }));
                    }
                }
            },
            UpdateKind::Children { target, children } => {
                let node = target_node(model, target@)->0;
                let new = NodeView { children: Some(views(children@)), ..node };
                lemma_children_scope(model, target@, new);
                assert forall|i: int|
                    0 <= i < after.watches.len() && (
                    #[trigger] after.watches[i]).state is Pending implies exists|j: int|
                    0 <= j < model.watches.len() && (#[trigger] model.watches[j])
                        == after.watches[i] by {
                    assert(expressions(after.watches).len() == expressions(model.watches).len());
                    assert(model.watches[i] == after.watches[i]);
                }
                lemma_still_asked(model, after, asked, more);
            },
            UpdateKind::Watch { expression, node } => {
                lemma_watch_position(model.watches, expression@, 0);
                assert forall|i: int|
                    0 <= i < after.watches.len() && (
                    #[trigger] after.watches[i]).state is Pending implies exists|j: int|
                    0 <= j < model.watches.len() && (#[trigger] model.watches[j])
                        == after.watches[i] by {
                    assert(model.watches[i] == after.watches[i]);
                }
                lemma_still_asked(model, after, asked, more);
            },
            _ => {
                lemma_unchanged_watches(model, after, asked, more);
            },
        }
    }
}

/// Whatever happens to a new model, while the program is stopped at a frame every
/// watch that waits for its value was asked for against that frame, in the current
/// generation. So none waits for good.
#[verifier::rlimit(40)]
pub proof fn law_no_watch_waits_in_vain(happenings: Seq<Happening>)
    ensures
        waiting_was_asked(
            after_all(initial_model(), happenings),
            asked_in_all(initial_model(), happenings),
        ),
    decreases happenings.len(),
{
    if happenings.len() > 0 {
        let earlier = happenings.drop_last();
        law_no_watch_waits_in_vain(earlier);
        let model = after_all(initial_model(), earlier);
        let asked = asked_in_all(initial_model(), earlier);
        match happenings.last() {
            Happening::Action(action) => {
                lemma_waiting_after_action(model, asked, action);
            },
            Happening::Event(msg) => {
                let after = after_event(model, msg);
                if after.state == SessionState::Stopped && after.frame_id is Some {
                    lemma_unchanged_watches(model, after, asked, asked_by_event(model, msg));
                }
            },
            Happening::Update(update) => {
                lemma_waiting_after_reply(model, asked, update);
            },
        }
    }
}

} // verus!
