//! What holds of the debugger model over every action, event, and reply.

use crate::model::{
    clamped_row, initial_model, lemma_first_selectable, lemma_last_selectable, watch_list_rows,
    watch_position, EntryView, ModelView, RowView, Tree, WatchView,
};
use crate::node::NodeView;
use crate::row_laws::law_nodes_are_read_back;
use crate::text::{lemma_trimmed, trimmed};
use crate::types::{EventMessage, SessionState};
use crate::update::{
    action_step, event_step, interpreted, is_command, is_superseded, quiet, target_node, update_step,
    with_target_node, Action, EffectView, ExpandWant, Happening, TargetView, Update,
    UpdateKind,
};
use crate::views::views;
use vstd::prelude::*;

verus! {

/// The model after a run of happenings.
pub open spec fn after_all(model: ModelView, happenings: Seq<Happening>) -> ModelView
    decreases happenings.len(),
{
    if happenings.len() == 0 {
        model
    } else {
        interpreted(after_all(model, happenings.drop_last()), happenings.last()).model
    }
}

/// Whether the cached rows are those that the state calls for.
pub open spec fn rows_current(model: ModelView) -> bool {
    model.rows == model.built_rows()
}

/// Whether the cursor is on a row it can be on, when there is one.
pub open spec fn cursor_placed(model: ModelView) -> bool {
    (exists|i: int| 0 <= i < model.rows.len() && (#[trigger] model.rows[i]).selectable()) ==> {
        &&& 0 <= model.selected_row < model.rows.len()
        &&& model.rows[model.selected_row].selectable()
    }
}

/// A new model shows no rows, which are those its state calls for.
pub proof fn law_a_new_model_is_current()
    ensures
        rows_current(initial_model()),
        cursor_placed(initial_model()),
{
    reveal(ModelView::built_rows);
    let m = initial_model();
    assert(watch_list_rows(m.watches, 0) =~= Seq::<RowView>::empty());
    assert(m.built_rows() =~= Seq::<RowView>::empty());
}

/// Every happening leaves the cached rows current, if they were.
pub proof fn law_rows_stay_current(model: ModelView, happening: Happening)
    requires
        rows_current(model),
    ensures
        rows_current(interpreted(model, happening).model),
{
    reveal(ModelView::built_rows);
}

/// The rows that a state calls for depend on neither the cached rows nor the
/// cursor.
pub proof fn lemma_same_rows(a: ModelView, b: ModelView)
    requires
        a == (ModelView { rows: a.rows, selected_row: a.selected_row, ..b }),
    ensures
        a.built_rows() == b.built_rows(),
{
    reveal(ModelView::built_rows);
}

/// How far two rows are apart.
pub open spec fn distance(a: int, b: int) -> int {
    if a <= b {
        b - a
    } else {
        a - b
    }
}

/// A cursor is put on a selectable row when there is one, the nearest to the row it
/// names, and stays where it is when it is on one already. A cursor behind the
/// rows counts as on the last one.
pub proof fn law_a_clamped_cursor_is_placed(rows: Seq<RowView>, selected: int)
    requires
        0 <= selected,
    ensures
        (exists|i: int| 0 <= i < rows.len() && (#[trigger] rows[i]).selectable()) ==> {
            &&& 0 <= clamped_row(rows, selected) < rows.len()
            &&& rows[clamped_row(rows, selected)].selectable()
        },
        selected < rows.len() && rows[selected].selectable() ==> clamped_row(rows, selected)
            == selected,
        ({
            let at = if selected < rows.len() {
                selected
            } else {
                rows.len() - 1
            };
            forall|j: int|
                0 <= j < rows.len() && (#[trigger] rows[j]).selectable() ==> distance(
                    clamped_row(rows, selected),
                    at,
                ) <= distance(j, at)
        }),
        0 <= clamped_row(rows, selected),
{
    if rows.len() > 0 {
        let at = if selected < rows.len() {
            selected
        } else {
            rows.len() - 1
        };
        lemma_first_selectable(rows, at);
        lemma_last_selectable(rows, at);
    }
}

/// The cursor is never before the first row.
pub open spec fn cursor_in_order(model: ModelView) -> bool {
    0 <= model.selected_row
}

/// Every happening leaves the cursor on a selectable row when there is one, if it
/// was so.
pub proof fn law_the_cursor_stays_placed(model: ModelView, happening: Happening)
    requires
        cursor_in_order(model),
        cursor_placed(model),
    ensures
        cursor_in_order(interpreted(model, happening).model),
        cursor_placed(interpreted(model, happening).model),
{
    lemma_first_selectable(model.rows, 0);
    lemma_first_selectable(model.rows, model.selected_row + 1);
    lemma_last_selectable(model.rows, model.rows.len() as int);
    if model.selected_row <= model.rows.len() {
        lemma_last_selectable(model.rows, model.selected_row);
    }
    let before = match happening {
        Happening::Action(action) => action_step(model, action).model,
        Happening::Event(msg) => event_step(model, msg).model,
        Happening::Update(update) => update_step(model, update.kind).model,
    };
    assert(0 <= before.selected_row);
    law_a_clamped_cursor_is_placed(before.built_rows(), before.selected_row);
}

/// Whether a happening starts a new generation of the frame view: a stop, a
/// resume, or a move to another frame.
pub open spec fn starts_generation(model: ModelView, happening: Happening) -> bool {
    match happening {
        Happening::Action(Action::SelectCallerFrame) => model.selected_frame + 1
            < model.stack.len(),
        Happening::Action(Action::SelectCalleeFrame) => model.stack.len() > 0
            && model.selected_frame > 0,
        Happening::Action(_) => false,
        Happening::Event(msg) => msg.event@ == "stopped"@ || msg.event@ == "continued"@,
        Happening::Update(_) => false,
    }
}

/// The generation advances by one on every stop, resume, and frame change, and on
/// nothing else.
pub proof fn law_generations_advance(model: ModelView, happening: Happening)
    ensures
        interpreted(model, happening).model.epoch == if starts_generation(model, happening) {
            model.epoch + 1
        } else {
            model.epoch
        },
{
}

/// Generations never go back over a run of happenings.
pub proof fn law_generations_never_go_back(model: ModelView, happenings: Seq<Happening>)
    ensures
        after_all(model, happenings).epoch >= model.epoch,
    decreases happenings.len(),
{
    if happenings.len() > 0 {
        law_generations_never_go_back(model, happenings.drop_last());
        law_generations_advance(after_all(model, happenings.drop_last()), happenings.last());
    }
}

/// Whether a reply is about the frame view: a resolved stop, scopes, children, the
/// value of a watch, or that one of these failed.
pub open spec fn is_about_the_frame(kind: UpdateKind) -> bool {
    match kind {
        UpdateKind::Stopped { .. } => true,
        UpdateKind::Scopes { .. } => true,
        UpdateKind::Children { .. } => true,
        UpdateKind::Watch { .. } => true,
        UpdateKind::Failed { .. } => true,
        UpdateKind::Evaluated { .. } => false,
        UpdateKind::DriveFailed { .. } => false,
    }
}

/// A reply about the frame view of another generation than the current one is
/// dropped: it changes nothing, not even the rows and the cursor, and asks for nothing.
pub proof fn law_replies_of_other_generations_are_dropped(model: ModelView, update: Update)
    requires
        is_about_the_frame(update.kind),
        update.epoch != model.epoch,
    ensures
        interpreted(model, Happening::Update(update)).model == model,
        interpreted(model, Happening::Update(update)).effects.len() == 0,
{
}

/// A reply about the frame view of a generation that has passed changes nothing
/// and asks for nothing, however much later it arrives.
pub proof fn law_stale_replies_never_land(
    model: ModelView,
    happenings: Seq<Happening>,
    update: Update,
)
    requires
        is_about_the_frame(update.kind),
        update.epoch < model.epoch,
    ensures
        interpreted(after_all(model, happenings), Happening::Update(update)) == quiet(
            after_all(model, happenings),
        ),
{
    law_generations_never_go_back(model, happenings);
}

/// The generation an effect was issued under.
pub open spec fn effect_epoch(effect: EffectView) -> int {
    match effect {
        EffectView::ResolveStop { thread_hint, epoch } => epoch,
        EffectView::FetchScopes { frame_id, epoch } => epoch,
        EffectView::FetchChildren { target, var_ref, epoch } => epoch,
        EffectView::Evaluate { expression, frame_id, epoch } => epoch,
        EffectView::EvalWatch { expression, frame_id, epoch } => epoch,
        EffectView::Drive { command, thread_id, epoch } => epoch,
    }
}

/// Every effect carries the generation that the model is in once it is wanted, so
/// its reply lands unless a new generation starts.
pub proof fn law_effects_carry_the_generation(model: ModelView, happening: Happening, i: int)
    requires
        0 <= i < interpreted(model, happening).effects.len(),
    ensures
        effect_epoch(interpreted(model, happening).effects[i]) == interpreted(
            model,
            happening,
        ).model.epoch,
{
}

/// The frame an effect is aimed at, if it is aimed at one.
pub open spec fn effect_frame(effect: EffectView) -> Option<i64> {
    match effect {
        EffectView::FetchScopes { frame_id, epoch } => Some(frame_id),
        EffectView::Evaluate { expression, frame_id, epoch } => Some(frame_id),
        EffectView::EvalWatch { expression, frame_id, epoch } => Some(frame_id),
        _ => None,
    }
}

/// Whatever is fetched or evaluated is aimed at the one frame that the model has
/// selected. With no frame nothing is.
#[verifier::rlimit(40)]
pub proof fn law_effects_aim_at_the_selected_frame(model: ModelView, happening: Happening, i: int)
    requires
        0 <= i < interpreted(model, happening).effects.len(),
    ensures
        effect_frame(interpreted(model, happening).effects[i]) matches Some(frame_id)
            ==> interpreted(model, happening).model.frame_id == Some(frame_id),
{
}

/// A run-control command is only issued to the thread the program last stopped on,
/// a pause only while the program runs, anything else only while it is stopped.
pub proof fn law_run_control_fits_the_state(model: ModelView, happening: Happening, i: int)
    requires
        0 <= i < interpreted(model, happening).effects.len(),
    ensures
        interpreted(model, happening).effects[i] matches EffectView::Drive {
            command,
            thread_id,
            epoch,
        } ==> {
            &&& model.thread_id == Some(thread_id)
            &&& model.state == if command == "pause"@ {
                SessionState::Running
            } else {
                SessionState::Stopped
            }
        },
{
    reveal_strlit("pause");
    reveal_strlit("continue");
    reveal_strlit("next");
    reveal_strlit("stepIn");
    reveal_strlit("stepOut");
}

/// Whether the frame evaluated against is the selected one of the stack.
pub open spec fn frame_coherent(model: ModelView) -> bool {
    model.frame_id == if model.selected_frame < model.stack.len() {
        Some(model.stack[model.selected_frame].id)
    } else {
        None
    }
}

/// Whether a resolved stop names the top frame of its stack.
pub open spec fn resolves_to_top(happening: Happening) -> bool {
    happening matches Happening::Update(update) ==> update.kind matches UpdateKind::Stopped {
        thread_id,
        stack,
        frame_id,
        roots,
    } ==> frame_id == if stack@.len() > 0 {
        Some(stack@[0].id)
    } else {
        None
    }
}

proof fn lemma_node_edit_scope(model: ModelView, tree: Tree, path: Seq<usize>, new: NodeView)
    ensures
        ({
            let after = model.with_node_at(tree, path, new);
            after == ModelView {
                roots: after.roots,
                watches: after.watches,
                transcript: after.transcript,
                ..model
            }
        }),
        model.with_node_at(tree, path, new).watches.len() == model.watches.len(),
        expressions(model.with_node_at(tree, path, new).watches) == expressions(model.watches),
{
    let after = model.with_node_at(tree, path, new);
    assert(expressions(after.watches) =~= expressions(model.watches));
}

/// What expanding or collapsing leaves alone.
pub proof fn lemma_expanding_scope(model: ModelView, want: ExpandWant)
    ensures
        ({
            let after = model.expanded(want).model;
            after == ModelView {
                roots: after.roots,
                watches: after.watches,
                transcript: after.transcript,
                ..model
            }
        }),
        expressions(model.expanded(want).model.watches) == expressions(model.watches),
{
    if model.selected_row < model.rows.len() {
        let row = model.rows[model.selected_row];
        if let Some(node) = model.node_at(row.tree, row.path) {
            let show = match want {
                ExpandWant::Expand => true,
                ExpandWant::Collapse => false,
                ExpandWant::Toggle => !node.expanded,
            };
            lemma_node_edit_scope(model, row.tree, row.path, NodeView { expanded: show, ..node });
        }
    }
}

/// What a list of children leaves alone.
pub proof fn lemma_children_scope(model: ModelView, target: TargetView, new: NodeView)
    ensures
        ({
            let after = with_target_node(model, target, new);
            after == ModelView {
                roots: after.roots,
                watches: after.watches,
                transcript: after.transcript,
                ..model
            }
        }),
        expressions(with_target_node(model, target, new).watches) == expressions(model.watches),
{
    match target {
        TargetView::Scope { path } => {
            lemma_node_edit_scope(model, Tree::Scope, path, new);
        },
        TargetView::Watch { expression, subpath } => {
            lemma_watch_position(model.watches, expression, 0);
            assert(expressions(with_target_node(model, target, new).watches) =~= expressions(
                model.watches,
            ));
        },
        TargetView::Result { path } => {
            lemma_node_edit_scope(model, Tree::Result, path, new);
        },
    }
}

/// Expanding, collapsing, and receiving children, applied to one happening.
proof fn lemma_edit_scope(model: ModelView, happening: Happening)
    ensures
        match happening {
            Happening::Action(Action::Expand) | Happening::Action(Action::Collapse)
            | Happening::Action(Action::ToggleExpand) => true,
            Happening::Update(update) => update.kind is Children,
            _ => false,
        } ==> {
            let after = interpreted(model, happening).model;
            &&& after.stack == model.stack
            &&& after.selected_frame == model.selected_frame
            &&& after.frame_id == model.frame_id
            &&& expressions(after.watches) == expressions(model.watches)
        },
{
    lemma_expanding_scope(model, ExpandWant::Expand);
    lemma_expanding_scope(model, ExpandWant::Collapse);
    lemma_expanding_scope(model, ExpandWant::Toggle);
    if let Happening::Update(update) = happening {
        if let UpdateKind::Children { target, children } = update.kind {
            if let Some(node) = target_node(model, target@) {
                lemma_children_scope(
                    model,
                    target@,
                    NodeView { children: Some(views(children@)), ..node },
                );
            }
        }
    }
}

/// The stack view and evaluation never disagree about the current frame, as long as
/// a resolved stop names the top frame of its stack.
#[verifier::rlimit(40)]
pub proof fn law_one_frame_is_selected(model: ModelView, happening: Happening)
    requires
        model.selected_frame >= 0,
        frame_coherent(model),
        resolves_to_top(happening),
    ensures
        interpreted(model, happening).model.selected_frame >= 0,
        frame_coherent(interpreted(model, happening).model),
{
    lemma_edit_scope(model, happening);
    match happening {
        Happening::Action(action) => {
            let before = action_step(model, action).model;
            match action {
                Action::SelectCallerFrame => {
                    assert(frame_coherent(before));
                },
                Action::SelectCalleeFrame => {
                    assert(frame_coherent(before));
                },
                Action::InputSubmit => {
                    assert(frame_coherent(before));
                },
                Action::ToggleWatch => {
                    assert(frame_coherent(before));
                },
                _ => {
                    assert(before.frame_id == model.frame_id && before.stack == model.stack
                        && before.selected_frame == model.selected_frame);
                },
            }
        },
        Happening::Event(msg) => {
            assert(frame_coherent(event_step(model, msg).model));
        },
        Happening::Update(update) => {
            if !is_superseded(model, update) {
                assert(frame_coherent(update_step(model, update.kind).model));
            }
        },
    }
}

/// Moving to the caller and back selects the frame that was selected before.
pub proof fn law_moving_back_returns(model: ModelView)
    requires
        model.selected_frame >= 0,
        frame_coherent(model),
        model.neighbour_frame(true) is Some,
    ensures
        ({
            let there = interpreted(model, Happening::Action(Action::SelectCallerFrame)).model;
            let back = interpreted(there, Happening::Action(Action::SelectCalleeFrame)).model;
            back.selected_frame == model.selected_frame && back.frame_id == model.frame_id
                && back.stack == model.stack
        }),
{
}

/// A stop shows the top of a fresh stack: whatever frame was selected, no frame is
/// until the stop is resolved, and the top one then.
pub proof fn law_a_stop_resets_the_selection(model: ModelView, msg: EventMessage, update: Update)
    requires
        msg.event@ == "stopped"@,
        update.kind is Stopped,
        update.epoch == model.epoch + 1,
    ensures
        ({
            let stopped = interpreted(model, Happening::Event(msg)).model;
            let resolved = interpreted(stopped, Happening::Update(update)).model;
            &&& stopped.state == SessionState::Stopped
            &&& stopped.frame_id is None
            &&& stopped.stack.len() == 0
            &&& resolved.selected_frame == 0
            &&& resolved.frame_id == update.kind->frame_id
        }),
{
}

/// While no frame is resolved, submitting input evaluates nothing.
pub proof fn law_no_frame_no_evaluation(model: ModelView)
    requires
        model.frame_id is None,
    ensures
        interpreted(model, Happening::Action(Action::InputSubmit)).effects.len() == 0,
{
}

/// After a resume or the end of the session no frame is resolved.
pub proof fn law_leaving_a_stop_drops_the_frame(model: ModelView, msg: EventMessage)
    requires
        msg.event@ == "continued"@ || msg.event@ == "terminated"@ || msg.event@ == "exited"@,
    ensures
        interpreted(model, Happening::Event(msg)).model.frame_id is None,
        interpreted(model, Happening::Event(msg)).model.stack.len() == 0,
        msg.event@ == "continued"@ ==> interpreted(model, Happening::Event(msg)).model.thread_id
            == model.thread_id,
        msg.event@ != "continued"@ ==> interpreted(
            model,
            Happening::Event(msg),
        ).model.thread_id is None,
{
    reveal_strlit("stopped");
    reveal_strlit("continued");
    reveal_strlit("terminated");
    reveal_strlit("exited");
    assert("stopped"@.len() == 7 && "continued"@.len() == 9 && "terminated"@.len() == 10
        && "exited"@.len() == 6);
}

/// The watched expressions, in their order.
pub open spec fn expressions(watches: Seq<WatchView>) -> Seq<Seq<char>> {
    Seq::new(watches.len(), |i: int| watches[i].expression)
}

/// The position found for an expression is that of its first watch, and none is
/// found only when it is not watched.
pub proof fn lemma_watch_position(watches: Seq<WatchView>, expression: Seq<char>, from: int)
    requires
        0 <= from,
    ensures
        match watch_position(watches, expression, from) {
            Some(i) => {
                &&& from <= i < watches.len()
                &&& watches[i].expression == expression
                &&& forall|j: int|
                    from <= j < i ==> (#[trigger] watches[j]).expression != expression
            },
            None => forall|j: int|
                from <= j < watches.len() ==> (#[trigger] watches[j]).expression != expression,
        },
    decreases watches.len() - from,
{
    if from < watches.len() && watches[from].expression != expression {
        lemma_watch_position(watches, expression, from + 1);
    }
}

/// The watch list is durable: nothing but pinning and unpinning changes which
/// expressions are watched or their order.
pub proof fn law_watches_are_durable(model: ModelView, happening: Happening)
    requires
        happening != Happening::Action(Action::ToggleWatch),
    ensures
        expressions(interpreted(model, happening).model.watches) == expressions(model.watches),
{
    let after = interpreted(model, happening).model;
    lemma_edit_scope(model, happening);
    if let Happening::Update(update) = happening {
        if let UpdateKind::Watch { expression, node } = update.kind {
            lemma_watch_position(model.watches, expression@, 0);
        }
    }
    assert(expressions(after.watches) =~= expressions(model.watches));
}

/// Whether no expression is watched twice.
pub open spec fn watched_once(watches: Seq<WatchView>) -> bool {
    forall|i: int, j: int|
        0 <= i < j < watches.len() ==> (#[trigger] watches[i]).expression != (
        #[trigger] watches[j]).expression
}

/// No expression is ever watched twice, if none was.
pub proof fn law_nothing_is_watched_twice(model: ModelView, happening: Happening)
    requires
        watched_once(model.watches),
    ensures
        watched_once(interpreted(model, happening).model.watches),
{
    let after = interpreted(model, happening).model;
    if happening == Happening::Action(Action::ToggleWatch) {
        if model.selected_row < model.rows.len() {
            lemma_watch_position(model.watches, model.rows[model.selected_row].eval_name, 0);
        }
    } else {
        law_watches_are_durable(model, happening);
        assert(expressions(after.watches).len() == expressions(model.watches).len());
        assert forall|i: int, j: int| 0 <= i < j < after.watches.len() implies (
        #[trigger] after.watches[i]).expression != (#[trigger] after.watches[j]).expression by {
            assert(expressions(after.watches)[i] == expressions(model.watches)[i]);
            assert(expressions(after.watches)[j] == expressions(model.watches)[j]);
        }
    }
}

/// Unpinning an expression that was just pinned gives back the watch list.
pub proof fn law_unpinning_undoes_pinning(model: ModelView, expression: Seq<char>)
    requires
        watch_position(model.watches, expression, 0) is None,
    ensures
        ({
            let pinned = model.pinned(expression).model;
            &&& watch_position(pinned.watches, expression, 0) == Some(model.watches.len() as int)
            &&& pinned.unpinned(model.watches.len() as int) == model
        }),
{
    let pinned = model.pinned(expression).model;
    lemma_watch_position(model.watches, expression, 0);
    lemma_watch_position(pinned.watches, expression, 0);
    let found = watch_position(pinned.watches, expression, 0);
    let last = model.watches.len() as int;
    assert(pinned.watches[last].expression == expression);
    if found->0 < last {
        assert(pinned.watches[found->0] == model.watches[found->0]);
    }
    assert(pinned.unpinned(last).watches =~= model.watches);
}

/// Whether two nodes are the same but for one part of theirs: when it was fetched,
/// its children, and else whether it is expanded.
pub open spec fn same_but_for(
    before: NodeView,
    after: NodeView,
    path: Seq<usize>,
    fetched: bool,
) -> bool {
    &&& before.descendant(path) is Some
    &&& after.descendant(path) is Some
    &&& after == before.with_descendant(path, after.descendant(path)->0)
    &&& after.descendant(path)->0 == if fetched {
        NodeView {
            children: after.descendant(path)->0.children,
            ..before.descendant(path)->0
        }
    } else {
        NodeView {
            expanded: after.descendant(path)->0.expanded,
            ..before.descendant(path)->0
        }
    }
}

/// Whether two transcript entries are the same but for the children of one part, when
/// they were fetched, and else for whether one part is expanded.
pub open spec fn same_entry(before: EntryView, after: EntryView, fetched: bool) -> bool {
    after == before || (before matches EntryView::Evaluated { node: b } && after matches
        EntryView::Evaluated { node: a } && exists|path: Seq<usize>| #[trigger]
        same_but_for(b, a, path, fetched))
}

/// Whether a happening brings the children of a node.
pub open spec fn brings_children(happening: Happening) -> bool {
    happening matches Happening::Update(update) && update.kind is Children
}

proof fn lemma_node_edit_transcript(
    model: ModelView,
    tree: Tree,
    path: Seq<usize>,
    new: NodeView,
    fetched: bool,
    i: int,
)
    requires
        0 <= i < model.transcript.len(),
        model.node_at(tree, path) is Some,
        new == if fetched {
            NodeView { children: new.children, ..model.node_at(tree, path)->0 }
        } else {
            NodeView { expanded: new.expanded, ..model.node_at(tree, path)->0 }
        },
    ensures
        model.with_node_at(tree, path, new).transcript.len() == model.transcript.len(),
        same_entry(model.transcript[i], model.with_node_at(tree, path, new).transcript[i], fetched),
{
    if tree == Tree::Result && i == path[0] {
        let root = model.result_root(i)->0;
        let below = path.drop_first();
        law_nodes_are_read_back(root, below, new);
        assert(same_but_for(root, root.with_descendant(below, new), below, fetched));
    }
}

proof fn lemma_expanding_transcript(model: ModelView, want: ExpandWant, i: int)
    requires
        0 <= i < model.transcript.len(),
    ensures
        model.expanded(want).model.transcript.len() == model.transcript.len(),
        same_entry(model.transcript[i], model.expanded(want).model.transcript[i], false),
{
    if model.selected_row < model.rows.len() {
        let row = model.rows[model.selected_row];
        if let Some(node) = model.node_at(row.tree, row.path) {
            let show = match want {
                ExpandWant::Expand => true,
                ExpandWant::Collapse => false,
                ExpandWant::Toggle => !node.expanded,
            };
            lemma_node_edit_transcript(
                model,
                row.tree,
                row.path,
                NodeView { expanded: show, ..node },
                false,
                i,
            );
        }
    }
}

proof fn lemma_children_transcript(model: ModelView, target: TargetView, new: NodeView, i: int)
    requires
        0 <= i < model.transcript.len(),
        target_node(model, target) is Some,
        new == (NodeView { children: new.children, ..target_node(model, target)->0 }),
    ensures
        with_target_node(model, target, new).transcript.len() == model.transcript.len(),
        same_entry(model.transcript[i], with_target_node(model, target, new).transcript[i], true),
{
    match target {
        TargetView::Scope { path } => {
            lemma_node_edit_transcript(model, Tree::Scope, path, new, true, i);
        },
        TargetView::Watch { expression, subpath } => {},
        TargetView::Result { path } => {
            lemma_node_edit_transcript(model, Tree::Result, path, new, true, i);
        },
    }
}

/// The transcript is append-only, so the position of a result stays its own. Its
/// entries stay as they are, but that a part of a result is expanded or collapsed,
/// or gets the children that were fetched for it.
#[verifier::rlimit(40)]
pub proof fn law_the_transcript_only_grows(model: ModelView, happening: Happening, i: int)
    requires
        0 <= i < model.transcript.len(),
    ensures
        interpreted(model, happening).model.transcript.len() >= model.transcript.len(),
        same_entry(
            model.transcript[i],
            interpreted(model, happening).model.transcript[i],
            brings_children(happening),
        ),
{
    match happening {
        Happening::Action(action) => {
            let after = action_step(model, action).model;
            match action {
                Action::Expand => {
                    lemma_expanding_transcript(model, ExpandWant::Expand, i);
                },
                Action::Collapse => {
                    lemma_expanding_transcript(model, ExpandWant::Collapse, i);
                },
                Action::ToggleExpand => {
                    lemma_expanding_transcript(model, ExpandWant::Toggle, i);
                },
                Action::InputSubmit => {
                    assert(after.transcript[i] == model.transcript[i]);
                },
                _ => {
                    assert(after.transcript == model.transcript);
                },
            }
        },
        Happening::Event(msg) => {
            assert(event_step(model, msg).model.transcript == model.transcript);
        },
        Happening::Update(update) => {
            let after = update_step(model, update.kind).model;
            match update.kind {
                UpdateKind::Children { target, children } => {
                    if let Some(node) = target_node(model, target@) {
                        lemma_children_transcript(
                            model,
                            target@,
                            NodeView { children: Some(views(children@)), ..node },
                            i,
                        );
                    }
                },
                _ => {
                    assert(after.transcript[i] == model.transcript[i]);
                },
            }
        },
    }
}

/// An evaluation result is history: it is recorded whatever generation it is from.
pub proof fn law_results_are_always_recorded(model: ModelView, update: Update)
    requires
        update.kind is Evaluated,
    ensures
        interpreted(model, Happening::Update(update)).model.transcript == model.transcript.push(
            match update.kind->Evaluated_result {
                Ok(node) => EntryView::Evaluated { node: node@ },
                Err(message) => EntryView::Error { message: message@ },
            },
        ),
{
}

/// Whatever happens to a new model, its rows are those its state calls for, its
/// cursor is on a row it can be on, nothing is watched twice, and what an empty line
/// repeats is an expression.
pub proof fn law_every_state_is_in_order(happenings: Seq<Happening>)
    ensures
        rows_current(after_all(initial_model(), happenings)),
        cursor_in_order(after_all(initial_model(), happenings)),
        cursor_placed(after_all(initial_model(), happenings)),
        watched_once(after_all(initial_model(), happenings).watches),
        repeatable(after_all(initial_model(), happenings)),
    decreases happenings.len(),
{
    if happenings.len() == 0 {
        law_a_new_model_is_current();
    } else {
        law_every_state_is_in_order(happenings.drop_last());
        let before = after_all(initial_model(), happenings.drop_last());
        law_rows_stay_current(before, happenings.last());
        law_the_cursor_stays_placed(before, happenings.last());
        law_nothing_is_watched_twice(before, happenings.last());
        law_the_last_expression_can_be_repeated(before, happenings.last());
    }
}

/// What toggling a watch can do to the watch list, and what it asks for.
pub open spec fn watch_edit(
    model: ModelView,
    watches: Seq<WatchView>,
    effects: Seq<EffectView>,
) -> bool {
    ||| watches == model.watches && effects.len() == 0
    ||| effects.len() == 0 && exists|i: int|
        0 <= i < model.watches.len() && watches == #[trigger] model.watches.remove(i)
    ||| {
        let pinned = watches.last();
        &&& watches == model.watches.push(pinned)
        &&& pinned.state is Pending
        &&& effects == if model.state == SessionState::Stopped && model.frame_id is Some {
            seq![
                EffectView::EvalWatch {
                    expression: pinned.expression,
                    frame_id: model.frame_id->0,
                    epoch: model.epoch,
                },
            ]
        } else {
            Seq::empty()
        }
    }
}

/// Toggling a watch changes nothing but the watch list. It leaves the list, or takes
/// one watch out, or adds a pending one at the end, which is evaluated at once when
/// there is a live frame. Nothing is watched twice afterwards, if nothing was.
pub proof fn law_toggling_a_watch_edits_the_list(model: ModelView)
    requires
        model.selected_row >= 0,
        watched_once(model.watches),
    ensures
        ({
            let step = model.watch_toggled();
            &&& step.model == (ModelView { watches: step.model.watches, ..model })
            &&& watch_edit(model, step.model.watches, step.effects)
            &&& watched_once(step.model.watches)
        }),
{
    if model.selected_row < model.rows.len() {
        lemma_watch_position(model.watches, model.rows[model.selected_row].eval_name, 0);
    }
}

/// Toggling a watch once more on a row that is no watch, whose name was not watched,
/// gives back the model, and nothing is asked for.
pub proof fn law_toggling_a_watch_twice_changes_nothing(model: ModelView)
    requires
        0 <= model.selected_row < model.rows.len(),
        !(model.rows[model.selected_row].tree == Tree::Watch
            && model.rows[model.selected_row].path.len() == 1),
        model.rows[model.selected_row].eval_name.len() > 0,
        watch_position(model.watches, model.rows[model.selected_row].eval_name, 0) is None,
    ensures
        model.watch_toggled().model.watch_toggled().model == model,
        model.watch_toggled().model.watch_toggled().effects.len() == 0,
{
    law_unpinning_undoes_pinning(model, model.rows[model.selected_row].eval_name);
}

/// Submitting an empty line does what submitting the last expression does. With
/// none, it changes nothing but the line, and nothing is asked for.
pub proof fn law_an_empty_line_repeats_the_expression(model: ModelView)
    requires
        trimmed(model.input).len() == 0,
    ensures
        model.last_expression matches Some(e) ==> (e.len() > 0 && trimmed(e) == e ==> {
            let typed = ModelView { input: e, ..model };
            &&& model.input_submitted() == typed.input_submitted()
            &&& interpreted(model, Happening::Action(Action::InputSubmit)) == interpreted(
                typed,
                Happening::Action(Action::InputSubmit),
            )
        }),
        model.last_expression is None ==> {
            &&& model.input_submitted().model == (ModelView { input: Seq::empty(), ..model })
            &&& model.input_submitted().effects.len() == 0
        },
{
}

/// Whether a line is an expression that was submitted: not empty, without space
/// around it, and no command.
pub open spec fn is_expression(line: Seq<char>) -> bool {
    &&& line.len() > 0
    &&& trimmed(line) == line
    &&& !is_command(line)
    &&& line != "help"@
    &&& line != "?"@
}

/// Whether the expression to repeat, if there is one, is one that was submitted.
pub open spec fn repeatable(model: ModelView) -> bool {
    model.last_expression matches Some(e) ==> is_expression(e)
}

/// No action but submitting changes what is repeated.
#[verifier::rlimit(40)]
proof fn lemma_other_actions_keep_the_expression(model: ModelView, action: Action)
    requires
        !(action is InputSubmit),
    ensures
        action_step(model, action).model.last_expression == model.last_expression,
{
    match action {
        Action::Expand => {
            lemma_expanding_scope(model, ExpandWant::Expand);
        },
        Action::Collapse => {
            lemma_expanding_scope(model, ExpandWant::Collapse);
        },
        Action::ToggleExpand => {
            lemma_expanding_scope(model, ExpandWant::Toggle);
        },
        _ => {},
    }
}

/// No reply changes what is repeated.
proof fn lemma_replies_keep_the_expression(model: ModelView, kind: UpdateKind)
    ensures
        update_step(model, kind).model.last_expression == model.last_expression,
{
    if let UpdateKind::Children { target, children } = kind {
        if let Some(node) = target_node(model, target@) {
            lemma_children_scope(
                model,
                target@,
                NodeView { children: Some(views(children@)), ..node },
            );
        }
    }
}

/// Every happening leaves an expression to repeat, if there was one or none.
pub proof fn law_the_last_expression_can_be_repeated(model: ModelView, happening: Happening)
    requires
        repeatable(model),
    ensures
        repeatable(interpreted(model, happening).model),
{
    match happening {
        Happening::Action(action) => {
            if action is InputSubmit {
                lemma_trimmed(model.input);
            } else {
                lemma_other_actions_keep_the_expression(model, action);
            }
        },
        Happening::Event(msg) => {},
        Happening::Update(update) => {
            lemma_replies_keep_the_expression(model, update.kind);
        },
    }
}

} // verus!
