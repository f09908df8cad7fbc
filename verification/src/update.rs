//! Interpretation: input actions and adapter events mutate the model and produce
//! no output. Each interpretation returns the side-effecting work it wants done
//! as a list of effects. The event loop runs those effects and feeds their
//! results back as updates, which are interpreted the same way. Keeping the
//! decision pure and the I/O in effects is what lets the update step be exercised
//! without a terminal or a live connection.

use crate::model::{
    find_selectable, find_watch, first_selectable, last_selectable, rfind_selectable,
    watch_position, DebuggerModel, EntryView, InputMode, ModelView, Row, TranscriptEntry, Tree, Watch,
    WatchState, WatchStateView, WatchView,
};
use crate::node::{lemma_node_view_children, NodeView, VarNode};
use crate::text::{
    decimal, join2, join3, push_decimal, same_text, strip_char, trim, trimmed,
};
use crate::types::{EventMessage, SessionState, StackFrame, StoppedBody};
use crate::views::{group_views, views};
use vstd::prelude::*;

verus! {

/// A semantic action, derived from a keypress by the view but carrying no
/// terminal-UI types of its own.
pub enum Action {
    Quit,
    ToggleHelp,
    EnterInsert,
    InputChar(char),
    InputBackspace,
    InputSubmit,
    InputCancel,
    RowDown,
    RowUp,
    RowFirst,
    RowLast,
    Expand,
    Collapse,
    ToggleExpand,
    ToggleWatch,
    SelectCallerFrame,
    SelectCalleeFrame,
    Continue,
    StepOver,
    StepInto,
    StepOut,
    Pause,
}

/// Adapter work the event loop should perform off the model. Each effect carries
/// the epoch it was issued under, so a reply for a superseded frame view is
/// dropped.
pub enum Effect {
    ResolveStop { thread_hint: Option<i64>, epoch: u64 },
    FetchScopes { frame_id: i64, epoch: u64 },
    FetchChildren { target: FetchTarget, var_ref: i64, epoch: u64 },
    Evaluate { expression: String, frame_id: i64, epoch: u64 },
    EvalWatch { expression: String, frame_id: i64, epoch: u64 },
    Drive { command: &'static str, thread_id: i64, epoch: u64 },
}

/// Which forest a fetched child belongs to, located stably so the reply lands on
/// the right node even if the watch list changed while the fetch was in flight.
pub enum FetchTarget {
    Scope { path: Vec<usize> },
    Watch { expression: String, subpath: Vec<usize> },
    Result { path: Vec<usize> },
}

/// The result of an effect, tagged with the epoch it was issued under.
pub struct Update {
    pub epoch: u64,
    pub kind: UpdateKind,
}

/// What an effect produced.
pub enum UpdateKind {
    Stopped {
        thread_id: Option<i64>,
        stack: Vec<StackFrame>,
        frame_id: Option<i64>,
        roots: Vec<VarNode>,
    },
    Scopes { roots: Vec<VarNode> },
    Children { target: FetchTarget, children: Vec<VarNode> },
    Evaluated { result: Result<VarNode, String> },
    Watch { expression: String, node: Option<VarNode> },
    /// A run-control request the adapter rejected.
    DriveFailed { message: String },
    /// A resolve or scope fetch failed at the transport level.
    Failed { message: String },
}

/// What an expansion key asks of the selected node.
#[derive(Clone, Copy)]
pub enum ExpandWant {
    Expand,
    Collapse,
    Toggle,
}

/// The mathematical content of a [`FetchTarget`].
#[verifier::ext_equal]
pub enum TargetView {
    Scope { path: Seq<usize> },
    Watch { expression: Seq<char>, subpath: Seq<usize> },
    Result { path: Seq<usize> },
}

/// The mathematical content of an [`Effect`].
#[verifier::ext_equal]
pub enum EffectView {
    ResolveStop { thread_hint: Option<i64>, epoch: int },
    FetchScopes { frame_id: i64, epoch: int },
    FetchChildren { target: TargetView, var_ref: i64, epoch: int },
    Evaluate { expression: Seq<char>, frame_id: i64, epoch: int },
    EvalWatch { expression: Seq<char>, frame_id: i64, epoch: int },
    Drive { command: Seq<char>, thread_id: i64, epoch: int },
}

impl View for FetchTarget {
    type V = TargetView;

    open spec fn view(&self) -> TargetView {
        match *self {
            FetchTarget::Scope { path } => TargetView::Scope { path: path@ },
            FetchTarget::Watch { expression, subpath } => TargetView::Watch {
                expression: expression@,
                subpath: subpath@,
            },
            FetchTarget::Result { path } => TargetView::Result { path: path@ },
        }
    }
}

impl View for Effect {
    type V = EffectView;

    open spec fn view(&self) -> EffectView {
        match *self {
            Effect::ResolveStop { thread_hint, epoch } => EffectView::ResolveStop {
                thread_hint,
                epoch: epoch as int,
            },
            Effect::FetchScopes { frame_id, epoch } => EffectView::FetchScopes {
                frame_id,
                epoch: epoch as int,
            },
            Effect::FetchChildren { target, var_ref, epoch } => EffectView::FetchChildren {
                target: target@,
                var_ref,
                epoch: epoch as int,
            },
            Effect::Evaluate { expression, frame_id, epoch } => EffectView::Evaluate {
                expression: expression@,
                frame_id,
                epoch: epoch as int,
            },
            Effect::EvalWatch { expression, frame_id, epoch } => EffectView::EvalWatch {
                expression: expression@,
                frame_id,
                epoch: epoch as int,
            },
            Effect::Drive { command, thread_id, epoch } => EffectView::Drive {
                command: command@,
                thread_id,
                epoch: epoch as int,
            },
        }
    }
}

/// A state and the effects wanted on reaching it.
pub struct Step {
    pub model: ModelView,
    pub effects: Seq<EffectView>,
}

/// Reaching a state with nothing to be done.
pub open spec fn quiet(model: ModelView) -> Step {
    Step { model, effects: Seq::empty() }
}

/// The watch list with every state replaced and every expression kept.
pub open spec fn with_watch_states(watches: Seq<WatchView>, state: WatchStateView) -> Seq<
    WatchView,
> {
    Seq::new(watches.len(), |i: int| WatchView { expression: watches[i].expression, state })
}

/// Why an expression cannot be evaluated without a frame.
pub open spec fn unavailable_reason(state: SessionState) -> Seq<char> {
    "nothing to evaluate against ("@ + match state {
        SessionState::Running => "the program is running"@,
        SessionState::Ended => "the session has ended"@,
        SessionState::Stopped => "no frame is resolved at this stop"@,
        SessionState::Connecting => "not stopped yet"@,
    } + ")"@
}

/// Whether the text starts with a colon.
pub open spec fn is_command(line: Seq<char>) -> bool {
    line.len() > 0 && line[0] == ':'
}

/// The line without the colon it may start with.
pub open spec fn without_colon(line: Seq<char>) -> Seq<char> {
    if is_command(line) {
        line.drop_first()
    } else {
        line
    }
}

/// The row to move to from `selected`: the nearest selectable one in the given
/// direction. A cursor past the end of the rows has none above it.
pub open spec fn stepped_row(model: ModelView, forward: bool) -> int {
    let found = if forward {
        first_selectable(
            model.rows,
            if model.selected_row == usize::MAX {
                0
            } else {
                model.selected_row + 1
            },
        )
    } else {
        last_selectable(model.rows, model.selected_row)
    };
    match found {
        Some(row) => row,
        None => model.selected_row,
    }
}

impl ModelView {
    /// The state with a line added to the transcript.
    pub open spec fn recorded(self, entry: EntryView) -> ModelView {
        ModelView { transcript: self.transcript.push(entry), ..self }
    }

    /// The state with another status line.
    pub open spec fn reporting(self, status: Seq<char>) -> ModelView {
        ModelView { status, ..self }
    }

    /// One evaluation of every watch, against the given frame.
    pub open spec fn watch_evaluations(self, frame_id: i64) -> Seq<EffectView> {
        Seq::new(
            self.watches.len(),
            |i: int|
                EffectView::EvalWatch {
                    expression: self.watches[i].expression,
                    frame_id,
                    epoch: self.epoch,
                },
        )
    }

    /// Submitting one line of input, already known to be non-empty or a repeat.
    pub open spec fn line_submitted(self, line: Seq<char>) -> Step {
        if without_colon(line) == "help"@ || without_colon(line) == "?"@ {
            quiet(self.recorded(EntryView::Help))
        } else if is_command(line) {
            quiet(self.recorded(EntryView::Unrecognized { input: line }))
        } else {
            let remembered = ModelView { last_expression: Some(line), ..self };
            match self.frame_id {
                Some(frame_id) => Step {
                    model: remembered,
                    effects: seq![
                        EffectView::Evaluate { expression: line, frame_id, epoch: self.epoch },
                    ],
                },
                None => quiet(
                    remembered.recorded(
                        EntryView::Unavailable { reason: unavailable_reason(self.state) },
                    ),
                ),
            }
        }
    }

    /// Submitting the input line. An empty one repeats the last expression.
    pub open spec fn input_submitted(self) -> Step {
        let cleared = ModelView { input: Seq::empty(), ..self };
        let line = trimmed(self.input);
        if line.len() > 0 {
            cleared.line_submitted(line)
        } else {
            match self.last_expression {
                Some(previous) => cleared.line_submitted(previous),
                None => quiet(cleared),
            }
        }
    }

    /// The frame that a move through the stack leads to, if there is one.
    pub open spec fn neighbour_frame(self, toward_caller: bool) -> Option<int> {
        if toward_caller && self.selected_frame + 1 < self.stack.len() {
            Some(self.selected_frame + 1)
        } else if !toward_caller && self.stack.len() > 0 && self.selected_frame > 0 {
            Some(self.selected_frame - 1)
        } else {
            None
        }
    }

    /// Showing another frame: a new generation whose scopes and watches are to be
    /// fetched anew.
    pub open spec fn frame_shown(self, index: int) -> Step {
        let frame_id = if index < self.stack.len() {
            Some(self.stack[index].id)
        } else {
            None
        };
        let model = ModelView {
            selected_frame: index,
            epoch: self.epoch + 1,
            selected_row: 0,
            frame_id,
            roots: Seq::empty(),
            watches: with_watch_states(self.watches, WatchStateView::Pending),
            status: "frame #"@ + decimal(index as nat),
            ..self
        };
        match frame_id {
            Some(frame_id) => Step {
                model,
                effects: seq![EffectView::FetchScopes { frame_id, epoch: model.epoch }]
                    + model.watch_evaluations(frame_id),
            },
            None => quiet(model),
        }
    }

    /// Moving the shared selection through the stack.
    pub open spec fn frame_moved(self, toward_caller: bool) -> Step {
        match self.neighbour_frame(toward_caller) {
            Some(index) => self.frame_shown(index),
            None => quiet(
                self.reporting(
                    if self.stack.len() == 0 {
                        "not stopped at a frame"@
                    } else if toward_caller {
                        "already at the outermost frame"@
                    } else {
                        "already at the innermost frame"@
                    },
                ),
            ),
        }
    }

    /// Asking for a run-control command that needs a stopped program.
    pub open spec fn driven(self, command: Seq<char>) -> Step {
        if self.state != SessionState::Stopped {
            quiet(self.reporting("can't "@ + command + " unless stopped"@))
        } else {
            match self.thread_id {
                Some(thread_id) => Step {
                    model: self,
                    effects: seq![EffectView::Drive { command, thread_id, epoch: self.epoch }],
                },
                None => quiet(self.reporting("can't "@ + command + ": no thread"@)),
            }
        }
    }

    /// Asking to pause a running program.
    pub open spec fn paused(self) -> Step {
        if self.state != SessionState::Running {
            quiet(self.reporting("can't pause unless running"@))
        } else {
            match self.thread_id {
                Some(thread_id) => Step {
                    model: self,
                    effects: seq![
                        EffectView::Drive { command: "pause"@, thread_id, epoch: self.epoch },
                    ],
                },
                None => quiet(self.reporting("can't pause: no thread"@)),
            }
        }
    }

    /// The stable address of the node behind a row.
    pub open spec fn fetch_target(self, tree: Tree, path: Seq<usize>) -> TargetView {
        match tree {
            Tree::Scope => TargetView::Scope { path },
            Tree::Watch => TargetView::Watch {
                expression: self.watches[path[0] as int].expression,
                subpath: path.drop_first(),
            },
            Tree::Result => TargetView::Result { path },
        }
    }

    /// Expanding or collapsing the node behind the selected row. The children are
    /// asked for when they are first shown.
    pub open spec fn expanded(self, want: ExpandWant) -> Step {
        if !(self.selected_row < self.rows.len() && self.rows[self.selected_row].expandable) {
            quiet(self)
        } else {
            let row = self.rows[self.selected_row];
            match self.node_at(row.tree, row.path) {
                Some(node) => {
                    let show = match want {
                        ExpandWant::Expand => true,
                        ExpandWant::Collapse => false,
                        ExpandWant::Toggle => !node.expanded,
                    };
                    Step {
                        model: self.with_node_at(
                            row.tree,
                            row.path,
                            NodeView { expanded: show, ..node },
                        ),
                        effects: if show && node.children is None {
                            seq![
                                EffectView::FetchChildren {
                                    target: self.fetch_target(row.tree, row.path),
                                    var_ref: node.var_ref,
                                    epoch: self.epoch,
                                },
                            ]
                        } else {
                            Seq::empty()
                        },
                    }
                },
                None => quiet(self),
            }
        }
    }

    /// The state without one of its watches.
    pub open spec fn unpinned(self, index: int) -> ModelView {
        ModelView { watches: self.watches.remove(index), ..self }
    }

    /// Pinning an expression that is not watched yet. While a frame is live it is
    /// evaluated at once.
    pub open spec fn pinned(self, expression: Seq<char>) -> Step {
        let model = ModelView {
            watches: self.watches.push(WatchView { expression, state: WatchStateView::Pending }),
            ..self
        };
        if self.state == SessionState::Stopped && self.frame_id is Some {
            Step {
                model,
                effects: seq![
                    EffectView::EvalWatch {
                        expression,
                        frame_id: self.frame_id->0,
                        epoch: self.epoch,
                    },
                ],
            }
        } else {
            quiet(model)
        }
    }

    /// Pinning or unpinning the selected row. On a watch root, unpin it. On any
    /// other row that has an evaluate name, pin or unpin that name.
    pub open spec fn watch_toggled(self) -> Step {
        if !(self.selected_row < self.rows.len()) {
            quiet(self)
        } else {
            let row = self.rows[self.selected_row];
            if row.tree == Tree::Watch && row.path.len() == 1 {
                if row.path[0] < self.watches.len() {
                    quiet(self.unpinned(row.path[0] as int))
                } else {
                    quiet(self)
                }
            } else if row.eval_name.len() == 0 {
                quiet(self)
            } else {
                match watch_position(self.watches, row.eval_name, 0) {
                    Some(index) => quiet(self.unpinned(index)),
                    None => self.pinned(row.eval_name),
                }
            }
        }
    }
}

/// What an action does, before the rows are rebuilt.
pub open spec fn action_step(model: ModelView, action: Action) -> Step {
    match action {
        Action::Quit => quiet(ModelView { should_quit: true, ..model }),
        Action::ToggleHelp => quiet(ModelView { show_help: !model.show_help, ..model }),
        Action::EnterInsert => quiet(ModelView { mode: InputMode::Insert, ..model }),
        Action::InputChar(c) => quiet(ModelView { input: model.input.push(c), ..model }),
        Action::InputBackspace => quiet(
            ModelView {
                input: if model.input.len() > 0 {
                    model.input.drop_last()
                } else {
                    model.input
                },
                ..model
            },
        ),
        Action::InputCancel => quiet(
            ModelView { input: Seq::empty(), mode: InputMode::Normal, ..model },
        ),
        Action::InputSubmit => model.input_submitted(),
        Action::RowDown => quiet(ModelView { selected_row: stepped_row(model, true), ..model }),
        Action::RowUp => quiet(ModelView { selected_row: stepped_row(model, false), ..model }),
        Action::RowFirst => quiet(
            ModelView {
                selected_row: match first_selectable(model.rows, 0) {
                    Some(row) => row,
                    None => model.selected_row,
                },
                ..model
            },
        ),
        Action::RowLast => quiet(
            ModelView {
                selected_row: match last_selectable(model.rows, model.rows.len() as int) {
                    Some(row) => row,
                    None => model.selected_row,
                },
                ..model
            },
        ),
        Action::Expand => model.expanded(ExpandWant::Expand),
        Action::Collapse => model.expanded(ExpandWant::Collapse),
        Action::ToggleExpand => model.expanded(ExpandWant::Toggle),
        Action::ToggleWatch => model.watch_toggled(),
        Action::SelectCallerFrame => model.frame_moved(true),
        Action::SelectCalleeFrame => model.frame_moved(false),
        Action::Continue => model.driven("continue"@),
        Action::StepOver => model.driven("next"@),
        Action::StepInto => model.driven("stepIn"@),
        Action::StepOut => model.driven("stepOut"@),
        Action::Pause => model.paused(),
    }
}

/// The stop reason an event carries.
pub open spec fn stop_reason(body: Option<StoppedBody>) -> Seq<char> {
    match body {
        Some(body) => body.reason@,
        None => Seq::empty(),
    }
}

/// The stopped thread an event names.
pub open spec fn stop_thread(body: Option<StoppedBody>) -> Option<i64> {
    match body {
        Some(body) => body.thread_id,
        None => None,
    }
}

/// What an event does, before the rows are rebuilt. A stop re-roots the view in a
/// new generation. A resume starts a new generation too, which discards whatever
/// is still in flight for the old stop, and drops the frames. The end of the
/// session drops the run-control targets.
pub open spec fn event_step(model: ModelView, msg: EventMessage) -> Step {
    if msg.event@ == "stopped"@ {
        Step {
            model: ModelView {
                epoch: model.epoch + 1,
                stop_count: model.stop_count + 1,
                state: SessionState::Stopped,
                stack: Seq::empty(),
                roots: Seq::empty(),
                frame_id: None,
                selected_frame: 0,
                selected_row: 0,
                stop_reason: stop_reason(msg.body),
                watches: with_watch_states(model.watches, WatchStateView::Pending),
                status: "stopped — resolving frame…"@,
                ..model
            },
            effects: seq![
                EffectView::ResolveStop {
                    thread_hint: stop_thread(msg.body),
                    epoch: model.epoch + 1,
                },
            ],
        }
    } else if msg.event@ == "continued"@ {
        quiet(
            ModelView {
                epoch: model.epoch + 1,
                state: SessionState::Running,
                stack: Seq::empty(),
                selected_frame: 0,
                frame_id: None,
                status: "running — variables stale"@,
                ..model
            },
        )
    } else if msg.event@ == "terminated"@ || msg.event@ == "exited"@ {
        quiet(
            ModelView {
                state: SessionState::Ended,
                thread_id: None,
                stack: Seq::empty(),
                frame_id: None,
                status: "session ended"@,
                ..model
            },
        )
    } else {
        quiet(model)
    }
}

/// Whether an update is about the live frame view rather than about the history.
/// A failed resolve or fetch is about the view it was issued for.
pub open spec fn is_live_view(kind: UpdateKind) -> bool {
    kind is Stopped || kind is Scopes || kind is Children || kind is Watch || kind is Failed
}

/// Whether an update is for a generation of the frame view that has passed.
pub open spec fn is_superseded(model: ModelView, update: Update) -> bool {
    is_live_view(update.kind) && update.epoch != model.epoch
}

/// The node a fetched list of children belongs to.
pub open spec fn target_node(model: ModelView, target: TargetView) -> Option<NodeView> {
    match target {
        TargetView::Scope { path } => model.node_at(Tree::Scope, path),
        TargetView::Watch { expression, subpath } => model.watched_node(expression, subpath),
        TargetView::Result { path } => model.node_at(Tree::Result, path),
    }
}

/// The state with that node replaced.
pub open spec fn with_target_node(
    model: ModelView,
    target: TargetView,
    new: NodeView,
) -> ModelView {
    match target {
        TargetView::Scope { path } => model.with_node_at(Tree::Scope, path, new),
        TargetView::Watch { expression, subpath } => model.with_watched_node(
            expression,
            subpath,
            new,
        ),
        TargetView::Result { path } => model.with_node_at(Tree::Result, path, new),
    }
}

/// What an update that is not superseded does, before the rows are rebuilt.
pub open spec fn update_step(model: ModelView, kind: UpdateKind) -> Step {
    match kind {
        UpdateKind::Stopped { thread_id, stack, frame_id, roots } => {
            let resolved = ModelView {
                thread_id,
                stack: stack@,
                selected_frame: 0,
                frame_id,
                roots: views(roots@),
                ..model
            };
            match frame_id {
                Some(frame_id) => {
                    let pending = ModelView {
                        status: "stopped"@,
                        watches: with_watch_states(model.watches, WatchStateView::Pending),
                        ..resolved
                    };
                    Step { model: pending, effects: pending.watch_evaluations(frame_id) }
                },
                None => quiet(
                    ModelView {
                        status: "stopped — no frames (idle)"@,
                        watches: with_watch_states(model.watches, WatchStateView::Unavailable),
                        ..resolved
                    },
                ),
            }
        },
        UpdateKind::Scopes { roots } => quiet(
            ModelView { roots: views(roots@), status: "stopped"@, ..model },
        ),
        UpdateKind::Children { target, children } => match target_node(model, target@) {
            Some(node) => quiet(
                with_target_node(
                    model,
                    target@,
                    NodeView { children: Some(views(children@)), ..node },
                ),
            ),
            None => quiet(model),
        },
        UpdateKind::Watch { expression, node } => match watch_position(
            model.watches,
            expression@,
            0,
        ) {
            Some(index) => quiet(
                ModelView {
                    watches: model.watches.update(
                        index,
                        WatchView {
                            expression: model.watches[index].expression,
                            state: match node {
                                Some(node) => WatchStateView::Resolved(node@),
                                None => WatchStateView::Unavailable,
                            },
                        },
                    ),
                    ..model
                },
            ),
            None => quiet(model),
        },
        UpdateKind::Evaluated { result } => quiet(
            model.recorded(
                match result {
                    Ok(node) => EntryView::Evaluated { node: node@ },
                    Err(message) => EntryView::Error { message: message@ },
                },
            ),
        ),
        UpdateKind::DriveFailed { message } => quiet(
            model.recorded(EntryView::Error { message: message@ }),
        ),
        UpdateKind::Failed { message } => quiet(model.reporting("error: "@ + message@)),
    }
}

/// Something that the model is confronted with.
pub enum Happening {
    Action(Action),
    Event(EventMessage),
    Update(Update),
}

/// What a happening leads to.
pub open spec fn interpreted(model: ModelView, happening: Happening) -> Step {
    match happening {
        Happening::Action(action) => Step {
            model: action_step(model, action).model.refreshed(),
            effects: action_step(model, action).effects,
        },
        Happening::Event(msg) => Step {
            model: event_step(model, msg).model.refreshed(),
            effects: event_step(model, msg).effects,
        },
        Happening::Update(update) => if is_superseded(model, update) {
            quiet(model)
        } else {
            Step {
                model: update_step(model, update.kind).model.refreshed(),
                effects: update_step(model, update.kind).effects,
            }
        },
    }
}

/// Sets the state of every watch.
fn mark_watches(watches: &mut Vec<Watch>, pending: bool)
    ensures
        views(final(watches)@) == with_watch_states(
            views(old(watches)@),
            if pending {
                WatchStateView::Pending
            } else {
                WatchStateView::Unavailable
            },
        ),
{
    let ghost state = if pending {
        WatchStateView::Pending
    } else {
        WatchStateView::Unavailable
    };
    let mut i: usize = 0;
    while i < watches.len()
        invariant
            i <= watches@.len(),
            watches@.len() == old(watches)@.len(),
            state == if pending {
                WatchStateView::Pending
            } else {
                WatchStateView::Unavailable
            },
            forall|j: int|
                0 <= j < i ==> (#[trigger] watches@[j])@ == (WatchView {
                    expression: old(watches)@[j]@.expression,
                    state,
                }),
            forall|j: int| i <= j < watches@.len() ==> watches@[j] == old(watches)@[j],
        decreases watches@.len() - i,
    {
        watches[i].state = if pending {
            WatchState::Pending
        } else {
            WatchState::Unavailable
        };
        i = i + 1;
    }
    assert(views(watches@) =~= with_watch_states(views(old(watches)@), state));
}

/// Why an expression cannot be evaluated without a frame.
pub fn evaluation_unavailable_reason(state: SessionState) -> (reason: String)
    ensures
        reason@ == unavailable_reason(state),
{
    let why: &str = match state {
        SessionState::Running => "the program is running",
        SessionState::Ended => "the session has ended",
        SessionState::Stopped => "no frame is resolved at this stop",
        SessionState::Connecting => "not stopped yet",
    };
    join3("nothing to evaluate against (", why, ")")
}

/// Re-evaluate every watch against the given frame.
fn watch_effects(model: &DebuggerModel, frame_id: i64) -> (effects: Vec<Effect>)
    ensures
        views(effects@) == model@.watch_evaluations(frame_id),
{
    let mut effects: Vec<Effect> = Vec::new();
    let mut i: usize = 0;
    while i < model.watches.len()
        invariant
            i <= model.watches@.len(),
            effects@.len() == i,
            forall|j: int|
                0 <= j < i ==> (#[trigger] effects@[j])@ == model@.watch_evaluations(frame_id)[j],
        decreases model.watches@.len() - i,
    {
        effects.push(
            Effect::EvalWatch {
                expression: model.watches[i].expression.clone(),
                frame_id,
                epoch: model.epoch,
            },
        );
        i = i + 1;
    }
    assert(views(effects@) =~= model@.watch_evaluations(frame_id));
    effects
}

/// Interprets the input line as a command or an expression.
pub fn submit_input(model: &mut DebuggerModel) -> (effects: Vec<Effect>)
    ensures
        final(model)@ == old(model)@.input_submitted().model,
        views(effects@) == old(model)@.input_submitted().effects,
{
    broadcast use group_views;

    let raw: String = trim(model.input.as_str()).to_owned();
    model.input = String::new();

    // An empty line repeats the last expression, so pressing enter re-runs it.
    let line: String = if raw.as_str().is_empty() {
        match &model.last_expression {
            Some(previous) => previous.clone(),
            None => {
                return vec![];
            },
        }
    } else {
        raw
    };

    let colon: Option<&str> = strip_char(line.as_str(), ':');
    let command: &str = match colon {
        Some(rest) => rest,
        None => line.as_str(),
    };
    if same_text(command, "help") || same_text(command, "?") {
        model.push_transcript(TranscriptEntry::Help);
        return vec![];
    }
    if colon.is_some() {
        model.push_transcript(TranscriptEntry::Unrecognized { input: line });
        return vec![];
    }
    model.last_expression = Some(line.clone());
    match model.frame_id {
        Some(frame_id) => {
            let effects: Vec<Effect> = vec![
                Effect::Evaluate { expression: line, frame_id, epoch: model.epoch },
            ];
            assert(views(effects@) =~= old(model)@.input_submitted().effects);
            effects
        },
        None => {
            let reason: String = evaluation_unavailable_reason(model.state);
            model.push_transcript(TranscriptEntry::Unavailable { reason });
            vec![]
        },
    }
}

/// Reset the frame view to the newly selected frame and fetch its scopes. Bumping
/// the generation discards any fetch still in flight for the previous frame.
fn on_frame_changed(model: &mut DebuggerModel) -> (effects: Vec<Effect>)
    requires
        old(model).epoch < u64::MAX,
    ensures
        final(model)@ == old(model)@.frame_shown(old(model)@.selected_frame).model,
        views(effects@) == old(model)@.frame_shown(old(model)@.selected_frame).effects,
{
    broadcast use group_views;

    model.epoch = model.epoch + 1;
    model.selected_row = 0;
    model.frame_id = match model.selected_stack_frame() {
        Some(frame) => Some(frame.id),
        None => None,
    };
    model.roots = Vec::new();
    mark_watches(&mut model.watches, true);
    let mut status: String = "frame #".to_owned();
    push_decimal(&mut status, model.selected_frame as u64);
    model.status = status;

    match model.frame_id {
        Some(frame_id) => {
            let mut effects: Vec<Effect> = vec![
                Effect::FetchScopes { frame_id, epoch: model.epoch },
            ];
            assert(views(effects@) =~= seq![
                EffectView::FetchScopes { frame_id, epoch: model.epoch as int },
            ]);
            let mut more: Vec<Effect> = watch_effects(model, frame_id);
            effects.append(&mut more);
            effects
        },
        None => vec![],
    }
}

/// Move the shared selection through the stack. With no stack at all the program
/// is not stopped at a frame, which is a different thing from sitting at an edge
/// of the stack and reads as such.
fn select_frame(model: &mut DebuggerModel, toward_caller: bool) -> (effects: Vec<Effect>)
    requires
        old(model)@.neighbour_frame(toward_caller) is Some ==> old(model).epoch < u64::MAX,
    ensures
        final(model)@ == old(model)@.frame_moved(toward_caller).model,
        views(effects@) == old(model)@.frame_moved(toward_caller).effects,
{
    broadcast use group_views;

    if model.stack.is_empty() {
        model.status = "not stopped at a frame".to_owned();
        return vec![];
    }
    let moved: bool = if toward_caller {
        model.select_caller_frame()
    } else {
        model.select_callee_frame()
    };
    if moved {
        return on_frame_changed(model);
    }
    model.status =
    if toward_caller {
        "already at the outermost frame".to_owned()
    } else {
        "already at the innermost frame".to_owned()
    };
    vec![]
}

/// Asks for a run-control command that needs a stopped program.
fn drive_action(model: &mut DebuggerModel, command: &'static str) -> (effects: Vec<Effect>)
    ensures
        final(model)@ == old(model)@.driven(command@).model,
        views(effects@) == old(model)@.driven(command@).effects,
{
    broadcast use group_views;

    if model.state != SessionState::Stopped {
        model.status = join3("can't ", command, " unless stopped");
        return vec![];
    }
    match model.thread_id {
        Some(thread_id) => {
            let effects: Vec<Effect> = vec![
                Effect::Drive { command, thread_id, epoch: model.epoch },
            ];
            assert(views(effects@) =~= old(model)@.driven(command@).effects);
            effects
        },
        None => {
            model.status = join3("can't ", command, ": no thread");
            vec![]
        },
    }
}

/// Asks to pause a running program.
fn pause_action(model: &mut DebuggerModel) -> (effects: Vec<Effect>)
    ensures
        final(model)@ == old(model)@.paused().model,
        views(effects@) == old(model)@.paused().effects,
{
    broadcast use group_views;

    if model.state != SessionState::Running {
        model.status = "can't pause unless running".to_owned();
        return vec![];
    }
    match model.thread_id {
        Some(thread_id) => {
            let effects: Vec<Effect> = vec![
                Effect::Drive { command: "pause", thread_id, epoch: model.epoch },
            ];
            assert(views(effects@) =~= old(model)@.paused().effects);
            effects
        },
        None => {
            model.status = "can't pause: no thread".to_owned();
            vec![]
        },
    }
}

/// Moves the cursor to the nearest selectable row in one direction.
fn step_row(model: &mut DebuggerModel, forward: bool)
    ensures
        final(model)@ == (ModelView {
            selected_row: stepped_row(old(model)@, forward),
            ..old(model)@
        }),
{
    let found: Option<usize> = if forward {
        find_selectable(&model.rows, model.selected_row.wrapping_add(1))
    } else if model.selected_row <= model.rows.len() {
        rfind_selectable(&model.rows, model.selected_row)
    } else {
        None
    };
    if let Some(row) = found {
        model.selected_row = row;
    }
}

/// Expand or collapse the selected node, triggering a lazy child fetch on first
/// expand. Non-expandable rows issue no request.
fn set_expanded(model: &mut DebuggerModel, want: ExpandWant) -> (effects: Vec<Effect>)
    ensures
        final(model)@ == old(model)@.expanded(want).model,
        views(effects@) == old(model)@.expanded(want).effects,
{
    broadcast use {group_views, lemma_node_view_children};

    if model.selected_row >= model.rows.len() || !model.rows[model.selected_row].expandable {
        return vec![];
    }
    let tree: Tree = model.rows[model.selected_row].tree;
    let path: Vec<usize> = model.rows[model.selected_row].path.clone();
    assert(path@ =~= model@.rows[model@.selected_row].path);

    let node: Option<&mut VarNode> = match tree {
        Tree::Scope => model.scope_node_mut(path.as_slice()),
        Tree::Watch => model.watch_node_mut(path.as_slice()),
        Tree::Result => model.result_node_mut(path.as_slice()),
    };
    let mut fetch_ref: Option<i64> = None;
    if let Some(node) = node {
        let expanded: bool = match want {
            ExpandWant::Expand => true,
            ExpandWant::Collapse => false,
            ExpandWant::Toggle => !node.expanded,
        };
        let ghost before = (*node)@;
        node.expanded = expanded;
        assert((*node)@ == (NodeView { expanded, ..before }));
        if expanded && node.children.is_none() {
            fetch_ref = Some(node.var_ref);
        }
    }
    assert(model@ == old(model)@.expanded(want).model);
    let var_ref: i64 = match fetch_ref {
        Some(var_ref) => var_ref,
        None => {
            return vec![];
        },
    };
    let target: FetchTarget = match tree {
        Tree::Scope => FetchTarget::Scope { path },
        Tree::Watch => {
            assert(old(model)@.watch_root(path@[0] as int) is Some);
            assert(views(model.watches@).len() == old(model)@.watches.len());
            assert(model@.watches[path@[0] as int].expression
                == old(model)@.watches[path@[0] as int].expression);
            let expression: String = model.watches[path[0]].expression.clone();
            assert(expression@ == model@.watches[path@[0] as int].expression);
            let mut subpath: Vec<usize> = path;
            subpath.remove(0);
            assert(subpath@ =~= path@.drop_first());
            FetchTarget::Watch { expression, subpath }
        },
        Tree::Result => FetchTarget::Result { path },
    };
    let effects: Vec<Effect> = vec![
        Effect::FetchChildren { target, var_ref, epoch: model.epoch },
    ];
    assert(views(effects@) =~= old(model)@.expanded(want).effects);
    effects
}

/// Pin or unpin the selected node as a watch. On a watch root, unpin it. On any
/// other node, a scope variable, an evaluation result, or a node inside a watch,
/// pin or unpin it by its own evaluate name, so pressing the key deep in a
/// subtree adds that descendant rather than removing the whole root.
pub fn toggle_watch(model: &mut DebuggerModel) -> (effects: Vec<Effect>)
    ensures
        final(model)@ == old(model)@.watch_toggled().model,
        views(effects@) == old(model)@.watch_toggled().effects,
{
    broadcast use group_views;

    if model.selected_row >= model.rows.len() {
        return vec![];
    }
    let row: &Row = &model.rows[model.selected_row];
    if row.tree == Tree::Watch && row.path.len() == 1 {
        let index: usize = row.path[0];
        if index < model.watches.len() {
            let unpinned: Watch = model.watches.remove(index);
        }
        return vec![];
    }
    let expression: String = row.eval_name.clone();
    if expression.as_str().is_empty() {
        return vec![];
    }
    if let Some(position) = find_watch(&model.watches, expression.as_str()) {
        let unpinned: Watch = model.watches.remove(position);
        return vec![];
    }
    model.watches.push(Watch { expression: expression.clone(), state: WatchState::Pending });
    // Pinned while stopped: evaluate immediately against the live frame.
    if model.state == SessionState::Stopped {
        if let Some(frame_id) = model.frame_id {
            let effects: Vec<Effect> = vec![
                Effect::EvalWatch { expression, frame_id, epoch: model.epoch },
            ];
            assert(views(effects@) =~= old(model)@.watch_toggled().effects);
            return effects;
        }
    }
    vec![]
}

/// Interpret one input action against the model. The cached rows are refreshed
/// once at the end, so the render that follows reuses this build.
pub fn apply_action(model: &mut DebuggerModel, action: Action) -> (effects: Vec<Effect>)
    requires
        action is SelectCallerFrame && old(model)@.neighbour_frame(true) is Some ==> old(model).epoch
            < u64::MAX,
        action is SelectCalleeFrame && old(model)@.neighbour_frame(false) is Some ==> old(
            model,
        ).epoch < u64::MAX,
    ensures
        final(model)@ == interpreted(old(model)@, Happening::Action(action)).model,
        views(effects@) == interpreted(old(model)@, Happening::Action(action)).effects,
{
    broadcast use group_views;

    let effects: Vec<Effect> = match action {
        Action::Quit => {
            model.should_quit = true;
            vec![]
        },
        Action::ToggleHelp => {
            model.show_help = !model.show_help;
            vec![]
        },
        Action::EnterInsert => {
            model.mode = InputMode::Insert;
            vec![]
        },
        Action::InputChar(c) => {
            model.input.push(c);
            vec![]
        },
        Action::InputBackspace => {
            let erased: Option<char> = model.input.pop();
            vec![]
        },
        Action::InputCancel => {
            model.input = String::new();
            model.mode = InputMode::Normal;
            vec![]
        },
        Action::InputSubmit => submit_input(model),
        Action::RowDown => {
            step_row(model, true);
            vec![]
        },
        Action::RowUp => {
            step_row(model, false);
            vec![]
        },
        Action::RowFirst => {
            if let Some(row) = find_selectable(&model.rows, 0) {
                model.selected_row = row;
            }
            vec![]
        },
        Action::RowLast => {
            if let Some(row) = rfind_selectable(&model.rows, model.rows.len()) {
                model.selected_row = row;
            }
            vec![]
        },
        Action::Expand => set_expanded(model, ExpandWant::Expand),
        Action::Collapse => set_expanded(model, ExpandWant::Collapse),
        Action::ToggleExpand => set_expanded(model, ExpandWant::Toggle),
        Action::ToggleWatch => toggle_watch(model),
        Action::SelectCallerFrame => select_frame(model, true),
        Action::SelectCalleeFrame => select_frame(model, false),
        Action::Continue => drive_action(model, "continue"),
        Action::StepOver => drive_action(model, "next"),
        Action::StepInto => drive_action(model, "stepIn"),
        Action::StepOut => drive_action(model, "stepOut"),
        Action::Pause => pause_action(model),
    };
    model.rebuild_rows();
    effects
}

/// Interpret one adapter event, updating session and frame state. The cached rows
/// are refreshed once at the end, so the render that follows reuses this build.
pub fn apply_event(model: &mut DebuggerModel, msg: EventMessage) -> (effects: Vec<Effect>)
    requires
        msg.event@ == "stopped"@ || msg.event@ == "continued"@ ==> old(model).epoch < u64::MAX,
        msg.event@ == "stopped"@ ==> old(model).stop_count < u64::MAX,
    ensures
        final(model)@ == interpreted(old(model)@, Happening::Event(msg)).model,
        views(effects@) == interpreted(old(model)@, Happening::Event(msg)).effects,
{
    broadcast use group_views;

    let effects: Vec<Effect> = if same_text(msg.event.as_str(), "stopped") {
        let body: StoppedBody = match msg.body {
            Some(body) => body,
            None => StoppedBody::default(),
        };
        // Re-root: new generation, drop the old frame, rebuild from this stop.
        model.epoch = model.epoch + 1;
        model.stop_count = model.stop_count + 1;
        model.state = SessionState::Stopped;
        model.stack = Vec::new();
        model.roots = Vec::new();
        model.frame_id = None;
        model.selected_frame = 0;
        model.selected_row = 0;
        model.stop_reason = body.reason;
        // Watches survive re-rooting, but their last values are stale until the
        // new frame resolves and they are re-evaluated against it.
        mark_watches(&mut model.watches, true);
        model.status = "stopped — resolving frame…".to_owned();
        let effects: Vec<Effect> = vec![
            Effect::ResolveStop { thread_hint: body.thread_id, epoch: model.epoch },
        ];
        assert(views(effects@) =~= event_step(old(model)@, msg).effects);
        effects
    } else if same_text(msg.event.as_str(), "continued") {
        // The last stop's frame references are now invalid, so any resolve or
        // fetch still in flight from that stop must be discarded. Bumping the
        // generation does that. The old tree stays on screen, drawn stale, until
        // the next stop re-roots it.
        model.epoch = model.epoch + 1;
        model.state = SessionState::Running;
        // A thread keeps its identity across a resume, so pausing still has a
        // target. Frame references do not, so the stack is dropped and evaluation
        // is refused until the next stop.
        model.stack = Vec::new();
        model.selected_frame = 0;
        model.frame_id = None;
        model.status = "running — variables stale".to_owned();
        vec![]
    } else if same_text(msg.event.as_str(), "terminated") || same_text(
        msg.event.as_str(),
        "exited",
    ) {
        model.state = SessionState::Ended;
        model.thread_id = None;
        model.stack = Vec::new();
        model.frame_id = None;
        model.status = "session ended".to_owned();
        vec![]
    } else {
        vec![]
    };
    model.rebuild_rows();
    effects
}

/// Apply the result of an effect, discarding anything tagged with a superseded
/// generation of the frame view. A discarded reply changes nothing, so only the
/// paths that mutate fall through to rebuild the cached rows.
#[verifier::rlimit(40)]
pub fn apply_update(model: &mut DebuggerModel, update: Update) -> (effects: Vec<Effect>)
    ensures
        final(model)@ == interpreted(old(model)@, Happening::Update(update)).model,
        views(effects@) == interpreted(old(model)@, Happening::Update(update)).effects,
{
    broadcast use {group_views, lemma_node_view_children};

    let effects: Vec<Effect> = match update.kind {
        UpdateKind::Stopped { thread_id, stack, frame_id, roots } => {
            if update.epoch != model.epoch {
                return vec![];
            }
            model.thread_id = thread_id;
            model.stack = stack;
            model.selected_frame = 0;
            model.frame_id = frame_id;
            model.roots = roots;
            match frame_id {
                Some(frame_id) => {
                    model.status = "stopped".to_owned();
                    mark_watches(&mut model.watches, true);
                    watch_effects(model, frame_id)
                },
                None => {
                    model.status = "stopped — no frames (idle)".to_owned();
                    // No frame to evaluate against, so watches can never resolve
                    // this stop. Flip them to unavailable rather than spinning.
                    mark_watches(&mut model.watches, false);
                    vec![]
                },
            }
        },
        UpdateKind::Scopes { roots } => {
            if update.epoch != model.epoch {
                return vec![];
            }
            model.roots = roots;
            model.status = "stopped".to_owned();
            vec![]
        },
        UpdateKind::Children { target, children } => {
            if update.epoch != model.epoch {
                return vec![];
            }
            let ghost fetched = views(children@);
            let node: Option<&mut VarNode> = match &target {
                FetchTarget::Scope { path } => model.scope_node_mut(path.as_slice()),
                FetchTarget::Watch {
                    expression,
                    subpath,
                } => model.watch_node_mut_by_expression(expression.as_str(), subpath.as_slice()),
                FetchTarget::Result { path } => model.result_node_mut(path.as_slice()),
            };
            if let Some(node) = node {
                let ghost before = (*node)@;
                node.children = Some(children);
                assert((*node)@ == (NodeView { children: Some(fetched), ..before }));
            }
            assert(model@ == update_step(old(model)@, update.kind).model);
            vec![]
        },
        UpdateKind::Watch { expression, node } => {
            if update.epoch != model.epoch {
                return vec![];
            }
            if let Some(index) = find_watch(&model.watches, expression.as_str()) {
                model.watches[index].state = match node {
                    Some(node) => WatchState::Resolved(node),
                    None => WatchState::Unavailable,
                };
            }
            vec![]
        },
        // An evaluation result is history, not part of the live frame view, so it
        // is recorded regardless of generation.
        UpdateKind::Evaluated { result } => {
            match result {
                Ok(node) => model.push_transcript(TranscriptEntry::Evaluated { node }),
                Err(message) => model.push_transcript(TranscriptEntry::Error { message }),
            }
            vec![]
        },
        UpdateKind::DriveFailed { message } => {
            model.push_transcript(TranscriptEntry::Error { message });
            vec![]
        },
        UpdateKind::Failed { message } => {
            if update.epoch != model.epoch {
                return vec![];
            }
            model.status = join2("error: ", message.as_str());
            vec![]
        },
    };
    model.rebuild_rows();
    effects
}

} // verus!
