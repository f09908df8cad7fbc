//! The debugger model: the whole application state the interface draws from.
//!
//! This module carries no terminal-UI types. Input actions and adapter events
//! mutate the model, rendering reads it, and the model can be exercised without
//! a terminal.

use crate::node::{
    descend, forest_node, lemma_node_view_children, with_forest_node, NodeView, VarNode,
};
use crate::text::{join2, join3, same_text};
use crate::types::{SessionState, StackFrame};
use crate::views::{group_views, views};
use vstd::prelude::*;

verus! {

/// The whole state of the debugger.
///
/// The selected frame is the cursor of debugging. It is a single field, which the
/// stack view, the variables view, and evaluation all read, so they can never
/// disagree about which frame is current.
pub struct DebuggerModel {
    pub state: SessionState,
    pub thread_id: Option<i64>,
    pub stack: Vec<StackFrame>,
    /// Index into `stack` of the one selected frame shared across the interface.
    pub selected_frame: usize,
    /// The selected frame's id, the target for evaluation. Cleared when no frame
    /// is resolved, so evaluation while running is refused rather than aimed at a
    /// dead frame.
    pub frame_id: Option<i64>,
    pub stop_reason: String,
    pub stop_count: u64,
    /// Generation of the current frame view. It advances on every stop, resume,
    /// and frame selection change. Replies tagged with a superseded generation
    /// are discarded, so a fetch in flight for an old frame never lands on the
    /// new one.
    pub epoch: u64,
    /// Scopes of the selected frame.
    pub roots: Vec<VarNode>,
    /// Durable watch list. The expressions survive re-rooting. Each state is
    /// ephemeral and re-evaluated against the selected frame.
    pub watches: Vec<Watch>,
    /// Evaluation results and messages, append-only so result indices stay stable
    /// for children replies that arrive later.
    pub transcript: Vec<TranscriptEntry>,
    /// The last evaluated expression, so an empty input line repeats it.
    pub last_expression: Option<String>,
    pub status: String,
    pub should_quit: bool,
    /// Cursor among the flattened variable, watch, and result rows.
    pub selected_row: usize,
    /// The flattened rows the panes draw, rebuilt from the state above whenever
    /// it changes.
    pub rows: Vec<Row>,
    pub input: String,
    pub mode: InputMode,
    pub show_help: bool,
}

/// Whether typed characters edit the expression line or act as commands.
#[derive(Clone, Copy, Debug, PartialEq, Eq, Structural)]
pub enum InputMode {
    Normal,
    Insert,
}

/// A pinned watch: a durable expression plus its most recent evaluation against
/// the selected frame.
pub struct Watch {
    pub expression: String,
    pub state: WatchState,
}

/// The evaluation state of a watch at the current frame.
pub enum WatchState {
    /// Evaluation in flight, or not yet started for this frame.
    Pending,
    Resolved(VarNode),
    /// Did not resolve in the current frame, for example stepped out of scope.
    Unavailable,
}

/// One line of the transcript. An evaluated value keeps its node so it can be
/// expanded and watched with the same machinery as a frame variable. The rest are
/// messages.
pub enum TranscriptEntry {
    Evaluated { node: VarNode },
    Error { message: String },
    Unavailable { reason: String },
    Unrecognized { input: String },
    Help,
}

/// Which forest a flattened row belongs to, so a fetched child or a watch toggle
/// lands on the right backing node.
#[derive(Clone, Copy, Debug, PartialEq, Eq, Structural)]
pub enum Tree {
    Watch,
    Scope,
    Result,
}

/// The shape of a flattened row, which decides whether the cursor can land on it
/// and how it draws.
#[derive(Clone, Copy, Debug, PartialEq, Eq, Structural)]
pub enum RowKind {
    /// A non-selectable section divider.
    Header,
    /// A non-selectable transcript message.
    Message,
    /// A real variable, watch, or evaluation-result node.
    Node,
    /// A pending or unavailable watch line carrying status text.
    Placeholder,
}

/// How a message row reads, so the view can color it without parsing the text.
#[derive(Clone, Copy, Debug, PartialEq, Eq, Structural)]
pub enum Tone {
    Normal,
    Error,
    Note,
}

/// A flattened, currently-visible row. `path` locates the backing node within its
/// `tree`: for scopes it indexes `roots`, for watches `path[0]` indexes `watches`
/// and the rest descends the resolved node, for results `path[0]` indexes
/// `transcript` and the rest descends the evaluated node. Rows are addressed by
/// position, not by the adapter's variable handle, so a watched variable and its
/// in-tree twin stay independently selectable.
pub struct Row {
    pub tree: Tree,
    pub kind: RowKind,
    pub tone: Tone,
    pub path: Vec<usize>,
    pub depth: usize,
    pub name: String,
    pub value: String,
    pub ty: String,
    pub eval_name: String,
    pub expandable: bool,
    pub expanded: bool,
    pub fetched: bool,
    /// A watch root row, drawn with a pin marker.
    pub watched: bool,
}

/// The mathematical content of a [`WatchState`].
#[verifier::ext_equal]
pub enum WatchStateView {
    Pending,
    Resolved(NodeView),
    Unavailable,
}

/// The mathematical content of a [`Watch`].
#[verifier::ext_equal]
pub struct WatchView {
    pub expression: Seq<char>,
    pub state: WatchStateView,
}

/// The mathematical content of a [`TranscriptEntry`].
#[verifier::ext_equal]
pub enum EntryView {
    Evaluated { node: NodeView },
    Error { message: Seq<char> },
    Unavailable { reason: Seq<char> },
    Unrecognized { input: Seq<char> },
    Help,
}

/// The mathematical content of a [`Row`].
#[verifier::ext_equal]
pub struct RowView {
    pub tree: Tree,
    pub kind: RowKind,
    pub tone: Tone,
    pub path: Seq<usize>,
    pub depth: int,
    pub name: Seq<char>,
    pub value: Seq<char>,
    pub ty: Seq<char>,
    pub eval_name: Seq<char>,
    pub expandable: bool,
    pub expanded: bool,
    pub fetched: bool,
    pub watched: bool,
}

/// The mathematical content of a [`DebuggerModel`].
#[verifier::ext_equal]
pub struct ModelView {
    pub state: SessionState,
    pub thread_id: Option<i64>,
    pub stack: Seq<StackFrame>,
    pub selected_frame: int,
    pub frame_id: Option<i64>,
    pub stop_reason: Seq<char>,
    pub stop_count: int,
    pub epoch: int,
    pub roots: Seq<NodeView>,
    pub watches: Seq<WatchView>,
    pub transcript: Seq<EntryView>,
    pub last_expression: Option<Seq<char>>,
    pub status: Seq<char>,
    pub should_quit: bool,
    pub selected_row: int,
    pub rows: Seq<RowView>,
    pub input: Seq<char>,
    pub mode: InputMode,
    pub show_help: bool,
}

impl View for WatchState {
    type V = WatchStateView;

    open spec fn view(&self) -> WatchStateView {
        match *self {
            WatchState::Pending => WatchStateView::Pending,
            WatchState::Resolved(node) => WatchStateView::Resolved(node@),
            WatchState::Unavailable => WatchStateView::Unavailable,
        }
    }
}

impl View for Watch {
    type V = WatchView;

    open spec fn view(&self) -> WatchView {
        WatchView { expression: self.expression@, state: self.state@ }
    }
}

impl View for TranscriptEntry {
    type V = EntryView;

    open spec fn view(&self) -> EntryView {
        match *self {
            TranscriptEntry::Evaluated { node } => EntryView::Evaluated { node: node@ },
            TranscriptEntry::Error { message } => EntryView::Error { message: message@ },
            TranscriptEntry::Unavailable { reason } => EntryView::Unavailable { reason: reason@ },
            TranscriptEntry::Unrecognized { input } => EntryView::Unrecognized { input: input@ },
            TranscriptEntry::Help => EntryView::Help,
        }
    }
}

impl View for Row {
    type V = RowView;

    open spec fn view(&self) -> RowView {
        RowView {
            tree: self.tree,
            kind: self.kind,
            tone: self.tone,
            path: self.path@,
            depth: self.depth as int,
            name: self.name@,
            value: self.value@,
            ty: self.ty@,
            eval_name: self.eval_name@,
            expandable: self.expandable,
            expanded: self.expanded,
            fetched: self.fetched,
            watched: self.watched,
        }
    }
}

/// The text of an optional string.
pub open spec fn optional_text(text: Option<String>) -> Option<Seq<char>> {
    match text {
        Some(text) => Some(text@),
        None => None,
    }
}

impl View for DebuggerModel {
    type V = ModelView;

    open spec fn view(&self) -> ModelView {
        ModelView {
            state: self.state,
            thread_id: self.thread_id,
            stack: self.stack@,
            selected_frame: self.selected_frame as int,
            frame_id: self.frame_id,
            stop_reason: self.stop_reason@,
            stop_count: self.stop_count as int,
            epoch: self.epoch as int,
            roots: views(self.roots@),
            watches: views(self.watches@),
            transcript: views(self.transcript@),
            last_expression: optional_text(self.last_expression),
            status: self.status@,
            should_quit: self.should_quit,
            selected_row: self.selected_row as int,
            rows: views(self.rows@),
            input: self.input@,
            mode: self.mode,
            show_help: self.show_help,
        }
    }
}

/// The help text, shown both as a transcript entry and in the overlay.
pub open spec fn help_text() -> Seq<Seq<char>> {
    seq![
        "i            type an expression to evaluate (Esc to leave)"@,
        "⏎ on input   evaluate (empty repeats the last expression)"@,
        "j / k        move the variable cursor"@,
        "h / l        collapse / expand the selected node"@,
        "g / G        first / last row"@,
        "K / J        select the calling / called frame"@,
        "w            pin or unpin the selected node as a watch"@,
        "c            continue          n  step over"@,
        "s            step into         o  step out"@,
        "p            pause a running program"@,
        "?            toggle this help      q  quit"@,
    ]
}

/// The lines of the help text.
pub fn help_lines() -> (lines: Vec<&'static str>)
    ensures
        lines@.len() == help_text().len(),
        forall|i: int| 0 <= i < lines@.len() ==> (#[trigger] lines@[i])@ == help_text()[i],
{
    vec![
        "i            type an expression to evaluate (Esc to leave)",
        "⏎ on input   evaluate (empty repeats the last expression)",
        "j / k        move the variable cursor",
        "h / l        collapse / expand the selected node",
        "g / G        first / last row",
        "K / J        select the calling / called frame",
        "w            pin or unpin the selected node as a watch",
        "c            continue          n  step over",
        "s            step into         o  step out",
        "p            pause a running program",
        "?            toggle this help      q  quit",
    ]
}

impl RowView {
    /// The row that shows a node. Its depth is the length of the path below the
    /// root, and only the root of a watch carries the pin marker.
    pub open spec fn node(tree: Tree, path: Seq<usize>, node: NodeView) -> RowView {
        RowView {
            tree,
            kind: RowKind::Node,
            tone: Tone::Normal,
            path,
            depth: path.len() - 1,
            name: node.name,
            value: node.value,
            ty: node.ty,
            eval_name: node.eval_name,
            expandable: node.expandable(),
            expanded: node.expanded,
            fetched: node.children is Some,
            watched: tree == Tree::Watch && path.len() == 1,
        }
    }

    /// A row that carries only text and has no backing node.
    pub open spec fn text(tree: Tree, kind: RowKind, tone: Tone, text: Seq<char>) -> RowView {
        RowView {
            tree,
            kind,
            tone,
            path: Seq::empty(),
            depth: 0,
            name: text,
            value: Seq::empty(),
            ty: Seq::empty(),
            eval_name: Seq::empty(),
            expandable: false,
            expanded: false,
            fetched: false,
            watched: false,
        }
    }

    /// A section divider.
    pub open spec fn header(label: Seq<char>) -> RowView {
        RowView::text(Tree::Scope, RowKind::Header, Tone::Note, label)
    }

    /// A transcript message.
    pub open spec fn message(text: Seq<char>, tone: Tone) -> RowView {
        RowView::text(Tree::Result, RowKind::Message, tone, text)
    }

    /// The line of a watch that has no value to show.
    pub open spec fn watch_placeholder(
        watch: usize,
        expression: Seq<char>,
        status: Seq<char>,
    ) -> RowView {
        RowView {
            tree: Tree::Watch,
            kind: RowKind::Placeholder,
            tone: Tone::Normal,
            path: seq![watch],
            depth: 0,
            name: expression,
            value: status,
            ty: Seq::empty(),
            eval_name: expression,
            expandable: false,
            expanded: false,
            fetched: false,
            watched: true,
        }
    }

    /// Whether the cursor can land on the row.
    pub open spec fn selectable(self) -> bool {
        self.kind == RowKind::Node || self.kind == RowKind::Placeholder
    }
}

/// The rows of one node and of its visible descendants.
pub open spec fn node_rows(tree: Tree, path: Seq<usize>, node: NodeView) -> Seq<RowView>
    decreases node, 0nat,
{
    seq![RowView::node(tree, path, node)] + match node.children {
        Some(children) => if node.expanded {
            forest_rows(tree, path, children, children.len())
        } else {
            Seq::empty()
        },
        None => Seq::empty(),
    }
}

/// The rows of the first `count` nodes of a forest, each followed by its visible
/// descendants.
pub open spec fn forest_rows(
    tree: Tree,
    prefix: Seq<usize>,
    nodes: Seq<NodeView>,
    count: nat,
) -> Seq<RowView>
    decreases nodes, count,
{
    if count == 0 || count > nodes.len() {
        Seq::empty()
    } else {
        forest_rows(tree, prefix, nodes, (count - 1) as nat) + node_rows(
            tree,
            prefix.push((count - 1) as usize),
            nodes[count - 1],
        )
    }
}

/// The rows of one watch.
pub open spec fn watch_rows(index: usize, watch: WatchView) -> Seq<RowView> {
    match watch.state {
        WatchStateView::Resolved(node) => node_rows(Tree::Watch, seq![index], node),
        WatchStateView::Pending => seq![
            RowView::watch_placeholder(index, watch.expression, "…"@),
        ],
        WatchStateView::Unavailable => seq![
            RowView::watch_placeholder(index, watch.expression, "(unavailable)"@),
        ],
    }
}

/// The rows of the first `count` watches.
pub open spec fn watch_list_rows(watches: Seq<WatchView>, count: nat) -> Seq<RowView>
    decreases count,
{
    if count == 0 || count > watches.len() {
        Seq::empty()
    } else {
        watch_list_rows(watches, (count - 1) as nat) + watch_rows(
            (count - 1) as usize,
            watches[count - 1],
        )
    }
}

/// The rows of one transcript entry.
pub open spec fn entry_rows(index: usize, entry: EntryView) -> Seq<RowView> {
    match entry {
        EntryView::Evaluated { node } => node_rows(Tree::Result, seq![index], node),
        EntryView::Error { message } => seq![RowView::message("!! "@ + message, Tone::Error)],
        EntryView::Unavailable { reason } => seq![RowView::message("-- "@ + reason, Tone::Note)],
        EntryView::Unrecognized { input } => seq![
            RowView::message(
                "-- "@ + input + " is not a command; type an expression to evaluate"@,
                Tone::Note,
            ),
        ],
        EntryView::Help => Seq::new(
            help_text().len(),
            |i: int| RowView::message(help_text()[i], Tone::Note),
        ),
    }
}

/// The rows of the first `count` transcript entries.
pub open spec fn transcript_rows(transcript: Seq<EntryView>, count: nat) -> Seq<RowView>
    decreases count,
{
    if count == 0 || count > transcript.len() {
        Seq::empty()
    } else {
        transcript_rows(transcript, (count - 1) as nat) + entry_rows(
            (count - 1) as usize,
            transcript[count - 1],
        )
    }
}

/// A section under its header, absent when it has no items.
pub open spec fn section(label: Seq<char>, items: nat, rows: Seq<RowView>) -> Seq<RowView> {
    if items == 0 {
        Seq::empty()
    } else {
        seq![RowView::header(label)] + rows
    }
}

/// The first selectable row at or after `from`.
pub open spec fn first_selectable(rows: Seq<RowView>, from: int) -> Option<int>
    decreases rows.len() - from,
{
    if from < 0 || from >= rows.len() {
        None
    } else if rows[from].selectable() {
        Some(from)
    } else {
        first_selectable(rows, from + 1)
    }
}

/// The last selectable row before `until`.
pub open spec fn last_selectable(rows: Seq<RowView>, until: int) -> Option<int>
    decreases until,
{
    if until <= 0 || until > rows.len() {
        None
    } else if rows[until - 1].selectable() {
        Some(until - 1)
    } else {
        last_selectable(rows, until - 1)
    }
}

/// The first selectable row is selectable, and none before it is.
pub proof fn lemma_first_selectable(rows: Seq<RowView>, from: int)
    requires
        0 <= from,
    ensures
        match first_selectable(rows, from) {
            Some(i) => {
                &&& from <= i < rows.len()
                &&& rows[i].selectable()
                &&& forall|j: int| from <= j < i ==> !(#[trigger] rows[j]).selectable()
            },
            None => forall|j: int| from <= j < rows.len() ==> !(#[trigger] rows[j]).selectable(),
        },
    decreases rows.len() - from,
{
    if from < rows.len() && !rows[from].selectable() {
        lemma_first_selectable(rows, from + 1);
    }
}

/// The last selectable row is selectable, and none behind it is.
pub proof fn lemma_last_selectable(rows: Seq<RowView>, until: int)
    requires
        until <= rows.len(),
    ensures
        match last_selectable(rows, until) {
            Some(i) => {
                &&& 0 <= i < until
                &&& rows[i].selectable()
                &&& forall|j: int| i < j < until ==> !(#[trigger] rows[j]).selectable()
            },
            None => forall|j: int| 0 <= j < until ==> !(#[trigger] rows[j]).selectable(),
        },
    decreases until,
{
    if until > 0 && !rows[until - 1].selectable() {
        lemma_last_selectable(rows, until - 1);
    }
}

/// Where a cursor belongs: on the selectable row that is nearest to the one it
/// names, taken as the last row when it is out of range. Of two that are equally
/// near it is the one below.
pub open spec fn clamped_row(rows: Seq<RowView>, selected: int) -> int {
    if rows.len() == 0 {
        0
    } else {
        let at = if selected < rows.len() {
            selected
        } else {
            rows.len() - 1
        };
        match (first_selectable(rows, at), last_selectable(rows, at)) {
            (Some(down), Some(up)) => if down - at <= at - up {
                down
            } else {
                up
            },
            (Some(down), None) => down,
            (None, Some(up)) => up,
            (None, None) => 0,
        }
    }
}

/// The position of the first watch on an expression, at or after `from`.
pub open spec fn watch_position(watches: Seq<WatchView>, expression: Seq<char>, from: int) -> Option<
    int,
>
    decreases watches.len() - from,
{
    if from < 0 || from >= watches.len() {
        None
    } else if watches[from].expression == expression {
        Some(from)
    } else {
        watch_position(watches, expression, from + 1)
    }
}

impl ModelView {
    /// The rows that show this state: the watches under a header, then the scopes
    /// of the selected frame, then the transcript under a header.
    #[verifier::opaque]
    pub open spec fn built_rows(self) -> Seq<RowView> {
        section("watched"@, self.watches.len(), watch_list_rows(self.watches, self.watches.len()))
            + forest_rows(Tree::Scope, Seq::empty(), self.roots, self.roots.len()) + section(
            "transcript"@,
            self.transcript.len(),
            transcript_rows(self.transcript, self.transcript.len()),
        )
    }

    /// The state with its rows rebuilt and its cursor put on one of them.
    pub open spec fn refreshed(self) -> ModelView {
        ModelView {
            rows: self.built_rows(),
            selected_row: clamped_row(self.built_rows(), self.selected_row),
            ..self
        }
    }

    /// The value of a watch, by position.
    pub open spec fn watch_root(self, index: int) -> Option<NodeView> {
        if 0 <= index < self.watches.len() {
            match self.watches[index].state {
                WatchStateView::Resolved(root) => Some(root),
                _ => None,
            }
        } else {
            None
        }
    }

    /// The value of a transcript entry, by position.
    pub open spec fn result_root(self, index: int) -> Option<NodeView> {
        if 0 <= index < self.transcript.len() {
            match self.transcript[index] {
                EntryView::Evaluated { node } => Some(node),
                _ => None,
            }
        } else {
            None
        }
    }

    /// The node that a path leads to within one of the forests.
    pub open spec fn node_at(self, tree: Tree, path: Seq<usize>) -> Option<NodeView> {
        match tree {
            Tree::Scope => forest_node(self.roots, path),
            Tree::Watch => if path.len() > 0 {
                match self.watch_root(path[0] as int) {
                    Some(root) => root.descendant(path.drop_first()),
                    None => None,
                }
            } else {
                None
            },
            Tree::Result => if path.len() > 0 {
                match self.result_root(path[0] as int) {
                    Some(root) => root.descendant(path.drop_first()),
                    None => None,
                }
            } else {
                None
            },
        }
    }

    /// The state with the node at that address replaced.
    pub open spec fn with_node_at(self, tree: Tree, path: Seq<usize>, new: NodeView) -> ModelView {
        match tree {
            Tree::Scope => ModelView { roots: with_forest_node(self.roots, path, new), ..self },
            Tree::Watch => match self.watch_root(path[0] as int) {
                Some(root) => self.with_watch_root(
                    path[0] as int,
                    root.with_descendant(path.drop_first(), new),
                ),
                None => self,
            },
            Tree::Result => match self.result_root(path[0] as int) {
                Some(root) => ModelView {
                    transcript: self.transcript.update(
                        path[0] as int,
                        EntryView::Evaluated { node: root.with_descendant(path.drop_first(), new) },
                    ),
                    ..self
                },
                None => self,
            },
        }
    }

    /// The state with the value of one watch replaced.
    pub open spec fn with_watch_root(self, index: int, root: NodeView) -> ModelView {
        ModelView {
            watches: self.watches.update(
                index,
                WatchView { state: WatchStateView::Resolved(root), ..self.watches[index] },
            ),
            ..self
        }
    }

    /// The node below the value of the first watch on an expression.
    pub open spec fn watched_node(self, expression: Seq<char>, subpath: Seq<usize>) -> Option<
        NodeView,
    > {
        match watch_position(self.watches, expression, 0) {
            Some(index) => match self.watch_root(index) {
                Some(root) => root.descendant(subpath),
                None => None,
            },
            None => None,
        }
    }

    /// The state with the node below the first watch on an expression replaced.
    pub open spec fn with_watched_node(
        self,
        expression: Seq<char>,
        subpath: Seq<usize>,
        new: NodeView,
    ) -> ModelView {
        match watch_position(self.watches, expression, 0) {
            Some(index) => match self.watch_root(index) {
                Some(root) => self.with_watch_root(index, root.with_descendant(subpath, new)),
                None => self,
            },
            None => self,
        }
    }
}

impl Row {
    /// Whether the cursor can land on the row.
    pub fn selectable(&self) -> (yes: bool)
        ensures
            yes == self@.selectable(),
    {
        matches!(self.kind, RowKind::Node | RowKind::Placeholder)
    }

    /// The row that shows a node.
    fn node(tree: Tree, path: Vec<usize>, depth: usize, node: &VarNode) -> (row: Row)
        requires
            depth == path@.len() - 1,
        ensures
            row@ == RowView::node(tree, path@, node@),
    {
        Row {
            tree,
            kind: RowKind::Node,
            tone: Tone::Normal,
            path,
            depth,
            name: node.name.clone(),
            value: node.value.clone(),
            ty: node.ty.clone(),
            eval_name: node.eval_name.clone(),
            expandable: node.expandable(),
            expanded: node.expanded,
            fetched: node.children.is_some(),
            watched: tree == Tree::Watch && depth == 0,
        }
    }

    /// A section divider.
    fn header(label: &str) -> (row: Row)
        ensures
            row@ == RowView::header(label@),
    {
        Row {
            tree: Tree::Scope,
            kind: RowKind::Header,
            tone: Tone::Note,
            path: Vec::new(),
            depth: 0,
            name: label.to_owned(),
            value: String::new(),
            ty: String::new(),
            eval_name: String::new(),
            expandable: false,
            expanded: false,
            fetched: false,
            watched: false,
        }
    }

    /// A transcript message.
    fn message(text: String, tone: Tone) -> (row: Row)
        ensures
            row@ == RowView::message(text@, tone),
    {
        Row {
            tree: Tree::Result,
            kind: RowKind::Message,
            tone,
            path: Vec::new(),
            depth: 0,
            name: text,
            value: String::new(),
            ty: String::new(),
            eval_name: String::new(),
            expandable: false,
            expanded: false,
            fetched: false,
            watched: false,
        }
    }

    /// The line of a watch that has no value to show.
    fn watch_placeholder(watch_index: usize, expression: &str, status: &str) -> (row: Row)
        ensures
            row@ == RowView::watch_placeholder(watch_index, expression@, status@),
    {
        Row {
            tree: Tree::Watch,
            kind: RowKind::Placeholder,
            tone: Tone::Normal,
            path: vec![watch_index],
            depth: 0,
            name: expression.to_owned(),
            value: status.to_owned(),
            ty: String::new(),
            eval_name: expression.to_owned(),
            expandable: false,
            expanded: false,
            fetched: false,
            watched: true,
        }
    }
}

/// Appends the row of a node and the rows of its visible descendants.
fn walk_node(tree: Tree, path: Vec<usize>, node: &VarNode, out: &mut Vec<Row>)
    requires
        path@.len() > 0,
    ensures
        views(final(out)@) == views(old(out)@) + node_rows(tree, path@, node@),
    decreases node, 0nat,
{
    broadcast use {lemma_node_view_children, group_views};

    let depth: usize = path.len() - 1;
    let ghost before = views(out@);
    let prefix: Vec<usize> = path.clone();
    assert(prefix@ =~= path@);
    out.push(Row::node(tree, path, depth, node));
    assert(views(out@) =~= before + seq![RowView::node(tree, prefix@, node@)]);
    if node.expanded {
        if let Some(children) = &node.children {
            walk_nodes(tree, &prefix, children, out);
            assert(views(out@) =~= before + node_rows(tree, prefix@, node@));
        }
    }
    assert(views(out@) =~= before + node_rows(tree, prefix@, node@));
}

/// Flattens a node forest into visible rows, tagging each with its tree and path.
fn walk_nodes(tree: Tree, prefix: &Vec<usize>, nodes: &Vec<VarNode>, out: &mut Vec<Row>)
    ensures
        views(final(out)@) == views(old(out)@) + forest_rows(
            tree,
            prefix@,
            views(nodes@),
            nodes@.len(),
        ),
    decreases nodes, 1nat,
{
    let ghost before = views(out@);
    let mut i: usize = 0;
    assert(before + forest_rows(tree, prefix@, views(nodes@), 0) =~= before);
    while i < nodes.len()
        invariant
            i <= nodes@.len(),
            views(out@) == before + forest_rows(tree, prefix@, views(nodes@), i as nat),
        decreases nodes@.len() - i,
    {
        let mut path: Vec<usize> = prefix.clone();
        path.push(i);
        assert(path@ =~= prefix@.push(i));
        walk_node(tree, path, &nodes[i], out);
        i = i + 1;
        assert(views(out@) =~= before + forest_rows(tree, prefix@, views(nodes@), i as nat));
    }
}

/// The first selectable row at or after `from`.
pub fn find_selectable(rows: &Vec<Row>, from: usize) -> (found: Option<usize>)
    ensures
        match found {
            Some(i) => first_selectable(views(rows@), from as int) == Some(i as int),
            None => first_selectable(views(rows@), from as int) is None,
        },
{
    let mut i: usize = from;
    while i < rows.len()
        invariant
            first_selectable(views(rows@), from as int) == first_selectable(
                views(rows@),
                i as int,
            ),
        decreases rows@.len() - i,
    {
        if rows[i].selectable() {
            return Some(i);
        }
        i = i + 1;
    }
    None
}

/// The last selectable row before `until`.
pub fn rfind_selectable(rows: &Vec<Row>, until: usize) -> (found: Option<usize>)
    requires
        until <= rows@.len(),
    ensures
        match found {
            Some(i) => last_selectable(views(rows@), until as int) == Some(i as int),
            None => last_selectable(views(rows@), until as int) is None,
        },
{
    let mut i: usize = until;
    while i > 0
        invariant
            i <= until <= rows@.len(),
            last_selectable(views(rows@), until as int) == last_selectable(
                views(rows@),
                i as int,
            ),
        decreases i,
    {
        if rows[i - 1].selectable() {
            return Some(i - 1);
        }
        i = i - 1;
    }
    None
}

/// The position of the first watch on an expression.
pub fn find_watch(watches: &Vec<Watch>, expression: &str) -> (found: Option<usize>)
    ensures
        match found {
            Some(i) => i < watches@.len() && watch_position(views(watches@), expression@, 0)
                == Some(i as int),
            None => watch_position(views(watches@), expression@, 0) is None,
        },
{
    let mut i: usize = 0;
    while i < watches.len()
        invariant
            watch_position(views(watches@), expression@, 0) == watch_position(
                views(watches@),
                expression@,
                i as int,
            ),
        decreases watches@.len() - i,
    {
        if same_text(watches[i].expression.as_str(), expression) {
            return Some(i);
        }
        i = i + 1;
    }
    None
}

/// The initial state: connected, nothing seen yet.
pub open spec fn initial_model() -> ModelView {
    ModelView {
        state: SessionState::Connecting,
        thread_id: None,
        stack: Seq::empty(),
        selected_frame: 0,
        frame_id: None,
        stop_reason: Seq::empty(),
        stop_count: 0,
        epoch: 0,
        roots: Seq::empty(),
        watches: Seq::empty(),
        transcript: Seq::empty(),
        last_expression: None,
        status: "waiting for the program to stop (breakpoint or step)…"@,
        should_quit: false,
        selected_row: 0,
        rows: Seq::empty(),
        input: Seq::empty(),
        mode: InputMode::Normal,
        show_help: false,
    }
}

impl DebuggerModel {
    pub fn new() -> (model: Self)
        ensures
            model@ == initial_model(),
    {
        broadcast use group_views;

        DebuggerModel {
            state: SessionState::Connecting,
            thread_id: None,
            stack: Vec::new(),
            selected_frame: 0,
            frame_id: None,
            stop_reason: String::new(),
            stop_count: 0,
            epoch: 0,
            roots: Vec::new(),
            watches: Vec::new(),
            transcript: Vec::new(),
            last_expression: None,
            status: "waiting for the program to stop (breakpoint or step)…".to_owned(),
            should_quit: false,
            selected_row: 0,
            rows: Vec::new(),
            input: String::new(),
            mode: InputMode::Normal,
            show_help: false,
        }
    }

    /// The selected frame, or nothing when the stack is empty.
    pub fn selected_stack_frame(&self) -> (frame: Option<&StackFrame>)
        ensures
            match frame {
                Some(frame) => self@.selected_frame < self@.stack.len() && *frame
                    == self@.stack[self@.selected_frame],
                None => self@.selected_frame >= self@.stack.len(),
            },
    {
        if self.selected_frame < self.stack.len() {
            Some(&self.stack[self.selected_frame])
        } else {
            None
        }
    }

    /// Select the caller of the current frame. False at the outermost frame.
    pub fn select_caller_frame(&mut self) -> (moved: bool)
        ensures
            moved == (old(self)@.selected_frame + 1 < old(self)@.stack.len()),
            final(self)@ == (ModelView {
                selected_frame: if moved {
                    old(self)@.selected_frame + 1
                } else {
                    old(self)@.selected_frame
                },
                ..old(self)@
            }),
    {
        if self.selected_frame < self.stack.len() && self.selected_frame + 1 < self.stack.len() {
            self.selected_frame = self.selected_frame + 1;
            true
        } else {
            false
        }
    }

    /// Select the callee of the current frame. False at the innermost frame.
    pub fn select_callee_frame(&mut self) -> (moved: bool)
        ensures
            moved == (old(self)@.selected_frame > 0),
            final(self)@ == (ModelView {
                selected_frame: if moved {
                    old(self)@.selected_frame - 1
                } else {
                    old(self)@.selected_frame
                },
                ..old(self)@
            }),
    {
        if self.selected_frame > 0 {
            self.selected_frame = self.selected_frame - 1;
            true
        } else {
            false
        }
    }

    pub fn push_transcript(&mut self, entry: TranscriptEntry)
        ensures
            final(self)@ == (ModelView {
                transcript: old(self)@.transcript.push(entry@),
                ..old(self)@
            }),
    {
        broadcast use group_views;

        self.transcript.push(entry);
    }

    /// Locate a scope node by positional path.
    pub fn scope_node_mut(&mut self, path: &[usize]) -> (found: Option<&mut VarNode>)
        ensures
            match found {
                Some(node) => {
                    &&& old(self)@.node_at(Tree::Scope, path@) == Some((*node)@)
                    &&& final(self)@ == old(self)@.with_node_at(
                        Tree::Scope,
                        path@,
                        (*final(node))@,
                    )
                },
                None => {
                    &&& old(self)@.node_at(Tree::Scope, path@) is None
                    &&& final(self)@ == old(self)@
                },
            },
    {
        broadcast use group_views;

        if path.len() == 0 {
            return None;
        }
        assert(path@.skip(1) =~= path@.drop_first());
        let first: usize = path[0];
        if first < self.roots.len() {
            descend(&mut self.roots[first], path, 1)
        } else {
            None
        }
    }

    /// Locate a watch node by positional path.
    pub fn watch_node_mut(&mut self, path: &[usize]) -> (found: Option<&mut VarNode>)
        ensures
            match found {
                Some(node) => {
                    &&& old(self)@.node_at(Tree::Watch, path@) == Some((*node)@)
                    &&& final(self)@ == old(self)@.with_node_at(
                        Tree::Watch,
                        path@,
                        (*final(node))@,
                    )
                },
                None => {
                    &&& old(self)@.node_at(Tree::Watch, path@) is None
                    &&& final(self)@ == old(self)@
                },
            },
    {
        broadcast use group_views;

        if path.len() == 0 {
            return None;
        }
        assert(path@.skip(1) =~= path@.drop_first());
        let watch_index: usize = path[0];
        if watch_index < self.watches.len() {
            match &mut self.watches[watch_index].state {
                WatchState::Resolved(root) => descend(root, path, 1),
                _ => None,
            }
        } else {
            None
        }
    }

    /// Locate a node within a watch's subtree by the watch's stable expression,
    /// used when a children reply lands so a concurrent watch-list edit can't
    /// misdirect it.
    pub fn watch_node_mut_by_expression(&mut self, expression: &str, subpath: &[usize]) -> (found:
        Option<&mut VarNode>)
        ensures
            match found {
                Some(node) => {
                    &&& old(self)@.watched_node(expression@, subpath@) == Some((*node)@)
                    &&& final(self)@ == old(self)@.with_watched_node(
                        expression@,
                        subpath@,
                        (*final(node))@,
                    )
                },
                None => {
                    &&& old(self)@.watched_node(expression@, subpath@) is None
                    &&& final(self)@ == old(self)@
                },
            },
    {
        broadcast use group_views;

        assert(subpath@.skip(0) =~= subpath@);
        match find_watch(&self.watches, expression) {
            Some(index) => match &mut self.watches[index].state {
                WatchState::Resolved(root) => descend(root, subpath, 0),
                _ => None,
            },
            None => None,
        }
    }

    /// Locate an evaluation-result node by positional path. The transcript is
    /// append-only, so the leading index is stable across the fetch round-trip.
    pub fn result_node_mut(&mut self, path: &[usize]) -> (found: Option<&mut VarNode>)
        ensures
            match found {
                Some(node) => {
                    &&& old(self)@.node_at(Tree::Result, path@) == Some((*node)@)
                    &&& final(self)@ == old(self)@.with_node_at(
                        Tree::Result,
                        path@,
                        (*final(node))@,
                    )
                },
                None => {
                    &&& old(self)@.node_at(Tree::Result, path@) is None
                    &&& final(self)@ == old(self)@
                },
            },
    {
        broadcast use group_views;

        if path.len() == 0 {
            return None;
        }
        assert(path@.skip(1) =~= path@.drop_first());
        let index: usize = path[0];
        if index < self.transcript.len() {
            match &mut self.transcript[index] {
                TranscriptEntry::Evaluated { node } => descend(node, path, 1),
                _ => None,
            }
        } else {
            None
        }
    }

    /// Flatten the watch section, the selected frame's scopes, and the transcript
    /// into the rows currently visible. Watches come first under a header, then
    /// the scopes, then the transcript. Every node row carries its tree and path.
    /// This is the pure source the cached `rows` are built from.
    pub fn build_rows(&self) -> (rows: Vec<Row>)
        ensures
            views(rows@) == self@.built_rows(),
    {
        reveal(ModelView::built_rows);
        broadcast use group_views;

        let mut out: Vec<Row> = Vec::new();
        if !self.watches.is_empty() {
            out.push(Row::header("watched"));
            let ghost head = views(out@);
            let mut i: usize = 0;
            assert(head + watch_list_rows(self@.watches, 0) =~= head);
            while i < self.watches.len()
                invariant
                    i <= self.watches@.len(),
                    views(out@) == head + watch_list_rows(self@.watches, i as nat),
                decreases self.watches@.len() - i,
            {
                push_watch_rows(i, &self.watches[i], &mut out);
                i = i + 1;
                assert(views(out@) =~= head + watch_list_rows(self@.watches, i as nat));
            }
            assert(head =~= seq![RowView::header("watched"@)]);
        }
        let ghost watch_part = views(out@);
        assert(watch_part =~= section(
            "watched"@,
            self@.watches.len(),
            watch_list_rows(self@.watches, self@.watches.len()),
        ));

        let scope_prefix: Vec<usize> = Vec::new();
        walk_nodes(Tree::Scope, &scope_prefix, &self.roots, &mut out);
        let ghost scope_part = views(out@);
        assert(scope_part == watch_part + forest_rows(
            Tree::Scope,
            Seq::empty(),
            self@.roots,
            self@.roots.len(),
        ));

        if !self.transcript.is_empty() {
            out.push(Row::header("transcript"));
            let ghost head = views(out@);
            let mut i: usize = 0;
            assert(head + transcript_rows(self@.transcript, 0) =~= head);
            while i < self.transcript.len()
                invariant
                    i <= self.transcript@.len(),
                    views(out@) == head + transcript_rows(self@.transcript, i as nat),
                decreases self.transcript@.len() - i,
            {
                push_entry_rows(i, &self.transcript[i], &mut out);
                i = i + 1;
                assert(views(out@) =~= head + transcript_rows(self@.transcript, i as nat));
            }
            assert(head =~= scope_part + seq![RowView::header("transcript"@)]);
        }
        assert(views(out@) =~= self@.built_rows());
        out
    }

    /// Rebuild the cached rows from the current state and re-clamp the cursor.
    pub fn rebuild_rows(&mut self)
        ensures
            final(self)@ == old(self)@.refreshed(),
    {
        self.rows = self.build_rows();
        self.clamp_row();
    }

    /// Move the cursor off a now-out-of-range or non-selectable row to the nearest
    /// selectable one.
    fn clamp_row(&mut self)
        ensures
            final(self)@ == (ModelView {
                selected_row: clamped_row(old(self)@.rows, old(self)@.selected_row),
                ..old(self)@
            }),
    {
        if self.rows.is_empty() {
            self.selected_row = 0;
            return;
        }
        let last: usize = self.rows.len() - 1;
        let at: usize = if self.selected_row < last {
            self.selected_row
        } else {
            last
        };
        let below: Option<usize> = find_selectable(&self.rows, at);
        let above: Option<usize> = rfind_selectable(&self.rows, at);
        proof {
            lemma_first_selectable(self@.rows, at as int);
            lemma_last_selectable(self@.rows, at as int);
        }
        self.selected_row = match (below, above) {
            (Some(down), Some(up)) => if down - at <= at - up {
                down
            } else {
                up
            },
            (Some(down), None) => down,
            (None, Some(up)) => up,
            (None, None) => 0,
        };
    }
}

impl Default for DebuggerModel {
    fn default() -> (model: Self)
        ensures
            model@ == initial_model(),
    {
        Self::new()
    }
}

/// Appends the rows of one watch.
fn push_watch_rows(index: usize, watch: &Watch, out: &mut Vec<Row>)
    ensures
        views(final(out)@) == views(old(out)@) + watch_rows(index, watch@),
{
    broadcast use group_views;

    let ghost before = views(out@);
    match &watch.state {
        WatchState::Resolved(node) => {
            let path: Vec<usize> = vec![index];
            assert(path@ =~= seq![index]);
            walk_node(Tree::Watch, path, node, out);
        },
        WatchState::Pending => {
            out.push(Row::watch_placeholder(index, watch.expression.as_str(), "…"));
            assert(views(out@) =~= before + watch_rows(index, watch@));
        },
        WatchState::Unavailable => {
            out.push(Row::watch_placeholder(index, watch.expression.as_str(), "(unavailable)"));
            assert(views(out@) =~= before + watch_rows(index, watch@));
        },
    }
}

/// Appends the rows of one transcript entry.
fn push_entry_rows(index: usize, entry: &TranscriptEntry, out: &mut Vec<Row>)
    ensures
        views(final(out)@) == views(old(out)@) + entry_rows(index, entry@),
{
    broadcast use group_views;

    let ghost before = views(out@);
    match entry {
        TranscriptEntry::Evaluated { node } => {
            let path: Vec<usize> = vec![index];
            assert(path@ =~= seq![index]);
            walk_node(Tree::Result, path, node, out);
        },
        TranscriptEntry::Error { message } => {
            out.push(Row::message(join2("!! ", message.as_str()), Tone::Error));
            assert(views(out@) =~= before + entry_rows(index, entry@));
        },
        TranscriptEntry::Unavailable { reason } => {
            out.push(Row::message(join2("-- ", reason.as_str()), Tone::Note));
            assert(views(out@) =~= before + entry_rows(index, entry@));
        },
        TranscriptEntry::Unrecognized { input } => {
            out.push(
                Row::message(
                    join3(
                        "-- ",
                        input.as_str(),
                        " is not a command; type an expression to evaluate",
                    ),
                    Tone::Note,
                ),
            );
            assert(views(out@) =~= before + entry_rows(index, entry@));
        },
        TranscriptEntry::Help => {
            let lines: Vec<&'static str> = help_lines();
            let ghost all = entry_rows(index, entry@);
            let mut i: usize = 0;
            assert(before + all.take(0) =~= before);
            while i < lines.len()
                invariant
                    i <= lines@.len(),
                    lines@.len() == help_text().len(),
                    forall|j: int|
                        0 <= j < lines@.len() ==> (#[trigger] lines@[j])@ == help_text()[j],
                    all == entry_rows(index, entry@),
                    entry@ == EntryView::Help,
                    views(out@) == before + all.take(i as int),
                decreases lines@.len() - i,
            {
                let line: &str = lines[i];
                assert(line@ == help_text()[i as int]);
                out.push(Row::message(line.to_owned(), Tone::Note));
                proof {
                    broadcast use group_views;

                    assert(all.take(i + 1) =~= all.take(i as int).push(all[i as int]));
                }
                i = i + 1;
                assert(views(out@) =~= before + all.take(i as int));
            }
            assert(all.take(lines@.len() as int) =~= all);
        },
    }
}

} // verus!
