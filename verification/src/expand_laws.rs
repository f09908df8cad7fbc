//! What expanding a node promises: the cursor stays on it, its children are asked
//! for while it has none, and they land on it.

use crate::model::{
    watch_position, DebuggerModel, EntryView, ModelView, RowKind, RowView, Tree, WatchStateView,
    WatchView,
};
use crate::model_laws::{
    law_a_clamped_cursor_is_placed, lemma_same_rows, lemma_watch_position, rows_current,
    watched_once,
};
use crate::node::NodeView;
use crate::row_laws::{
    law_addresses_are_distinct, law_an_edited_node_keeps_its_row, law_nodes_are_read_back,
    law_rows_name_what_they_show, on_display,
};
use crate::update::{
    interpreted, target_node, with_target_node, Action, EffectView, ExpandWant, Happening,
    TargetView, Update,
};
use crate::views::views;
use vstd::prelude::*;

verus! {

/// A node that was put at an address of the model is read back there, and putting
/// back what was read changes nothing.
pub proof fn law_addressed_nodes_are_read_back(
    model: ModelView,
    tree: Tree,
    path: Seq<usize>,
    new: NodeView,
)
    requires
        model.node_at(tree, path) is Some,
    ensures
        model.with_node_at(tree, path, new).node_at(tree, path) == Some(new),
        model.with_node_at(tree, path, model.node_at(tree, path)->0) == model,
        model.with_node_at(tree, path, new).with_node_at(
            tree,
            path,
            model.node_at(tree, path)->0,
        ) == model,
{
    let n = path[0] as int;
    let old_node = model.node_at(tree, path)->0;
    let below = path.drop_first();
    let root = match tree {
        Tree::Scope => model.roots[n],
        Tree::Watch => model.watch_root(n)->0,
        Tree::Result => model.result_root(n)->0,
    };
    law_nodes_are_read_back(root, below, new);
    lemma_put_twice(root, below, new, old_node);
    let put = model.with_node_at(tree, path, new);
    assert(model.with_node_at(tree, path, old_node) =~= model);
    assert(put.with_node_at(tree, path, old_node) =~= model);
}

/// Of two nodes put at the same place the second stays.
proof fn lemma_put_twice(node: NodeView, path: Seq<usize>, first: NodeView, second: NodeView)
    requires
        node.descendant(path) is Some,
    ensures
        node.with_descendant(path, first).with_descendant(path, second) == node.with_descendant(
            path,
            second,
        ),
    decreases path.len(),
{
    if path.len() > 0 {
        let children = node.children->0;
        let n = path[0] as int;
        lemma_put_twice(children[n], path.drop_first(), first, second);
        let once = children[n].with_descendant(path.drop_first(), first);
        let twice = children[n].with_descendant(path.drop_first(), second);
        assert(children.update(n, once).update(n, twice) =~= children.update(n, twice));
    }
}

/// A row's lasting target is the node that the row shows, as long as nothing is
/// watched twice.
pub proof fn law_the_target_is_what_the_row_shows(model: ModelView, tree: Tree, path: Seq<usize>)
    requires
        model.node_at(tree, path) is Some,
        watched_once(model.watches),
    ensures
        target_node(model, model.fetch_target(tree, path)) == model.node_at(tree, path),
{
    if tree == Tree::Watch {
        lemma_watch_position(model.watches, model.watches[path[0] as int].expression, 0);
    }
}

/// A target below a watch stays the same node when another expression is unpinned,
/// though the positions of the watches change.
pub proof fn law_targets_outlive_other_watches(
    model: ModelView,
    index: int,
    expression: Seq<char>,
    subpath: Seq<usize>,
)
    requires
        0 <= index < model.watches.len(),
        model.watches[index].expression != expression,
    ensures
        ({
            let target = TargetView::Watch { expression, subpath };
            target_node(model.unpinned(index), target) == target_node(model, target)
        }),
{
    let left = model.unpinned(index);
    lemma_watch_position(model.watches, expression, 0);
    lemma_watch_position(left.watches, expression, 0);
    match watch_position(model.watches, expression, 0) {
        Some(i) => {
            let moved = if i < index {
                i
            } else {
                i - 1
            };
            assert(left.watches[moved] == model.watches[i]);
            assert(watch_position(left.watches, expression, 0) == Some(moved)) by {
                let found = watch_position(left.watches, expression, 0)->0;
                if found < moved {
                    assert(left.watches[found] == model.watches[if found < index {
                        found
                    } else {
                        found + 1
                    }]);
                }
            }
        },
        None => {
            if let Some(found) = watch_position(left.watches, expression, 0) {
                assert(left.watches[found] == model.watches[if found < index {
                    found
                } else {
                    found + 1
                }]);
            }
        },
    }
}

/// Editing below a watch leaves every watch at its position.
proof fn lemma_positions_stay(
    watches: Seq<WatchView>,
    index: int,
    watch: WatchView,
    from: int,
    expression: Seq<char>,
)
    requires
        0 <= index < watches.len(),
        watch.expression == watches[index].expression,
        0 <= from,
    ensures
        watch_position(watches.update(index, watch), expression, from) == watch_position(
            watches,
            expression,
            from,
        ),
    decreases watches.len() - from,
{
    if from < watches.len() {
        lemma_positions_stay(watches, index, watch, from + 1, expression);
    }
}

/// Children that arrive in the generation they were asked for become those of the
/// node they were asked for.
pub proof fn law_children_land_on_their_target(model: ModelView, update: Update)
    requires
        update.kind is Children,
        update.epoch == model.epoch,
        target_node(model, update.kind->target@) is Some,
    ensures
        target_node(
            interpreted(model, Happening::Update(update)).model,
            update.kind->target@,
        ) == Some(
            NodeView {
                children: Some(views(update.kind->children@)),
                ..target_node(model, update.kind->target@)->0
            },
        ),
{
    let target = update.kind->target@;
    let node = target_node(model, target)->0;
    let new = NodeView { children: Some(views(update.kind->children@)), ..node };
    let landed = with_target_node(model, target, new);
    match target {
        TargetView::Scope { path } => {
            law_addressed_nodes_are_read_back(model, Tree::Scope, path, new);
        },
        TargetView::Result { path } => {
            law_addressed_nodes_are_read_back(model, Tree::Result, path, new);
        },
        TargetView::Watch { expression, subpath } => {
            lemma_watch_position(model.watches, expression, 0);
            let index = watch_position(model.watches, expression, 0)->0;
            let root = model.watch_root(index)->0;
            law_nodes_are_read_back(root, subpath, new);
            lemma_positions_stay(
                model.watches,
                index,
                WatchView {
                    state: WatchStateView::Resolved(root.with_descendant(subpath, new)),
                    ..model.watches[index]
                },
                0,
                expression,
            );
        },
    }
    assert(target_node(landed, target) == Some(new));
}

/// Whether an action expands or collapses.
pub open spec fn expands(action: Action, want: ExpandWant) -> bool {
    match want {
        ExpandWant::Expand => action == Action::Expand,
        ExpandWant::Collapse => action == Action::Collapse,
        ExpandWant::Toggle => action == Action::ToggleExpand,
    }
}

/// Children are asked for only when an expandable node is shown that does not have
/// them, and then with that node's own reference. Once they are there they are not
/// asked for again.
pub proof fn law_only_missing_children_are_asked_for(model: ModelView, action: Action, want: ExpandWant)
    requires
        expands(action, want),
        model.selected_row >= 0,
    ensures
        ({
            let effects = interpreted(model, Happening::Action(action)).effects;
            let row = model.rows[model.selected_row];
            &&& effects.len() <= 1
            &&& effects.len() == 1 ==> {
                &&& model.selected_row < model.rows.len()
                &&& row.expandable
                &&& want != ExpandWant::Collapse
                &&& model.node_at(row.tree, row.path) matches Some(node) && node.children is None
                    && effects[0] == (EffectView::FetchChildren {
                    target: model.fetch_target(row.tree, row.path),
                    var_ref: node.var_ref,
                    epoch: model.epoch,
                })
            }
        }),
{
}

/// A row that shows nothing to expand stays as it is, and nothing is asked for.
pub proof fn law_a_leaf_does_not_expand(model: ModelView, want: ExpandWant)
    requires
        model.selected_row >= 0,
        model.selected_row < model.rows.len() ==> !model.rows[model.selected_row].expandable,
    ensures
        model.expanded(want).model == model,
        model.expanded(want).effects.len() == 0,
{
}

/// The row under the cursor, when the cached rows are current and it is a node's,
/// shows a node on display.
proof fn lemma_cursor_node(model: DebuggerModel)
    requires
        rows_current(model@),
        0 <= model@.selected_row < model@.rows.len(),
        model@.rows[model@.selected_row].kind == RowKind::Node,
    ensures
        ({
            let row = model@.rows[model@.selected_row];
            &&& on_display(model@, row.tree, row.path)
            &&& model@.node_at(row.tree, row.path) matches Some(node) && row == RowView::node(
                row.tree,
                row.path,
                node,
            )
        }),
{
    law_rows_name_what_they_show(model, model@.selected_row);
}

/// Expanding or collapsing a node leaves the cursor on its row, and the rows before
/// it as they are.
#[verifier::rlimit(40)]
pub proof fn law_expanding_keeps_the_cursor(model: DebuggerModel, action: Action, want: ExpandWant)
    requires
        expands(action, want),
        rows_current(model@),
        0 <= model@.selected_row < model@.rows.len(),
        model@.rows[model@.selected_row].kind == RowKind::Node,
    ensures
        ({
            let after = interpreted(model@, Happening::Action(action)).model;
            let at = model@.selected_row;
            let row = model@.rows[at];
            &&& after.selected_row == at
            &&& at < after.rows.len()
            &&& after.rows.take(at) == model@.rows.take(at)
            &&& after.node_at(row.tree, row.path) matches Some(node) && after.rows[at]
                == RowView::node(row.tree, row.path, node)
        }),
{
    let m = model@;
    let at = m.selected_row;
    let row = m.rows[at];
    lemma_cursor_node(model);
    let node = m.node_at(row.tree, row.path)->0;
    let edited = m.expanded(want).model;
    let after = interpreted(m, Happening::Action(action)).model;
    if row.expandable {
        let show = match want {
            ExpandWant::Expand => true,
            ExpandWant::Collapse => false,
            ExpandWant::Toggle => !node.expanded,
        };
        let new = NodeView { expanded: show, ..node };
        let i = law_an_edited_node_keeps_its_row(m, row.tree, row.path, new);
        if i < at {
            law_addresses_are_distinct(model, i, at);
        } else if at < i {
            law_addresses_are_distinct(model, at, i);
        }
        law_addressed_nodes_are_read_back(m, row.tree, row.path, new);
        law_a_clamped_cursor_is_placed(edited.built_rows(), at);
        assert(after.rows.take(at) =~= m.rows.take(at));
    } else {
        law_a_clamped_cursor_is_placed(m.rows, at);
    }
}

/// Toggling a node twice gives back the model as it was.
pub proof fn law_toggling_twice_changes_nothing(model: DebuggerModel)
    requires
        rows_current(model@),
        0 <= model@.selected_row < model@.rows.len(),
        model@.rows[model@.selected_row].kind == RowKind::Node,
    ensures
        ({
            let once = interpreted(model@, Happening::Action(Action::ToggleExpand)).model;
            interpreted(once, Happening::Action(Action::ToggleExpand)).model == model@
        }),
{
    let m = model@;
    let at = m.selected_row;
    let row = m.rows[at];
    lemma_cursor_node(model);
    let node = m.node_at(row.tree, row.path)->0;
    let once = interpreted(m, Happening::Action(Action::ToggleExpand)).model;
    let twice = interpreted(once, Happening::Action(Action::ToggleExpand)).model;
    law_expanding_keeps_the_cursor(model, Action::ToggleExpand, ExpandWant::Toggle);
    law_a_clamped_cursor_is_placed(m.rows, at);
    if row.expandable {
        let new = NodeView { expanded: !node.expanded, ..node };
        law_addressed_nodes_are_read_back(m, row.tree, row.path, new);
        let edited = m.with_node_at(row.tree, row.path, new);
        assert(once.node_at(row.tree, row.path) == Some(new));
        let restored = once.with_node_at(row.tree, row.path, node);
        lemma_rows_do_not_matter(edited, once, row.tree, row.path, node);
        assert(edited.with_node_at(row.tree, row.path, node) == m);
        lemma_same_rows(restored, m);
        assert(twice == restored.refreshed());
    }
    assert(twice =~= m);
}

/// An edit reads and changes neither the cached rows nor the cursor.
proof fn lemma_rows_do_not_matter(
    a: ModelView,
    b: ModelView,
    tree: Tree,
    path: Seq<usize>,
    new: NodeView,
)
    requires
        b == (ModelView { rows: b.rows, selected_row: b.selected_row, ..a }),
    ensures
        b.with_node_at(tree, path, new) == (ModelView {
            rows: b.rows,
            selected_row: b.selected_row,
            ..a.with_node_at(tree, path, new)
        }),
{
}

/// What a path leads to starts at one of the roots and goes down one child at a time.
pub proof fn law_paths_go_down_child_by_child(
    model: ModelView,
    tree: Tree,
    path: Seq<usize>,
    n: usize,
)
    requires
        path.len() > 0,
    ensures
        model.node_at(tree, seq![n]) == match tree {
            Tree::Scope => if n < model.roots.len() {
                Some(model.roots[n as int])
            } else {
                None
            },
            Tree::Watch => if n < model.watches.len() {
                match model.watches[n as int].state {
                    WatchStateView::Resolved(root) => Some(root),
                    _ => None,
                }
            } else {
                None
            },
            Tree::Result => if n < model.transcript.len() {
                match model.transcript[n as int] {
                    EntryView::Evaluated { node } => Some(node),
                    _ => None,
                }
            } else {
                None
            },
        },
        model.node_at(tree, path.push(n)) == match model.node_at(tree, path) {
            Some(node) => match node.children {
                Some(children) => if n < children.len() {
                    Some(children[n as int])
                } else {
                    None
                },
                None => None,
            },
            None => None,
        },
        model.node_at(tree, Seq::empty()) is None,
{
    assert(seq![n].drop_first() =~= Seq::<usize>::empty());
    let r = path[0] as int;
    assert(path.push(n).drop_first() =~= path.drop_first().push(n));
    let root = match tree {
        Tree::Scope => model.roots[r],
        Tree::Watch => model.watch_root(r)->0,
        Tree::Result => model.result_root(r)->0,
    };
    lemma_child_of(root, path.drop_first(), n);
}

/// One step further down is a child.
proof fn lemma_child_of(node: NodeView, path: Seq<usize>, n: usize)
    ensures
        node.descendant(path.push(n)) == match node.descendant(path) {
            Some(at) => match at.children {
                Some(children) => if n < children.len() {
                    Some(children[n as int])
                } else {
                    None
                },
                None => None,
            },
            None => None,
        },
    decreases path.len(),
{
    if path.len() == 0 {
        assert(path.push(n).drop_first() =~= Seq::<usize>::empty());
        reveal_with_fuel(NodeView::descendant, 2);
    } else {
        assert(path.push(n).drop_first() =~= path.drop_first().push(n));
        if node.children is Some && path[0] < node.children->0.len() {
            lemma_child_of(node.children->0[path[0] as int], path.drop_first(), n);
        }
    }
}

/// A node without its children, but with whether it has them.
pub open spec fn shallow(node: NodeView) -> NodeView {
    NodeView {
        children: match node.children {
            Some(_) => Some(Seq::empty()),
            None => None,
        },
        ..node
    }
}

/// What stands at an address, apart from what is below it.
pub open spec fn glance(model: ModelView, tree: Tree, path: Seq<usize>) -> Option<NodeView> {
    match model.node_at(tree, path) {
        Some(node) => Some(shallow(node)),
        None => None,
    }
}

spec fn glance_below(node: NodeView, path: Seq<usize>) -> Option<NodeView> {
    match node.descendant(path) {
        Some(at) => Some(shallow(at)),
        None => None,
    }
}

/// Replacing a node by one with the same children shows at its own place alone.
proof fn lemma_same_children(node: NodeView, path: Seq<usize>, new: NodeView, other: Seq<usize>)
    requires
        node.descendant(path) is Some,
        new.children == node.descendant(path)->0.children,
    ensures
        glance_below(node.with_descendant(path, new), other) == if other == path {
            Some(shallow(new))
        } else {
            glance_below(node, other)
        },
    decreases path.len(),
{
    if path.len() == 0 {
        if other.len() == 0 {
            assert(other =~= path);
        }
    } else if other.len() > 0 {
        let n = path[0] as int;
        assert(other == path <==> (other[0] == path[0] && other.drop_first()
            == path.drop_first())) by {
            assert(other =~= seq![other[0]] + other.drop_first());
            assert(path =~= seq![path[0]] + path.drop_first());
        }
        if other[0] == path[0] {
            lemma_same_children(
                node.children->0[n],
                path.drop_first(),
                new,
                other.drop_first(),
            );
        }
    }
}

/// Replacing a node shows nowhere but at its own place and below it.
proof fn lemma_other_places(node: NodeView, path: Seq<usize>, new: NodeView, other: Seq<usize>)
    requires
        node.descendant(path) is Some,
        !path.is_prefix_of(other),
    ensures
        glance_below(node.with_descendant(path, new), other) == glance_below(node, other),
    decreases path.len(),
{
    if path.len() > 0 && other.len() > 0 && other[0] == path[0] {
        assert(!path.drop_first().is_prefix_of(other.drop_first())) by {
            if path.drop_first().is_prefix_of(other.drop_first()) {
                assert(path =~= other.subrange(0, path.len() as int)) by {
                    assert forall|i: int| 0 <= i < path.len() implies path[i] == other[i] by {
                        if i > 0 {
                            assert(path[i] == path.drop_first()[i - 1]);
                            assert(other[i] == other.drop_first()[i - 1]);
                            assert(other.drop_first().subrange(
                                0,
                                path.drop_first().len() as int,
                            )[i - 1] == path.drop_first()[i - 1]);
                        }
                    }
                }
            }
        }
        lemma_other_places(
            node.children->0[path[0] as int],
            path.drop_first(),
            new,
            other.drop_first(),
        );
    }
}

/// The root that an address starts from.
spec fn start_of(model: ModelView, tree: Tree, path: Seq<usize>) -> NodeView {
    match tree {
        Tree::Scope => model.roots[path[0] as int],
        Tree::Watch => model.watch_root(path[0] as int)->0,
        Tree::Result => model.result_root(path[0] as int)->0,
    }
}

proof fn lemma_same_path(a: Seq<usize>, b: Seq<usize>)
    requires
        a.len() > 0,
        b.len() > 0,
    ensures
        a == b <==> (a[0] == b[0] && a.drop_first() == b.drop_first()),
        a.is_prefix_of(b) <==> (a[0] == b[0] && a.drop_first().is_prefix_of(b.drop_first())),
{
    assert(a =~= seq![a[0]] + a.drop_first());
    assert(b =~= seq![b[0]] + b.drop_first());
    if a[0] == b[0] && a.drop_first().is_prefix_of(b.drop_first()) {
        assert(a =~= b.subrange(0, a.len() as int)) by {
            assert forall|i: int| 0 <= i < a.len() implies a[i] == b[i] by {
                if i > 0 {
                    assert(b.drop_first().subrange(0, a.drop_first().len() as int)[i - 1]
                        == a.drop_first()[i - 1]);
                }
            }
        }
    }
    if a.is_prefix_of(b) {
        assert(b.subrange(0, a.len() as int)[0] == a[0]);
        assert(a.drop_first() =~= b.drop_first().subrange(0, a.drop_first().len() as int)) by {
            assert forall|i: int| 0 <= i < a.len() - 1 implies a.drop_first()[i]
                == b.drop_first()[i] by {
                assert(b.subrange(0, a.len() as int)[i + 1] == a[i + 1]);
            }
        }
    }
}

/// What an expansion key leaves at the selected node: the flag as wanted.
pub open spec fn wanted(want: ExpandWant, node: NodeView) -> bool {
    match want {
        ExpandWant::Expand => true,
        ExpandWant::Collapse => false,
        ExpandWant::Toggle => !node.expanded,
    }
}

/// Whether the cursor is on the row of an expandable node, at any depth.
pub open spec fn on_expandable(
    model: ModelView,
    tree: Tree,
    path: Seq<usize>,
    node: NodeView,
) -> bool {
    &&& 0 <= model.selected_row < model.rows.len()
    &&& model.rows[model.selected_row].expandable
    &&& model.rows[model.selected_row].tree == tree
    &&& model.rows[model.selected_row].path == path
    &&& model.node_at(tree, path) == Some(node)
}

/// Showing an expandable node at any depth asks for its children exactly when it has
/// none yet: one request, with the node's own reference, in the current generation,
/// for what the row shows. Hiding it asks for nothing.
pub proof fn law_missing_children_are_asked_for(
    model: ModelView,
    action: Action,
    want: ExpandWant,
    tree: Tree,
    path: Seq<usize>,
    node: NodeView,
)
    requires
        expands(action, want),
        on_expandable(model, tree, path, node),
    ensures
        ({
            let effects = interpreted(model, Happening::Action(action)).effects;
            if wanted(want, node) && node.children is None {
                &&& effects.len() == 1
                &&& effects[0] matches EffectView::FetchChildren { target, var_ref, epoch }
                    && var_ref == node.var_ref && epoch == model.epoch && match tree {
                    Tree::Scope => target == (TargetView::Scope { path }),
                    Tree::Result => target == (TargetView::Result { path }),
                    Tree::Watch => target == (TargetView::Watch {
                        expression: model.watches[path[0] as int].expression,
                        subpath: path.drop_first(),
                    }),
                }
            } else {
                effects.len() == 0
            }
        }),
{
}

/// Expanding or collapsing a node sets its flag as wanted. Whatever else stands at
/// any address of any forest stays as it is, and so does the rest of the model.
pub proof fn law_expanding_sets_one_flag(
    model: ModelView,
    action: Action,
    want: ExpandWant,
    tree: Tree,
    path: Seq<usize>,
    node: NodeView,
    other_tree: Tree,
    other: Seq<usize>,
)
    requires
        expands(action, want),
        on_expandable(model, tree, path, node),
    ensures
        ({
            let after = interpreted(model, Happening::Action(action)).model;
            &&& glance(after, other_tree, other) == if other_tree == tree && other == path {
                Some(NodeView { expanded: wanted(want, node), ..shallow(node) })
            } else {
                glance(model, other_tree, other)
            }
            &&& only_nodes_differ(model, after)
        }),
{
    let new = NodeView { expanded: wanted(want, node), ..node };
    lemma_put_shows(model, tree, path, new, other_tree, other);
    lemma_only_nodes(model, tree, path, new);
    lemma_rebuilding_keeps_nodes(model.with_node_at(tree, path, new), other_tree, other);
    lemma_expanded_puts(model, want, tree, path, node);
    assert(interpreted(model, Happening::Action(action)).model == model.expanded(
        want,
    ).model.refreshed());
}

/// Expanding replaces the node behind the row.
proof fn lemma_expanded_puts(
    model: ModelView,
    want: ExpandWant,
    tree: Tree,
    path: Seq<usize>,
    node: NodeView,
)
    requires
        on_expandable(model, tree, path, node),
    ensures
        model.expanded(want).model == model.with_node_at(
            tree,
            path,
            NodeView { expanded: wanted(want, node), ..node },
        ),
{
}

/// Rebuilding the rows leaves what stands at each address.
proof fn lemma_rebuilding_keeps_nodes(model: ModelView, tree: Tree, path: Seq<usize>)
    ensures
        model.refreshed().node_at(tree, path) == model.node_at(tree, path),
{
}

/// Replacing a node by one with the same children shows at its own address alone.
proof fn lemma_put_shows(
    model: ModelView,
    tree: Tree,
    path: Seq<usize>,
    new: NodeView,
    other_tree: Tree,
    other: Seq<usize>,
)
    requires
        model.node_at(tree, path) is Some,
        new.children == model.node_at(tree, path)->0.children,
    ensures
        glance(model.with_node_at(tree, path, new), other_tree, other) == if other_tree == tree
            && other == path {
            Some(shallow(new))
        } else {
            glance(model, other_tree, other)
        },
{
    let root = start_of(model, tree, path);
    assert(root.descendant(path.drop_first()) == model.node_at(tree, path));
    if other.len() > 0 {
        lemma_same_path(path, other);
        if tree == other_tree && path[0] == other[0] {
            lemma_same_children(root, path.drop_first(), new, other.drop_first());
        }
    }
}

/// Whether two models differ at most in what stands in their forests, and in their
/// rows and cursor: the same watches are there, those without a value and the
/// messages as they were.
pub open spec fn only_nodes_differ(model: ModelView, after: ModelView) -> bool {
    &&& after == (ModelView {
        roots: after.roots,
        watches: after.watches,
        transcript: after.transcript,
        rows: after.rows,
        selected_row: after.selected_row,
        ..model
    })
    &&& after.roots.len() == model.roots.len()
    &&& after.watches.len() == model.watches.len()
    &&& after.transcript.len() == model.transcript.len()
    &&& forall|i: int|
        0 <= i < model.watches.len() ==> (#[trigger] after.watches[i]).expression
            == model.watches[i].expression && (!(model.watches[i].state is Resolved)
            ==> after.watches[i] == model.watches[i])
    &&& forall|i: int|
        0 <= i < model.transcript.len() && !(model.transcript[i] is Evaluated)
            ==> #[trigger] after.transcript[i] == model.transcript[i]
}

proof fn lemma_only_nodes(model: ModelView, tree: Tree, path: Seq<usize>, new: NodeView)
    requires
        model.node_at(tree, path) is Some,
    ensures
        only_nodes_differ(model, model.with_node_at(tree, path, new)),
        only_nodes_differ(model, model.with_node_at(tree, path, new).refreshed()),
{
}

/// The forest that a target is in and the path that leads to it, when the watch it is
/// below, if it is below one, stands at this position.
pub open spec fn address_of(target: TargetView, index: usize) -> (Tree, Seq<usize>) {
    match target {
        TargetView::Scope { path } => (Tree::Scope, path),
        TargetView::Result { path } => (Tree::Result, path),
        TargetView::Watch { expression, subpath } => (Tree::Watch, seq![index] + subpath),
    }
}

/// Whether the watch that a target is below, if it is below one, stands at this
/// position.
pub open spec fn stands_at(model: ModelView, target: TargetView, index: usize) -> bool {
    target matches TargetView::Watch { expression, subpath } ==> index < model.watches.len()
        && model.watches[index as int].expression == expression
}

/// Children that arrive in their generation become those of the node they were asked
/// for, found by the path in its forest, and below a watch by the watch's expression.
/// What stands anywhere else stays as it is, and nothing is asked for.
pub proof fn law_children_land_at_one_address(
    model: ModelView,
    update: Update,
    index: usize,
    other_tree: Tree,
    other: Seq<usize>,
)
    requires
        update.kind is Children,
        update.epoch == model.epoch,
        watched_once(model.watches),
        stands_at(model, update.kind->target@, index),
    ensures
        ({
            let (tree, path) = address_of(update.kind->target@, index);
            let after = interpreted(model, Happening::Update(update)).model;
            &&& interpreted(model, Happening::Update(update)).effects.len() == 0
            &&& only_nodes_differ(model, after)
            &&& match model.node_at(tree, path) {
                Some(node) => {
                    &&& after.node_at(tree, path) == Some(
                        NodeView { children: Some(views(update.kind->children@)), ..node },
                    )
                    &&& !(other_tree == tree && path.is_prefix_of(other)) ==> glance(
                        after,
                        other_tree,
                        other,
                    ) == glance(model, other_tree, other)
                },
                None => glance(after, other_tree, other) == glance(model, other_tree, other),
            }
        }),
{
    let target = update.kind->target@;
    let (tree, path) = address_of(target, index);
    lemma_target_address(model, target, index);
    lemma_children_step(model, update);
    if let Some(node) = model.node_at(tree, path) {
        let new = NodeView { children: Some(views(update.kind->children@)), ..node };
        let put = model.with_node_at(tree, path, new);
        lemma_target_put(model, target, index, new);
        law_addressed_nodes_are_read_back(model, tree, path, new);
        lemma_rebuilding_keeps_nodes(put, tree, path);
        lemma_rebuilding_keeps_nodes(put, other_tree, other);
        lemma_only_nodes(model, tree, path, new);
        if !(other_tree == tree && path.is_prefix_of(other)) {
            lemma_put_elsewhere(model, tree, path, new, other_tree, other);
        }
    } else {
        lemma_rebuilding_keeps_nodes(model, other_tree, other);
    }
}

/// The address of a target is where its node stands.
proof fn lemma_target_address(model: ModelView, target: TargetView, index: usize)
    requires
        watched_once(model.watches),
        stands_at(model, target, index),
    ensures
        target_node(model, target) == model.node_at(
            address_of(target, index).0,
            address_of(target, index).1,
        ),
{
    if let TargetView::Watch { expression, subpath } = target {
        lemma_watch_position(model.watches, expression, 0);
        assert(watch_position(model.watches, expression, 0) == Some(index as int));
        assert((seq![index] + subpath).drop_first() =~= subpath);
    }
}

/// The address of a target is where its node is replaced.
proof fn lemma_target_put(model: ModelView, target: TargetView, index: usize, new: NodeView)
    requires
        watched_once(model.watches),
        stands_at(model, target, index),
    ensures
        with_target_node(model, target, new) == model.with_node_at(
            address_of(target, index).0,
            address_of(target, index).1,
            new,
        ),
{
    if let TargetView::Watch { expression, subpath } = target {
        lemma_watch_position(model.watches, expression, 0);
        assert(watch_position(model.watches, expression, 0) == Some(index as int));
        assert((seq![index] + subpath).drop_first() =~= subpath);
    }
}

/// Children that arrive in their generation are put at their target.
proof fn lemma_children_step(model: ModelView, update: Update)
    requires
        update.kind is Children,
        update.epoch == model.epoch,
    ensures
        interpreted(model, Happening::Update(update)).effects.len() == 0,
        interpreted(model, Happening::Update(update)).model == match target_node(
            model,
            update.kind->target@,
        ) {
            Some(node) => with_target_node(
                model,
                update.kind->target@,
                NodeView { children: Some(views(update.kind->children@)), ..node },
            ).refreshed(),
            None => model.refreshed(),
        },
{
}

/// Replacing a node shows nowhere but at its own address and below it.
proof fn lemma_put_elsewhere(
    model: ModelView,
    tree: Tree,
    path: Seq<usize>,
    new: NodeView,
    other_tree: Tree,
    other: Seq<usize>,
)
    requires
        model.node_at(tree, path) is Some,
        !(other_tree == tree && path.is_prefix_of(other)),
    ensures
        glance(model.with_node_at(tree, path, new), other_tree, other) == glance(
            model,
            other_tree,
            other,
        ),
{
    let root = start_of(model, tree, path);
    assert(root.descendant(path.drop_first()) == model.node_at(tree, path));
    if other.len() > 0 {
        lemma_same_path(path, other);
        if tree == other_tree && path[0] == other[0] {
            lemma_other_places(root, path.drop_first(), new, other.drop_first());
        }
    }
}

/// Children that were asked for by showing a node land on that node, which stays
/// shown, wherever it stands.
#[verifier::rlimit(40)]
pub proof fn law_asked_children_are_shown(
    model: ModelView,
    tree: Tree,
    path: Seq<usize>,
    node: NodeView,
    update: Update,
)
    requires
        on_expandable(model, tree, path, node),
        node.children is None,
        watched_once(model.watches),
        update.kind is Children,
        update.epoch == model.epoch,
        interpreted(model, Happening::Action(Action::Expand)).effects.len() == 1,
        interpreted(model, Happening::Action(Action::Expand)).effects[0] matches
            EffectView::FetchChildren { target, var_ref, epoch } && target
            == update.kind->target@,
    ensures
        ({
            let expanded = interpreted(model, Happening::Action(Action::Expand)).model;
            interpreted(expanded, Happening::Update(update)).model.node_at(tree, path) == Some(
                NodeView {
                    expanded: true,
                    children: Some(views(update.kind->children@)),
                    ..node
                },
            )
        }),
{
    let expanded = interpreted(model, Happening::Action(Action::Expand)).model;
    let new = NodeView { expanded: true, ..node };
    let put = model.with_node_at(tree, path, new);
    law_addressed_nodes_are_read_back(model, tree, path, new);
    lemma_only_nodes(model, tree, path, new);
    assert(expanded == put.refreshed());
    assert(expanded.node_at(tree, path) == put.node_at(tree, path));
    let index = path[0];
    if tree == Tree::Watch {
        assert(seq![index] + path.drop_first() =~= path);
    }
    assert(watched_once(expanded.watches)) by {
        assert forall|i: int, j: int| 0 <= i < j < expanded.watches.len() implies (
        #[trigger] expanded.watches[i]).expression != (
        #[trigger] expanded.watches[j]).expression by {
            assert(model.watches[i].expression != model.watches[j].expression);
        }
    }
    law_children_land_at_one_address(expanded, update, index, tree, path);
}

} // verus!
