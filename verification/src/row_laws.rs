//! What the flattened rows promise: each one names the node it shows, no two name
//! the same, every visible node has one, and they stand in order.

use crate::model::{
    entry_rows, forest_rows, help_text, node_rows, section, transcript_rows, watch_list_rows,
    watch_rows, DebuggerModel, EntryView, ModelView, RowKind, RowView, Tone, Tree, WatchStateView,
    WatchView,
};
use crate::node::{lemma_node_view_children, NodeView, VarNode};
use crate::views::views;
use vstd::prelude::*;

verus! {

/// Whether every child, at any depth, has a position that a machine can hold.
pub open spec fn addressable(node: NodeView) -> bool
    decreases node,
{
    node.children matches Some(children) ==> {
        &&& children.len() <= usize::MAX
        &&& forall|i: int| 0 <= i < children.len() ==> addressable(#[trigger] children[i])
    }
}

/// Whether every node of a forest, at any depth, has a position that a machine can
/// hold.
pub open spec fn addressable_forest(nodes: Seq<NodeView>) -> bool {
    &&& nodes.len() <= usize::MAX
    &&& forall|i: int| 0 <= i < nodes.len() ==> addressable(#[trigger] nodes[i])
}

/// Every node that a program holds is addressable.
pub proof fn lemma_nodes_are_addressable(node: VarNode)
    ensures
        addressable(node@),
    decreases node,
{
    lemma_node_view_children(node);
    if let Some(children) = node.children {
        assert(children.len() <= usize::MAX);
        assert forall|i: int| 0 <= i < children@.len() implies addressable(
            #[trigger] views(children@)[i],
        ) by {
            lemma_nodes_are_addressable(children@[i]);
        }
    }
}

/// Whether the node that a path leads to is on display: each node above it is
/// expanded and has its children.
pub open spec fn shown_below(node: NodeView, path: Seq<usize>) -> bool
    decreases path.len(),
{
    path.len() == 0 || (node.expanded && (node.children matches Some(children) && path[0]
        < children.len() && shown_below(children[path[0] as int], path.drop_first())))
}

/// Whether a row is that of the node which a path leads to below `node`.
pub open spec fn shows(row: RowView, tree: Tree, prefix: Seq<usize>, node: NodeView) -> bool {
    let below = row.path.skip(prefix.len() as int);
    &&& prefix.len() <= row.path.len()
    &&& row.path.take(prefix.len() as int) == prefix
    &&& shown_below(node, below)
    &&& node.descendant(below) matches Some(shown) && row == RowView::node(tree, row.path, shown)
}

/// Blocks of rows one after the other.
spec fn joined(blocks: Seq<Seq<RowView>>) -> Seq<RowView>
    decreases blocks.len(),
{
    if blocks.len() == 0 {
        Seq::empty()
    } else {
        joined(blocks.drop_last()) + blocks.last()
    }
}

/// Where a block begins.
spec fn start(blocks: Seq<Seq<RowView>>, n: int) -> int {
    joined(blocks.take(n)).len() as int
}

/// Which block a row belongs to, and which of its rows it is.
proof fn lemma_locate(blocks: Seq<Seq<RowView>>, i: int) -> (at: (int, int))
    requires
        0 <= i < joined(blocks).len(),
    ensures
        0 <= at.0 < blocks.len(),
        0 <= at.1 < blocks[at.0].len(),
        i == start(blocks, at.0) + at.1,
        joined(blocks)[i] == blocks[at.0][at.1],
    decreases blocks.len(),
{
    let earlier = blocks.drop_last();
    if i < joined(earlier).len() {
        let at = lemma_locate(earlier, i);
        assert(earlier.take(at.0) =~= blocks.take(at.0));
        at
    } else {
        assert(blocks.take(blocks.len() - 1) =~= earlier);
        (blocks.len() - 1, i - joined(earlier).len())
    }
}

/// The rows of a block stand from where it begins.
proof fn lemma_stands(blocks: Seq<Seq<RowView>>, n: int, k: int)
    requires
        0 <= n < blocks.len(),
        0 <= k < blocks[n].len(),
    ensures
        0 <= start(blocks, n) + k < joined(blocks).len(),
        joined(blocks)[start(blocks, n) + k] == blocks[n][k],
    decreases blocks.len(),
{
    let earlier = blocks.drop_last();
    if n < blocks.len() - 1 {
        lemma_stands(earlier, n, k);
        assert(earlier.take(n) =~= blocks.take(n));
    } else {
        assert(blocks.take(n) =~= earlier);
    }
}

/// Whether two lists of rows both reach position `k` and are the same before it.
pub open spec fn alike_before(a: Seq<RowView>, b: Seq<RowView>, k: int) -> bool {
    &&& 0 <= k < a.len()
    &&& k < b.len()
    &&& forall|j: int| 0 <= j < k ==> #[trigger] a[j] == b[j]
}

/// Replacing a block by one that starts alike leaves the rows before alike.
proof fn lemma_replaced(blocks: Seq<Seq<RowView>>, n: int, block: Seq<RowView>, k: int)
    requires
        0 <= n < blocks.len(),
        alike_before(blocks[n], block, k),
    ensures
        alike_before(joined(blocks), joined(blocks.update(n, block)), start(blocks, n) + k),
        joined(blocks)[start(blocks, n) + k] == blocks[n][k],
        joined(blocks.update(n, block))[start(blocks, n) + k] == block[k],
    decreases blocks.len(),
{
    let after = blocks.update(n, block);
    let earlier = blocks.drop_last();
    if n < blocks.len() - 1 {
        lemma_replaced(earlier, n, block, k);
        assert(after.drop_last() =~= earlier.update(n, block));
        assert(earlier.take(n) =~= blocks.take(n));
    } else {
        assert(after.drop_last() =~= earlier);
        assert(blocks.take(n) =~= earlier);
    }
}

/// The rows of each node of a forest.
spec fn node_blocks(tree: Tree, prefix: Seq<usize>, nodes: Seq<NodeView>) -> Seq<Seq<RowView>> {
    Seq::new(nodes.len(), |i: int| node_rows(tree, prefix.push(i as usize), nodes[i]))
}

/// The rows of each watch.
spec fn watch_blocks(watches: Seq<WatchView>) -> Seq<Seq<RowView>> {
    Seq::new(watches.len(), |i: int| watch_rows(i as usize, watches[i]))
}

/// The rows of each entry of the transcript.
spec fn entry_blocks(transcript: Seq<EntryView>) -> Seq<Seq<RowView>> {
    Seq::new(transcript.len(), |i: int| entry_rows(i as usize, transcript[i]))
}

proof fn lemma_forest_joined(tree: Tree, prefix: Seq<usize>, nodes: Seq<NodeView>, count: nat)
    requires
        count <= nodes.len(),
    ensures
        forest_rows(tree, prefix, nodes, count) == joined(
            node_blocks(tree, prefix, nodes).take(count as int),
        ),
        count == nodes.len() ==> forest_rows(tree, prefix, nodes, count) == joined(
            node_blocks(tree, prefix, nodes),
        ),
    decreases count,
{
    let blocks = node_blocks(tree, prefix, nodes);
    if count > 0 {
        lemma_forest_joined(tree, prefix, nodes, (count - 1) as nat);
        assert(blocks.take(count as int).drop_last() =~= blocks.take(count - 1));
    }
    assert(blocks.take(nodes.len() as int) =~= blocks);
}

proof fn lemma_watches_joined(watches: Seq<WatchView>, count: nat)
    requires
        count <= watches.len(),
    ensures
        watch_list_rows(watches, count) == joined(watch_blocks(watches).take(count as int)),
        count == watches.len() ==> watch_list_rows(watches, count) == joined(
            watch_blocks(watches),
        ),
    decreases count,
{
    let blocks = watch_blocks(watches);
    if count > 0 {
        lemma_watches_joined(watches, (count - 1) as nat);
        assert(blocks.take(count as int).drop_last() =~= blocks.take(count - 1));
    }
    assert(blocks.take(watches.len() as int) =~= blocks);
}

proof fn lemma_entries_joined(transcript: Seq<EntryView>, count: nat)
    requires
        count <= transcript.len(),
    ensures
        transcript_rows(transcript, count) == joined(entry_blocks(transcript).take(count as int)),
        count == transcript.len() ==> transcript_rows(transcript, count) == joined(
            entry_blocks(transcript),
        ),
    decreases count,
{
    let blocks = entry_blocks(transcript);
    if count > 0 {
        lemma_entries_joined(transcript, (count - 1) as nat);
        assert(blocks.take(count as int).drop_last() =~= blocks.take(count - 1));
    }
    assert(blocks.take(transcript.len() as int) =~= blocks);
}

/// Each row of a node shows that node or one that is on display below it.
proof fn lemma_node_rows_show(tree: Tree, path: Seq<usize>, node: NodeView, i: int)
    requires
        addressable(node),
        0 <= i < node_rows(tree, path, node).len(),
    ensures
        shows(node_rows(tree, path, node)[i], tree, path, node),
        i > 0 ==> node_rows(tree, path, node)[i].path.len() > path.len(),
        i == 0 ==> node_rows(tree, path, node)[i].path == path,
    decreases node,
{
    let row = node_rows(tree, path, node)[i];
    if i == 0 {
        assert(row.path.skip(path.len() as int) =~= Seq::<usize>::empty());
        assert(row.path.take(path.len() as int) =~= path);
    } else {
        let children = node.children->0;
        lemma_forest_joined(tree, path, children, children.len());
        let (n, k) = lemma_locate(node_blocks(tree, path, children), i - 1);
        let inner = path.push(n as usize);
        lemma_node_rows_show(tree, inner, children[n], k);
        let below = row.path.skip(path.len() as int);
        assert(row.path[path.len() as int] == row.path.take(inner.len() as int)[path.len() as int]);
        assert(below[0] == n as usize);
        assert(below.drop_first() =~= row.path.skip(inner.len() as int));
        assert(row.path.take(path.len() as int) =~= inner.take(path.len() as int)) by {
            assert(row.path.take(inner.len() as int) == inner);
            assert forall|j: int| 0 <= j < path.len() implies row.path[j] == inner[j] by {
                assert(row.path.take(inner.len() as int)[j] == inner[j]);
            }
        }
        assert(inner.take(path.len() as int) =~= path);
    }
}

/// Whether one path comes before another when each node is followed by its children
/// and these by its next sibling.
pub open spec fn comes_before(p: Seq<usize>, q: Seq<usize>) -> bool
    decreases p.len(),
{
    if p.len() == 0 {
        q.len() > 0
    } else {
        q.len() > 0 && (p[0] < q[0] || (p[0] == q[0] && comes_before(
            p.drop_first(),
            q.drop_first(),
        )))
    }
}

proof fn lemma_before_below(p: Seq<usize>, q: Seq<usize>)
    requires
        p.len() < q.len(),
        q.take(p.len() as int) == p,
    ensures
        comes_before(p, q),
    decreases p.len(),
{
    if p.len() > 0 {
        assert(q.take(p.len() as int)[0] == p[0]);
        assert(q.drop_first().take(p.len() - 1) =~= p.drop_first()) by {
            assert forall|i: int| 0 <= i < p.len() - 1 implies q.drop_first()[i]
                == p.drop_first()[i] by {
                assert(q.take(p.len() as int)[i + 1] == p[i + 1]);
            }
        }
        lemma_before_below(p.drop_first(), q.drop_first());
    }
}

proof fn lemma_before_beside(p: Seq<usize>, q: Seq<usize>, k: int)
    requires
        0 <= k < p.len(),
        k < q.len(),
        forall|i: int| 0 <= i < k ==> p[i] == q[i],
        p[k] < q[k],
    ensures
        comes_before(p, q),
    decreases k,
{
    if k > 0 {
        lemma_before_beside(p.drop_first(), q.drop_first(), k - 1);
    }
}

/// Blocks do not overlap.
proof fn lemma_starts_ascend(blocks: Seq<Seq<RowView>>, n: int, m: int)
    requires
        0 <= n < m <= blocks.len(),
    ensures
        start(blocks, n) + blocks[n].len() <= start(blocks, m),
    decreases m - n,
{
    assert(blocks.take(m).drop_last() =~= blocks.take(m - 1));
    assert(blocks.take(m).last() == blocks[m - 1]);
    if n < m - 1 {
        lemma_starts_ascend(blocks, n, m - 1);
    }
}

/// Of two rows the later one is in a later block, or later in the same.
proof fn lemma_located_in_order(
    blocks: Seq<Seq<RowView>>,
    at: (int, int),
    to: (int, int),
)
    requires
        0 <= at.0 < blocks.len(),
        0 <= at.1 < blocks[at.0].len(),
        0 <= to.0 < blocks.len(),
        0 <= to.1 < blocks[to.0].len(),
        start(blocks, at.0) + at.1 < start(blocks, to.0) + to.1,
    ensures
        at.0 < to.0 || (at.0 == to.0 && at.1 < to.1),
{
    if to.0 < at.0 {
        lemma_starts_ascend(blocks, to.0, at.0);
    }
}

/// The rows of a node stand in the order of their paths.
proof fn lemma_node_rows_ordered(tree: Tree, path: Seq<usize>, node: NodeView, i: int, j: int)
    requires
        addressable(node),
        0 <= i < j < node_rows(tree, path, node).len(),
    ensures
        comes_before(node_rows(tree, path, node)[i].path, node_rows(tree, path, node)[j].path),
    decreases node,
{
    lemma_node_rows_show(tree, path, node, i);
    lemma_node_rows_show(tree, path, node, j);
    if i == 0 {
        lemma_before_below(path, node_rows(tree, path, node)[j].path);
    } else {
        let children = node.children->0;
        lemma_forest_rows_ordered(tree, path, children, i - 1, j - 1);
    }
}

/// The rows of a forest stand in the order of their paths.
proof fn lemma_forest_rows_ordered(
    tree: Tree,
    prefix: Seq<usize>,
    nodes: Seq<NodeView>,
    i: int,
    j: int,
)
    requires
        addressable_forest(nodes),
        0 <= i < j < forest_rows(tree, prefix, nodes, nodes.len()).len(),
    ensures
        comes_before(
            forest_rows(tree, prefix, nodes, nodes.len())[i].path,
            forest_rows(tree, prefix, nodes, nodes.len())[j].path,
        ),
    decreases nodes,
{
    let rows = forest_rows(tree, prefix, nodes, nodes.len());
    lemma_forest_joined(tree, prefix, nodes, nodes.len());
    let blocks = node_blocks(tree, prefix, nodes);
    let (n, k) = lemma_locate(blocks, i);
    let (m, l) = lemma_locate(blocks, j);
    lemma_located_in_order(blocks, (n, k), (m, l));
    let a = prefix.push(n as usize);
    let b = prefix.push(m as usize);
    lemma_node_rows_show(tree, a, nodes[n], k);
    lemma_node_rows_show(tree, b, nodes[m], l);
    if n == m {
        lemma_node_rows_ordered(tree, a, nodes[n], k, l);
    } else {
        let p = prefix.len() as int;
        let x = rows[i].path;
        let y = rows[j].path;
        assert forall|h: int| 0 <= h < p implies x[h] == y[h] by {
            assert(x.take(p + 1)[h] == a[h]);
            assert(y.take(p + 1)[h] == b[h]);
        }
        assert(x.take(p + 1)[p] == n as usize);
        assert(y.take(p + 1)[p] == m as usize);
        lemma_before_beside(x, y, p);
    }
}

/// No two rows of a node have the same path.
proof fn lemma_node_rows_differ(tree: Tree, path: Seq<usize>, node: NodeView, i: int, j: int)
    requires
        addressable(node),
        0 <= i < j < node_rows(tree, path, node).len(),
    ensures
        node_rows(tree, path, node)[i].path != node_rows(tree, path, node)[j].path,
    decreases node,
{
    lemma_node_rows_show(tree, path, node, i);
    lemma_node_rows_show(tree, path, node, j);
    if i > 0 {
        let children = node.children->0;
        lemma_forest_rows_differ(tree, path, children, i - 1, j - 1);
    }
}

/// No two rows of a forest have the same path.
proof fn lemma_forest_rows_differ(
    tree: Tree,
    prefix: Seq<usize>,
    nodes: Seq<NodeView>,
    i: int,
    j: int,
)
    requires
        addressable_forest(nodes),
        0 <= i < j < forest_rows(tree, prefix, nodes, nodes.len()).len(),
    ensures
        forest_rows(tree, prefix, nodes, nodes.len())[i].path != forest_rows(
            tree,
            prefix,
            nodes,
            nodes.len(),
        )[j].path,
    decreases nodes,
{
    let rows = forest_rows(tree, prefix, nodes, nodes.len());
    lemma_forest_joined(tree, prefix, nodes, nodes.len());
    let (n, k) = lemma_locate(node_blocks(tree, prefix, nodes), i);
    let (m, l) = lemma_locate(node_blocks(tree, prefix, nodes), j);
    lemma_node_rows_show(tree, prefix.push(n as usize), nodes[n], k);
    lemma_node_rows_show(tree, prefix.push(m as usize), nodes[m], l);
    if n == m {
        lemma_node_rows_differ(tree, prefix.push(n as usize), nodes[n], k, l);
    } else {
        let p = prefix.len() as int;
        assert(rows[i].path.take(p + 1)[p] == n as usize);
        assert(rows[j].path.take(p + 1)[p] == m as usize);
    }
}

/// A node on display has a row.
proof fn lemma_shown_has_row(
    tree: Tree,
    path: Seq<usize>,
    node: NodeView,
    below: Seq<usize>,
) -> (i: int)
    requires
        addressable(node),
        shown_below(node, below),
    ensures
        0 <= i < node_rows(tree, path, node).len(),
        node_rows(tree, path, node)[i].path == path + below,
    decreases below.len(),
{
    if below.len() == 0 {
        assert(path + below =~= path);
        0
    } else {
        let children = node.children->0;
        let n = below[0] as int;
        let inner = path.push(below[0]);
        let k = lemma_shown_has_row(tree, inner, children[n], below.drop_first());
        lemma_forest_joined(tree, path, children, children.len());
        lemma_stands(node_blocks(tree, path, children), n, k);
        assert(inner + below.drop_first() =~= path + below);
        1 + start(node_blocks(tree, path, children), n) + k
    }
}

/// Whether every node of the model has a position that a machine can hold.
pub open spec fn addressable_model(model: ModelView) -> bool {
    &&& addressable_forest(model.roots)
    &&& model.watches.len() <= usize::MAX
    &&& forall|w: int|
        0 <= w < model.watches.len() ==> ((#[trigger] model.watches[w]).state matches
            WatchStateView::Resolved(root) ==> addressable(root))
    &&& model.transcript.len() <= usize::MAX
    &&& forall|e: int|
        0 <= e < model.transcript.len() ==> (#[trigger] model.transcript[e] matches
            EntryView::Evaluated { node } ==> addressable(node))
}

/// Every node of a model that a program holds is addressable.
pub proof fn lemma_models_are_addressable(model: DebuggerModel)
    ensures
        addressable_model(model@),
{
    assert(model.roots.len() <= usize::MAX);
    assert(model.watches.len() <= usize::MAX);
    assert(model.transcript.len() <= usize::MAX);
    assert forall|i: int| 0 <= i < model@.roots.len() implies addressable(
        #[trigger] model@.roots[i],
    ) by {
        lemma_nodes_are_addressable(model.roots@[i]);
    }
    assert forall|w: int| 0 <= w < model@.watches.len() implies ((
    #[trigger] model@.watches[w]).state matches WatchStateView::Resolved(root) ==> addressable(
        root,
    )) by {
        if let crate::model::WatchState::Resolved(root) = model.watches@[w].state {
            lemma_nodes_are_addressable(root);
        }
    }
    assert forall|e: int| 0 <= e < model@.transcript.len() implies (
    #[trigger] model@.transcript[e] matches EntryView::Evaluated { node } ==> addressable(node)) by {
        if let crate::model::TranscriptEntry::Evaluated { node } = model.transcript@[e] {
            lemma_nodes_are_addressable(node);
        }
    }
}

/// The root that a path of one of the forests starts from, if there is one.
pub open spec fn root_at(model: ModelView, tree: Tree, index: int) -> Option<NodeView> {
    match tree {
        Tree::Scope => if 0 <= index < model.roots.len() {
            Some(model.roots[index])
        } else {
            None
        },
        Tree::Watch => if 0 <= index < model.watches.len() {
            match model.watches[index].state {
                WatchStateView::Resolved(root) => Some(root),
                _ => None,
            }
        } else {
            None
        },
        Tree::Result => if 0 <= index < model.transcript.len() {
            match model.transcript[index] {
                EntryView::Evaluated { node } => Some(node),
                _ => None,
            }
        } else {
            None
        },
    }
}

/// Whether the node at an address is on display.
pub open spec fn on_display(model: ModelView, tree: Tree, path: Seq<usize>) -> bool {
    path.len() > 0 && (root_at(model, tree, path[0] as int) matches Some(root) && shown_below(
        root,
        path.drop_first(),
    ))
}

/// A row that shows a node below a root shows the node at its own address.
proof fn lemma_root_row(model: ModelView, tree: Tree, index: int, root: NodeView, row: RowView)
    requires
        0 <= index <= usize::MAX,
        root_at(model, tree, index) == Some(root),
        shows(row, tree, seq![index as usize], root),
    ensures
        on_display(model, tree, row.path),
        row.path.len() > 0,
        row.path[0] == index,
        model.node_at(tree, row.path) matches Some(node) && row == RowView::node(
            tree,
            row.path,
            node,
        ),
{
    assert(row.path.take(1)[0] == index as usize);
    assert(row.path.skip(1) =~= row.path.drop_first());
}

/// The three sections of the rows.
spec fn watch_section(model: ModelView) -> Seq<RowView> {
    section("watched"@, model.watches.len(), watch_list_rows(model.watches, model.watches.len()))
}

spec fn scope_section(model: ModelView) -> Seq<RowView> {
    forest_rows(Tree::Scope, Seq::empty(), model.roots, model.roots.len())
}

spec fn transcript_section(model: ModelView) -> Seq<RowView> {
    section(
        "transcript"@,
        model.transcript.len(),
        transcript_rows(model.transcript, model.transcript.len()),
    )
}

/// Whether a row is what its place calls for: a header, a message, a node that is
/// on display at the row's address, or a watch without a value.
pub open spec fn row_fits(model: ModelView, row: RowView) -> bool {
    match row.kind {
        RowKind::Header => true,
        RowKind::Message => true,
        RowKind::Node => on_display(model, row.tree, row.path) && (model.node_at(
            row.tree,
            row.path,
        ) matches Some(node) && row == RowView::node(row.tree, row.path, node)
            && row_holds(row, node)),
        RowKind::Placeholder => {
            &&& row.tree == Tree::Watch
            &&& row.path.len() == 1
            &&& row.path[0] < model.watches.len()
            &&& placeholder_holds(row, model.watches[row.path[0] as int])
        },
    }
}

/// Whether a row shows what a node holds: its texts, how deep it stands, and what can
/// be done with it. A watch's own row is marked.
pub open spec fn row_holds(row: RowView, node: NodeView) -> bool {
    &&& row.name == node.name
    &&& row.value == node.value
    &&& row.ty == node.ty
    &&& row.eval_name == node.eval_name
    &&& row.depth == row.path.len() - 1
    &&& row.tone == Tone::Normal
    &&& row.expandable == (node.var_ref > 0)
    &&& row.expanded == node.expanded
    &&& row.fetched == (node.children is Some)
    &&& row.watched == (row.tree == Tree::Watch && row.path.len() == 1)
}

/// Whether a row stands for a watch without a value, and says whether one is awaited.
pub open spec fn placeholder_holds(row: RowView, watch: WatchView) -> bool {
    &&& !(watch.state is Resolved)
    &&& row.name == watch.expression
    &&& row.eval_name == watch.expression
    &&& row.value == if watch.state is Pending {
        "…"@
    } else {
        "(unavailable)"@
    }
    &&& row.depth == 0
    &&& row.tone == Tone::Normal
    &&& row.watched
    &&& !row.expandable
}

proof fn lemma_scope_row(model: ModelView, i: int)
    requires
        addressable_model(model),
        0 <= i < scope_section(model).len(),
    ensures
        row_fits(model, scope_section(model)[i]),
        scope_section(model)[i].kind == RowKind::Node,
        scope_section(model)[i].tree == Tree::Scope,
{
    lemma_forest_joined(Tree::Scope, Seq::empty(), model.roots, model.roots.len());
    let (n, k) = lemma_locate(node_blocks(Tree::Scope, Seq::empty(), model.roots), i);
    let path = Seq::<usize>::empty().push(n as usize);
    assert(path =~= seq![n as usize]);
    lemma_node_rows_show(Tree::Scope, path, model.roots[n], k);
    lemma_root_row(model, Tree::Scope, n, model.roots[n], scope_section(model)[i]);
}

proof fn lemma_watch_row(model: ModelView, w: int, k: int)
    requires
        addressable_model(model),
        0 <= w < model.watches.len(),
        0 <= k < watch_rows(w as usize, model.watches[w]).len(),
    ensures
        row_fits(model, watch_rows(w as usize, model.watches[w])[k]),
        watch_rows(w as usize, model.watches[w])[k].selectable(),
        watch_rows(w as usize, model.watches[w])[k].tree == Tree::Watch,
        watch_rows(w as usize, model.watches[w])[k].path.len() > 0,
        watch_rows(w as usize, model.watches[w])[k].path[0] == w,
{
    if let WatchStateView::Resolved(root) = model.watches[w].state {
        lemma_node_rows_show(Tree::Watch, seq![w as usize], root, k);
        lemma_root_row(
            model,
            Tree::Watch,
            w,
            root,
            watch_rows(w as usize, model.watches[w])[k],
        );
    }
}

proof fn lemma_entry_row(model: ModelView, e: int, k: int)
    requires
        addressable_model(model),
        0 <= e < model.transcript.len(),
        0 <= k < entry_rows(e as usize, model.transcript[e]).len(),
    ensures
        row_fits(model, entry_rows(e as usize, model.transcript[e])[k]),
        entry_rows(e as usize, model.transcript[e])[k].tree == Tree::Result,
        entry_rows(e as usize, model.transcript[e])[k].kind != RowKind::Header,
        entry_rows(e as usize, model.transcript[e])[k].selectable() ==> entry_rows(
            e as usize,
            model.transcript[e],
        )[k].path.len() > 0 && entry_rows(e as usize, model.transcript[e])[k].path[0] == e
            && model.transcript[e] is Evaluated,
{
    if let EntryView::Evaluated { node } = model.transcript[e] {
        lemma_node_rows_show(Tree::Result, seq![e as usize], node, k);
        lemma_root_row(
            model,
            Tree::Result,
            e,
            node,
            entry_rows(e as usize, model.transcript[e])[k],
        );
    }
}

/// Every node row carries the address of the node it shows, which is on display,
/// and every placeholder that of its watch.
pub proof fn law_rows_name_what_they_show(model: DebuggerModel, i: int)
    requires
        0 <= i < model@.built_rows().len(),
    ensures
        row_fits(model@, model@.built_rows()[i]),
{
    reveal(ModelView::built_rows);
    lemma_models_are_addressable(model);
    let m = model@;
    lemma_forest_joined(Tree::Scope, Seq::empty(), m.roots, m.roots.len());
    lemma_watches_joined(m.watches, m.watches.len());
    lemma_entries_joined(m.transcript, m.transcript.len());
    let a = watch_section(m).len() as int;
    let b = a + scope_section(m).len();
    let rows = m.built_rows();
    if i < a {
        assert(rows[i] == watch_section(m)[i]);
        if i > 0 {
            let (w, k) = lemma_locate(watch_blocks(m.watches), i - 1);
            lemma_watch_row(m, w, k);
        }
    } else if i < b {
        assert(rows[i] == scope_section(m)[i - a]);
        lemma_scope_row(m, i - a);
    } else {
        assert(rows[i] == transcript_section(m)[i - b]);
        if i > b {
            let (e, k) = lemma_locate(entry_blocks(m.transcript), i - b - 1);
            lemma_entry_row(m, e, k);
        }
    }
}

/// The cursor can tell any two rows that it can land on apart by their addresses,
/// so a watched variable and its twin among the scopes stay independent.
pub proof fn law_addresses_are_distinct(model: DebuggerModel, i: int, j: int)
    requires
        0 <= i < j < model@.built_rows().len(),
        model@.built_rows()[i].selectable(),
        model@.built_rows()[j].selectable(),
    ensures
        model@.built_rows()[i].tree != model@.built_rows()[j].tree || model@.built_rows()[i].path
            != model@.built_rows()[j].path,
{
    reveal(ModelView::built_rows);
    lemma_models_are_addressable(model);
    let m = model@;
    lemma_forest_joined(Tree::Scope, Seq::empty(), m.roots, m.roots.len());
    lemma_watches_joined(m.watches, m.watches.len());
    lemma_entries_joined(m.transcript, m.transcript.len());
    let a = watch_section(m).len() as int;
    let b = a + scope_section(m).len();
    let rows = m.built_rows();
    if i < a {
        assert(rows[i] == watch_section(m)[i]);
        assert(i > 0);
        let (w, k) = lemma_locate(watch_blocks(m.watches), i - 1);
        lemma_watch_row(m, w, k);
        if j < a {
            assert(rows[j] == watch_section(m)[j]);
            let (v, l) = lemma_locate(watch_blocks(m.watches), j - 1);
            lemma_watch_row(m, v, l);
            if w == v {
                if let WatchStateView::Resolved(root) = m.watches[w].state {
                    lemma_node_rows_differ(Tree::Watch, seq![w as usize], root, k, l);
                }
            }
        }
    } else if i < b {
        assert(rows[i] == scope_section(m)[i - a]);
        lemma_scope_row(m, i - a);
        if j < b {
            assert(rows[j] == scope_section(m)[j - a]);
            lemma_forest_rows_differ(Tree::Scope, Seq::empty(), m.roots, i - a, j - a);
        }
    }
    if a <= j < b {
        assert(rows[j] == scope_section(m)[j - a]);
        lemma_scope_row(m, j - a);
    }
    if j >= b {
        assert(rows[j] == transcript_section(m)[j - b]);
        assert(j > b);
        let (e, l) = lemma_locate(entry_blocks(m.transcript), j - b - 1);
        lemma_entry_row(m, e, l);
        if i >= b {
            assert(rows[i] == transcript_section(m)[i - b]);
            assert(i > b);
            let (d, k) = lemma_locate(entry_blocks(m.transcript), i - b - 1);
            lemma_entry_row(m, d, k);
            if d == e {
                if let EntryView::Evaluated { node } = m.transcript[e] {
                    lemma_node_rows_differ(Tree::Result, seq![e as usize], node, k, l);
                }
            }
        }
    }
}

/// Every node on display has a row with its address.
pub proof fn law_what_is_on_display_has_a_row(model: DebuggerModel, tree: Tree, path: Seq<usize>)
    requires
        on_display(model@, tree, path),
    ensures
        exists|i: int|
            0 <= i < model@.built_rows().len() && (#[trigger] model@.built_rows()[i]).kind
                == RowKind::Node && model@.built_rows()[i].tree == tree
                && model@.built_rows()[i].path == path,
{
    reveal(ModelView::built_rows);
    lemma_models_are_addressable(model);
    let m = model@;
    lemma_forest_joined(Tree::Scope, Seq::empty(), m.roots, m.roots.len());
    lemma_watches_joined(m.watches, m.watches.len());
    lemma_entries_joined(m.transcript, m.transcript.len());
    let a = watch_section(m).len() as int;
    let b = a + scope_section(m).len();
    let rows = m.built_rows();
    let n = path[0] as int;
    let root = root_at(m, tree, n)->0;
    let below = path.drop_first();
    let first = seq![path[0]];
    assert(first + below =~= path);
    let k = lemma_shown_has_row(tree, first, root, below);
    lemma_node_rows_show(tree, first, root, k);
    match tree {
        Tree::Scope => {
            assert(Seq::<usize>::empty().push(path[0]) =~= first);
            lemma_stands(node_blocks(tree, Seq::empty(), m.roots), n, k);
            let i = a + start(node_blocks(tree, Seq::empty(), m.roots), n) + k;
            assert(rows[i] == scope_section(m)[i - a]);
        },
        Tree::Watch => {
            lemma_stands(watch_blocks(m.watches), n, k);
            let i = 1 + start(watch_blocks(m.watches), n) + k;
            assert(rows[i] == watch_section(m)[i]);
        },
        Tree::Result => {
            lemma_stands(entry_blocks(m.transcript), n, k);
            let i = b + 1 + start(entry_blocks(m.transcript), n) + k;
            assert(rows[i] == transcript_section(m)[i - b]);
        },
    }
}

/// The place of a forest among the three sections.
pub open spec fn section_of(tree: Tree) -> int {
    match tree {
        Tree::Watch => 0,
        Tree::Scope => 1,
        Tree::Result => 2,
    }
}

/// The watches come first, then the scopes, then the results. Within each, a node
/// is followed by its children, and these by its next sibling.
pub proof fn law_rows_stand_in_order(model: DebuggerModel, i: int, j: int)
    requires
        0 <= i < j < model@.built_rows().len(),
        model@.built_rows()[i].selectable(),
        model@.built_rows()[j].selectable(),
    ensures
        ({
            let a = model@.built_rows()[i];
            let b = model@.built_rows()[j];
            section_of(a.tree) < section_of(b.tree) || (a.tree == b.tree && comes_before(
                a.path,
                b.path,
            ))
        }),
{
    reveal(ModelView::built_rows);
    lemma_models_are_addressable(model);
    let m = model@;
    lemma_forest_joined(Tree::Scope, Seq::empty(), m.roots, m.roots.len());
    lemma_watches_joined(m.watches, m.watches.len());
    lemma_entries_joined(m.transcript, m.transcript.len());
    let a = watch_section(m).len() as int;
    let b = a + scope_section(m).len();
    let rows = m.built_rows();
    if i < a {
        assert(rows[i] == watch_section(m)[i]);
        assert(i > 0);
        let blocks = watch_blocks(m.watches);
        let (w, k) = lemma_locate(blocks, i - 1);
        lemma_watch_row(m, w, k);
        if j < a {
            assert(rows[j] == watch_section(m)[j]);
            let (v, l) = lemma_locate(blocks, j - 1);
            lemma_watch_row(m, v, l);
            lemma_located_in_order(blocks, (w, k), (v, l));
            if w == v {
                if let WatchStateView::Resolved(root) = m.watches[w].state {
                    lemma_node_rows_ordered(Tree::Watch, seq![w as usize], root, k, l);
                }
            } else {
                lemma_before_beside(rows[i].path, rows[j].path, 0);
            }
        }
    } else if i < b {
        assert(rows[i] == scope_section(m)[i - a]);
        lemma_scope_row(m, i - a);
        if j < b {
            assert(rows[j] == scope_section(m)[j - a]);
            lemma_forest_rows_ordered(Tree::Scope, Seq::empty(), m.roots, i - a, j - a);
        }
    }
    if a <= j < b {
        assert(rows[j] == scope_section(m)[j - a]);
        lemma_scope_row(m, j - a);
    }
    if j >= b {
        assert(rows[j] == transcript_section(m)[j - b]);
        assert(j > b);
        let blocks = entry_blocks(m.transcript);
        let (e, l) = lemma_locate(blocks, j - b - 1);
        lemma_entry_row(m, e, l);
        if i >= b {
            assert(rows[i] == transcript_section(m)[i - b]);
            assert(i > b);
            let (d, k) = lemma_locate(blocks, i - b - 1);
            lemma_entry_row(m, d, k);
            lemma_located_in_order(blocks, (d, k), (e, l));
            if d == e {
                if let EntryView::Evaluated { node } = m.transcript[e] {
                    lemma_node_rows_ordered(Tree::Result, seq![e as usize], node, k, l);
                }
            } else {
                lemma_before_beside(rows[i].path, rows[j].path, 0);
            }
        }
    }
}

/// Every watch without a value has a row that stands for it.
pub proof fn law_every_watch_has_a_row(model: DebuggerModel, w: int)
    requires
        0 <= w < model@.watches.len(),
        !(model@.watches[w].state is Resolved),
    ensures
        exists|i: int|
            0 <= i < model@.built_rows().len() && (#[trigger] model@.built_rows()[i]).kind
                == RowKind::Placeholder && model@.built_rows()[i].tree == Tree::Watch
                && model@.built_rows()[i].path == seq![w as usize],
{
    reveal(ModelView::built_rows);
    lemma_models_are_addressable(model);
    let m = model@;
    lemma_watches_joined(m.watches, m.watches.len());
    lemma_stands(watch_blocks(m.watches), w, 0);
    let i = 1 + start(watch_blocks(m.watches), w);
    assert(m.built_rows()[i] == watch_section(m)[i]);
}

/// Whether a row carries only text: it stands for nothing that could be expanded or
/// watched.
pub open spec fn only_text(row: RowView) -> bool {
    &&& row.path.len() == 0
    &&& row.depth == 0
    &&& row.value.len() == 0
    &&& row.ty.len() == 0
    &&& row.eval_name.len() == 0
    &&& !row.expandable
    &&& !row.expanded
    &&& !row.fetched
    &&& !row.watched
}

/// Whether a row is a header with this label.
pub open spec fn is_header(row: RowView, label: Seq<char>) -> bool {
    row.kind == RowKind::Header && row.name == label && only_text(row)
}

/// Whether a row is a message with this text and tone.
pub open spec fn is_message(row: RowView, text: Seq<char>, tone: Tone) -> bool {
    row.kind == RowKind::Message && row.name == text && row.tone == tone && only_text(row)
}

/// A header stands before the watches when there are any, and one before the
/// transcript when it has entries. There are no others, and messages stand only
/// behind the latter.
pub proof fn law_headers_stand_before_their_sections(model: DebuggerModel)
    ensures
        ({
            let m = model@;
            let rows = m.built_rows();
            &&& m.watches.len() > 0 ==> rows.len() > 0 && is_header(rows[0], "watched"@)
            &&& m.transcript.len() > 0 ==> exists|h: int|
                0 <= h < rows.len() && is_header(#[trigger] rows[h], "transcript"@)
            &&& forall|i: int|
                0 <= i < rows.len() && (#[trigger] rows[i]).kind == RowKind::Header ==> {
                    ||| i == 0 && m.watches.len() > 0 && is_header(rows[i], "watched"@)
                    ||| m.transcript.len() > 0 && is_header(rows[i], "transcript"@)
                }
            &&& forall|h: int, i: int|
                0 <= h < rows.len() && is_header(#[trigger] rows[h], "transcript"@) && 0 <= i
                    < rows.len() && i != h ==> {
                    &&& (#[trigger] rows[i]).kind == RowKind::Message ==> h < i
                    &&& h < i <==> (rows[i].tree == Tree::Result)
                    &&& h < i ==> rows[i].kind != RowKind::Header
                }
        }),
{
    reveal(ModelView::built_rows);
    reveal_strlit("watched");
    reveal_strlit("transcript");
    assert("watched"@.len() != "transcript"@.len());
    lemma_models_are_addressable(model);
    let m = model@;
    lemma_forest_joined(Tree::Scope, Seq::empty(), m.roots, m.roots.len());
    lemma_watches_joined(m.watches, m.watches.len());
    lemma_entries_joined(m.transcript, m.transcript.len());
    let a = watch_section(m).len() as int;
    let b = a + scope_section(m).len();
    let rows = m.built_rows();
    assert forall|i: int| 0 <= i < rows.len() implies {
        &&& i < a ==> (i == 0 && is_header(#[trigger] rows[i], "watched"@) && rows[i].tree
            == Tree::Scope) || (rows[i].selectable() && rows[i].tree == Tree::Watch)
        &&& a <= i < b ==> rows[i].selectable() && rows[i].tree == Tree::Scope
        &&& i == b ==> is_header(rows[i], "transcript"@) && rows[i].tree == Tree::Scope
        &&& b < i ==> rows[i].tree == Tree::Result && rows[i].kind != RowKind::Header
    } by {
        if i < a {
            assert(rows[i] == watch_section(m)[i]);
            if i > 0 {
                let (w, k) = lemma_locate(watch_blocks(m.watches), i - 1);
                lemma_watch_row(m, w, k);
            }
        } else if i < b {
            assert(rows[i] == scope_section(m)[i - a]);
            lemma_scope_row(m, i - a);
        } else {
            assert(rows[i] == transcript_section(m)[i - b]);
            if i > b {
                let (e, k) = lemma_locate(entry_blocks(m.transcript), i - b - 1);
                lemma_entry_row(m, e, k);
            }
        }
    }
    if m.transcript.len() > 0 {
        assert(rows[b] == transcript_section(m)[0]);
    }
}

/// An entry that is recorded adds its rows behind all others, and before them the
/// header when it is the first. A message is one row with its mark, the help one row
/// for each of its lines, and a value starts with the row of its node.
pub proof fn law_an_entry_adds_its_rows(model: ModelView, entry: EntryView)
    ensures
        ({
            let before = model.built_rows();
            let after = ModelView {
                transcript: model.transcript.push(entry),
                ..model
            }.built_rows();
            let from = if model.transcript.len() == 0 {
                before.len() as int + 1
            } else {
                before.len() as int
            };
            &&& from < after.len()
            &&& after.take(before.len() as int) == before
            &&& model.transcript.len() == 0 ==> is_header(
                after[before.len() as int],
                "transcript"@,
            )
            &&& match entry {
                EntryView::Error { message } => after.len() == from + 1 && is_message(
                    after[from],
                    "!! "@ + message,
                    Tone::Error,
                ),
                EntryView::Unavailable { reason } => after.len() == from + 1 && is_message(
                    after[from],
                    "-- "@ + reason,
                    Tone::Note,
                ),
                EntryView::Unrecognized { input } => after.len() == from + 1 && is_message(
                    after[from],
                    "-- "@ + input + " is not a command; type an expression to evaluate"@,
                    Tone::Note,
                ),
                EntryView::Help => after.len() == from + help_text().len() && forall|i: int|
                    0 <= i < help_text().len() ==> is_message(
                        #[trigger] after[from + i],
                        help_text()[i],
                        Tone::Note,
                    ),
                EntryView::Evaluated { node } => {
                    &&& after[from].kind == RowKind::Node
                    &&& after[from].path == seq![model.transcript.len() as usize]
                    &&& row_holds(after[from], node)
                    &&& forall|i: int| from <= i < after.len() ==> (#[trigger] after[i]).kind
                        == RowKind::Node
                },
            }
        }),
{
    reveal(ModelView::built_rows);
    let old_entries = model.transcript;
    let entries = old_entries.push(entry);
    let grown = ModelView { transcript: entries, ..model };
    let before = model.built_rows();
    let after = grown.built_rows();
    let e = old_entries.len();
    let added = entry_rows(e as usize, entry);
    lemma_transcript_prefix(old_entries, entries, e);
    assert(transcript_rows(entries, entries.len()) == transcript_rows(old_entries, e) + added);
    let from = if e == 0 {
        before.len() as int + 1
    } else {
        before.len() as int
    };
    assert(after.skip(from) =~= added);
    assert(after.take(before.len() as int) =~= before);
    assert forall|i: int| from <= i < after.len() implies #[trigger] after[i]
        == added[i - from] by {
        assert(after[i] == after.skip(from)[i - from]);
    }
    if let EntryView::Evaluated { node } = entry {
        assert(added[0] == RowView::node(Tree::Result, seq![e as usize], node));
        assert forall|i: int| 0 <= i < added.len() implies (#[trigger] added[i]).kind
            == RowKind::Node by {
            lemma_node_rows_are_nodes(Tree::Result, seq![e as usize], node, i);
        }
    }
}

proof fn lemma_transcript_prefix(a: Seq<EntryView>, b: Seq<EntryView>, count: nat)
    requires
        count <= a.len(),
        count <= b.len(),
        forall|i: int| 0 <= i < count ==> a[i] == b[i],
    ensures
        transcript_rows(a, count) == transcript_rows(b, count),
    decreases count,
{
    if count > 0 {
        lemma_transcript_prefix(a, b, (count - 1) as nat);
    }
}

proof fn lemma_node_rows_are_nodes(tree: Tree, path: Seq<usize>, node: NodeView, i: int)
    requires
        0 <= i < node_rows(tree, path, node).len(),
    ensures
        node_rows(tree, path, node)[i].kind == RowKind::Node,
    decreases node,
{
    if i > 0 {
        let children = node.children->0;
        lemma_forest_joined(tree, path, children, children.len());
        let (n, k) = lemma_locate(node_blocks(tree, path, children), i - 1);
        lemma_node_rows_are_nodes(tree, path.push(n as usize), children[n], k);
    }
}

/// Two forests that differ in one tree, where they start alike.
proof fn lemma_forest_edit(
    tree: Tree,
    prefix: Seq<usize>,
    a: Seq<NodeView>,
    n: int,
    node: NodeView,
    k: int,
)
    requires
        0 <= n < a.len(),
        alike_before(
            node_rows(tree, prefix.push(n as usize), a[n]),
            node_rows(tree, prefix.push(n as usize), node),
            k,
        ),
    ensures
        ({
            let b = a.update(n, node);
            let i = start(node_blocks(tree, prefix, a), n) + k;
            let inner = prefix.push(n as usize);
            &&& alike_before(
                forest_rows(tree, prefix, a, a.len()),
                forest_rows(tree, prefix, b, b.len()),
                i,
            )
            &&& forest_rows(tree, prefix, a, a.len())[i] == node_rows(tree, inner, a[n])[k]
            &&& forest_rows(tree, prefix, b, b.len())[i] == node_rows(tree, inner, node)[k]
        }),
{
    let b = a.update(n, node);
    let blocks = node_blocks(tree, prefix, a);
    let block = node_rows(tree, prefix.push(n as usize), node);
    lemma_forest_joined(tree, prefix, a, a.len());
    lemma_forest_joined(tree, prefix, b, b.len());
    lemma_replaced(blocks, n, block, k);
    assert(node_blocks(tree, prefix, b) =~= blocks.update(n, block));
}

/// Rows that start alike still do behind one more row.
proof fn lemma_prepended(row: RowView, a: Seq<RowView>, b: Seq<RowView>, k: int)
    requires
        alike_before(a, b, k),
    ensures
        alike_before(seq![row] + a, seq![row] + b, k + 1),
        (seq![row] + a)[k + 1] == a[k],
        (seq![row] + b)[k + 1] == b[k],
{
    let x = seq![row] + a;
    let y = seq![row] + b;
    assert forall|j: int| 0 <= j < k + 1 implies #[trigger] x[j] == y[j] by {
        if j > 0 {
            assert(x[j] == a[j - 1]);
            assert(y[j] == b[j - 1]);
        }
    }
}

/// Editing a child that is shown leaves its row where it is, and the rows before it
/// as they are.
proof fn lemma_child_edit(
    tree: Tree,
    path: Seq<usize>,
    node: NodeView,
    n: int,
    child: NodeView,
    k: int,
) -> (i: int)
    requires
        node.expanded,
        node.children is Some,
        0 <= n < node.children->0.len(),
        alike_before(
            node_rows(tree, path.push(n as usize), node.children->0[n]),
            node_rows(tree, path.push(n as usize), child),
            k,
        ),
    ensures
        ({
            let edited = NodeView { children: Some(node.children->0.update(n, child)), ..node };
            let inner = path.push(n as usize);
            &&& alike_before(node_rows(tree, path, node), node_rows(tree, path, edited), i)
            &&& node_rows(tree, path, node)[i] == node_rows(tree, inner, node.children->0[n])[k]
            &&& node_rows(tree, path, edited)[i] == node_rows(tree, inner, child)[k]
        }),
{
    let children = node.children->0;
    let after = children.update(n, child);
    let edited = NodeView { children: Some(after), ..node };
    lemma_forest_edit(tree, path, children, n, child, k);
    let at = start(node_blocks(tree, path, children), n) + k;
    lemma_prepended(
        RowView::node(tree, path, node),
        forest_rows(tree, path, children, children.len()),
        forest_rows(tree, path, after, after.len()),
        at,
    );
    assert(RowView::node(tree, path, edited) == RowView::node(tree, path, node));
    at + 1
}

/// Editing a node on display leaves its row where it is, and the rows before it as
/// they are.
proof fn lemma_node_edit(
    tree: Tree,
    path: Seq<usize>,
    node: NodeView,
    below: Seq<usize>,
    new: NodeView,
) -> (i: int)
    requires
        shown_below(node, below),
    ensures
        alike_before(
            node_rows(tree, path, node),
            node_rows(tree, path, node.with_descendant(below, new)),
            i,
        ),
        node.descendant(below) is Some,
        node_rows(tree, path, node)[i] == RowView::node(
            tree,
            path + below,
            node.descendant(below)->0,
        ),
        node_rows(tree, path, node.with_descendant(below, new))[i] == RowView::node(
            tree,
            path + below,
            new,
        ),
    decreases below.len(),
{
    if below.len() == 0 {
        assert(path + below =~= path);
        0
    } else {
        let n = below[0] as int;
        let inner = path.push(below[0]);
        let child = node.children->0[n];
        let k = lemma_node_edit(tree, inner, child, below.drop_first(), new);
        assert(inner + below.drop_first() =~= path + below);
        lemma_child_edit(tree, path, node, n, child.with_descendant(below.drop_first(), new), k)
    }
}

/// Two models whose watches differ in one place, where they start alike.
proof fn lemma_watch_edit(a: Seq<WatchView>, n: int, watch: WatchView, k: int)
    requires
        0 <= n < a.len(),
        alike_before(watch_rows(n as usize, a[n]), watch_rows(n as usize, watch), k),
    ensures
        ({
            let b = a.update(n, watch);
            let i = start(watch_blocks(a), n) + k;
            &&& alike_before(watch_list_rows(a, a.len()), watch_list_rows(b, b.len()), i)
            &&& watch_list_rows(a, a.len())[i] == watch_rows(n as usize, a[n])[k]
            &&& watch_list_rows(b, b.len())[i] == watch_rows(n as usize, watch)[k]
        }),
{
    let b = a.update(n, watch);
    lemma_watches_joined(a, a.len());
    lemma_watches_joined(b, b.len());
    lemma_replaced(watch_blocks(a), n, watch_rows(n as usize, watch), k);
    assert(watch_blocks(b) =~= watch_blocks(a).update(n, watch_rows(n as usize, watch)));
}

/// Two transcripts that differ in one place, where they start alike.
proof fn lemma_entry_edit(a: Seq<EntryView>, n: int, entry: EntryView, k: int)
    requires
        0 <= n < a.len(),
        alike_before(entry_rows(n as usize, a[n]), entry_rows(n as usize, entry), k),
    ensures
        ({
            let b = a.update(n, entry);
            let i = start(entry_blocks(a), n) + k;
            &&& alike_before(transcript_rows(a, a.len()), transcript_rows(b, b.len()), i)
            &&& transcript_rows(a, a.len())[i] == entry_rows(n as usize, a[n])[k]
            &&& transcript_rows(b, b.len())[i] == entry_rows(n as usize, entry)[k]
        }),
{
    let b = a.update(n, entry);
    lemma_entries_joined(a, a.len());
    lemma_entries_joined(b, b.len());
    lemma_replaced(entry_blocks(a), n, entry_rows(n as usize, entry), k);
    assert(entry_blocks(b) =~= entry_blocks(a).update(n, entry_rows(n as usize, entry)));
}

/// A node on display that is edited keeps its row, and the rows before that stay as
/// they are.
pub proof fn law_an_edited_node_keeps_its_row(
    model: ModelView,
    tree: Tree,
    path: Seq<usize>,
    new: NodeView,
) -> (i: int)
    requires
        on_display(model, tree, path),
    ensures
        model.node_at(tree, path) is Some,
        alike_before(model.built_rows(), model.with_node_at(tree, path, new).built_rows(), i),
        model.built_rows()[i] == RowView::node(tree, path, model.node_at(tree, path)->0),
        model.with_node_at(tree, path, new).built_rows()[i] == RowView::node(tree, path, new),
{
    reveal(ModelView::built_rows);
    let edited = model.with_node_at(tree, path, new);
    let n = path[0] as int;
    let root = root_at(model, tree, n)->0;
    let below = path.drop_first();
    let prefix = seq![path[0]];
    assert(prefix + below =~= path);
    let k = lemma_node_edit(tree, prefix, root, below, new);
    let rows = model.built_rows();
    let sections = seq![watch_section(model), scope_section(model), transcript_section(model)];
    let before = watch_section(model).len() as int;
    reveal_with_fuel(joined, 4);
    assert(joined(sections) =~= rows);
    match tree {
        Tree::Scope => {
            let root = root.with_descendant(below, new);
            assert(Seq::<usize>::empty().push(path[0]) =~= prefix);
            lemma_forest_edit(Tree::Scope, Seq::empty(), model.roots, n, root, k);
            let at = start(node_blocks(Tree::Scope, Seq::empty(), model.roots), n) + k;
            lemma_replaced(sections, 1, scope_section(edited), at);
            assert(joined(sections.update(1, scope_section(edited))) =~= edited.built_rows());
            start(sections, 1) + at
        },
        Tree::Watch => {
            let root = root.with_descendant(below, new);
            let watch = WatchView {
                state: WatchStateView::Resolved(root),
                ..model.watches[n]
            };
            lemma_watch_edit(model.watches, n, watch, k);
            let at = 1 + start(watch_blocks(model.watches), n) + k;
            lemma_replaced(sections, 0, watch_section(edited), at);
            assert(joined(sections.update(0, watch_section(edited))) =~= edited.built_rows());
            start(sections, 0) + at
        },
        Tree::Result => {
            let root = root.with_descendant(below, new);
            lemma_entry_edit(model.transcript, n, EntryView::Evaluated { node: root }, k);
            let at = 1 + start(entry_blocks(model.transcript), n) + k;
            lemma_replaced(sections, 2, transcript_section(edited), at);
            assert(joined(sections.update(2, transcript_section(edited))) =~= edited.built_rows());
            start(sections, 2) + at
        },
    }
}

/// Reading back a node that was put at an address gives that node, and putting
/// back what was read changes nothing.
pub proof fn law_nodes_are_read_back(node: NodeView, path: Seq<usize>, new: NodeView)
    requires
        node.descendant(path) is Some,
    ensures
        node.with_descendant(path, new).descendant(path) == Some(new),
        node.with_descendant(path, node.descendant(path)->0) == node,
    decreases path.len(),
{
    if path.len() > 0 {
        let children = node.children->0;
        let n = path[0] as int;
        law_nodes_are_read_back(children[n], path.drop_first(), new);
        assert(children.update(n, children[n]) =~= children);
    }
}

/// Putting a node at an address leaves every node alone that is neither above nor
/// below it.
pub proof fn law_other_nodes_are_left_alone(
    node: NodeView,
    path: Seq<usize>,
    new: NodeView,
    other: Seq<usize>,
    split: int,
)
    requires
        node.descendant(path) is Some,
        0 <= split < path.len(),
        split < other.len(),
        path[split] != other[split],
    ensures
        node.with_descendant(path, new).descendant(other) == node.descendant(other),
    decreases path.len(),
{
    let children = node.children->0;
    if path[0] == other[0] {
        law_other_nodes_are_left_alone(
            children[path[0] as int],
            path.drop_first(),
            new,
            other.drop_first(),
            split - 1,
        );
    }
}

} // verus!
