//! The editor's inspector outline of a scene: one row per node that the
//! inspector shows, in depth-first order. A node hidden from the inspector
//! hides its whole subtree.

use vstd::prelude::*;

use crate::ids::NodeId;
use crate::scene::graph::{lemma_ancestors_of, lemma_selection_in_graph, SceneGraph};
use crate::scene::node::NodeKind;

verus! {

/// One inspector row.
#[derive(Clone, Debug, PartialEq, Eq)]
pub struct InspectorRow {
    /// The node.
    pub id: NodeId,
    /// Its parent, `None` for a root: the row it nests under.
    pub parent: Option<NodeId>,
    /// Editor label, or the node's name where none is set.
    pub label: String,
    /// Kind of payload: `empty`, `group`, `mesh`, `light`, `camera` or `sprite`.
    pub kind: &'static str,
    /// Whether the node is visible.
    pub visible: bool,
    /// Whether the node is on every layer.
    pub all_layers: bool,
    /// Whether the node is selected.
    pub selected: bool,
    /// Whether the editor metadata locks the node.
    pub locked: bool,
}

/// The inspector outline of a scene.
#[derive(Clone, Debug, PartialEq, Eq)]
pub struct InspectorOutline {
    /// Number of nodes in the scene.
    pub node_count: usize,
    /// Number of selected nodes.
    pub selected_count: usize,
    /// The rows, in depth-first order.
    pub rows: Vec<InspectorRow>,
}

/// The kind label of a payload.
pub open spec fn kind_label(kind: NodeKind) -> Seq<char> {
    match kind {
        NodeKind::Empty => "empty"@,
        NodeKind::Group => "group"@,
        NodeKind::Mesh { .. } => "mesh"@,
        NodeKind::Light { .. } => "light"@,
        NodeKind::Camera { .. } => "camera"@,
        NodeKind::Sprite(_) => "sprite"@,
    }
}

/// Whether node `x`'s own metadata lets the inspector show it (nodes
/// without metadata are shown).
pub open spec fn listed_itself(g: &SceneGraph, x: NodeId) -> bool {
    match g.metadata_of(x) {
        Some(m) => m.visible_in_inspector,
        None => true,
    }
}

/// Whether the inspector shows node `x`: it and every node above it allow it.
pub open spec fn shown_in_inspector(g: &SceneGraph, x: NodeId) -> bool {
    forall|a: NodeId| #[trigger] g.is_ancestor(a, x) ==> listed_itself(g, a)
}

/// The label the inspector gives node `x`.
pub open spec fn inspector_label(g: &SceneGraph, x: NodeId) -> Seq<char> {
    match g.metadata_of(x) {
        Some(m) => match m.label {
            Some(l) => l@,
            None => g.node(x).name@,
        },
        None => g.node(x).name@,
    }
}

/// Whether `row` describes node `x` of `g`.
pub open spec fn row_of(g: &SceneGraph, row: InspectorRow, x: NodeId) -> bool {
    &&& row.id == x
    &&& row.parent == g.parent_of(x)
    &&& row.label@ == inspector_label(g, x)
    &&& row.kind@ == kind_label(g.node(x).kind)
    &&& row.visible == g.node(x).visible
    &&& row.all_layers == (g.node(x).layer == u32::MAX)
    &&& row.selected == g.selection_spec().selected_set().contains(x)
    &&& row.locked == match g.metadata_of(x) {
        Some(m) => m.locked,
        None => false,
    }
}

/// The nodes the inspector shows, in depth-first order.
pub open spec fn inspector_order(g: &SceneGraph) -> Seq<NodeId> {
    g.dfs_order(g.root_ids().reverse()).filter(|x: NodeId| shown_in_inspector(g, x))
}

fn kind_name(kind: &NodeKind) -> (s: &'static str)
    ensures
        s@ == kind_label(*kind),
{
    match kind {
        NodeKind::Empty => "empty",
        NodeKind::Group => "group",
        NodeKind::Mesh { .. } => "mesh",
        NodeKind::Light { .. } => "light",
        NodeKind::Camera { .. } => "camera",
        NodeKind::Sprite(_) => "sprite",
    }
}

/// Whether `id` occurs in `ids`.
fn lists(ids: &Vec<NodeId>, id: NodeId) -> (b: bool)
    ensures
        b == ids@.contains(id),
{
    let mut i: usize = 0;
    while i < ids.len()
        invariant
            i <= ids@.len(),
            forall|j: int| 0 <= j < i ==> ids@[j] != id,
        decreases ids@.len() - i,
    {
        if ids[i] == id {
            return true;
        }
        i += 1;
    }
    false
}

/// The inspector row of node `x`.
fn make_row(g: &SceneGraph, x: NodeId) -> (row: InspectorRow)
    requires
        g.wf(),
        g.has(x),
    ensures
        row_of(g, row, x),
{
    let node = g.get(x).unwrap();
    let meta = g.editor_metadata(x);
    let label = match meta {
        Some(m) => match &m.label {
            Some(l) => l.clone(),
            None => node.name.clone(),
        },
        None => node.name.clone(),
    };
    let locked = match meta {
        Some(m) => m.locked,
        None => false,
    };
    proof {
        lemma_selection_in_graph(g);
    }
    InspectorRow {
        id: x,
        parent: g.parent(x),
        label,
        kind: kind_name(&node.kind),
        visible: node.visible,
        all_layers: node.layer == u32::MAX,
        selected: g.selection().contains(x),
        locked,
    }
}

/// The inspector outline of `g`: the node and selection counts, and a row
/// for each node the inspector shows, in depth-first order.
pub fn inspector_outline(g: &SceneGraph) -> (out: InspectorOutline)
    requires
        g.wf(),
    ensures
        out.node_count == g.dfs_order(g.root_ids().reverse()).len(),
        out.selected_count == g.selection_spec().selected_ids().len(),
        out.rows@.len() == inspector_order(g).len(),
        forall|i: int| 0 <= i < out.rows@.len() ==> row_of(g, #[trigger] out.rows@[i], inspector_order(g)[i]),
{
    let order = g.iter_depth_first();
    let ghost all = order@;
    let ghost pred = |x: NodeId| shown_in_inspector(g, x);
    let mut rows: Vec<InspectorRow> = Vec::new();
    let mut shown: Vec<NodeId> = Vec::new();
    let mut i: usize = 0;
    while i < order.len()
        invariant
            g.wf(),
            all == order@,
            all.no_duplicates(),
            forall|x: NodeId| #[trigger] all.contains(x) <==> g.has(x),
            g.parents_before(all),
            i <= all.len(),
            shown@ == all.subrange(0, i as int).filter(pred),
            rows@.len() == shown@.len(),
            forall|j: int| 0 <= j < rows@.len() ==> row_of(g, #[trigger] rows@[j], shown@[j]),
            pred == (|x: NodeId| shown_in_inspector(g, x)),
        decreases all.len() - i,
    {
        let x = order[i];
        proof {
            assert(all.contains(x));
            lemma_ancestors_of(g, x);
            assert(all.subrange(0, i + 1).drop_last() =~= all.subrange(0, i as int));
            reveal(Seq::filter);
            all.subrange(0, i as int).filter_lemma(pred);
        }
        let own = match g.editor_metadata(x) {
            Some(m) => m.visible_in_inspector,
            None => true,
        };
        let parent_shown = match g.parent(x) {
            Some(p) => lists(&shown, p),
            None => true,
        };
        proof {
            // x is shown exactly when it allows it and its parent is shown
            assert(shown_in_inspector(g, x) <==> (own && match g.parent_of(x) {
                Some(p) => shown_in_inspector(g, p),
                None => true,
            })) by {
                if let Some(p) = g.parent_of(x) {
                    if own && shown_in_inspector(g, p) {
                        assert forall|a: NodeId| #[trigger] g.is_ancestor(a, x) implies listed_itself(g, a) by {
                            if a != x {
                                assert(g.is_ancestor(a, p));
                            }
                        }
                    }
                    if shown_in_inspector(g, x) {
                        assert(g.is_ancestor(x, x));
                        assert forall|a: NodeId| #[trigger] g.is_ancestor(a, p) implies listed_itself(g, a) by {
                            assert(g.is_ancestor(a, x));
                        }
                    }
                } else {
                    if own {
                        assert forall|a: NodeId| #[trigger] g.is_ancestor(a, x) implies listed_itself(g, a) by {}
                    }
                    assert(g.is_ancestor(x, x));
                }
            }
            // the parent, if any, was met earlier: it is listed iff it is shown
            if let Some(p) = g.parent_of(x) {
                assert(all.contains(p));
                let k = choose|k: int| 0 <= k < all.len() && all[k] == p;
                assert(k < i);
                assert(all.subrange(0, i as int)[k] == p);
                if shown@.contains(p) {
                    assert(pred(p));
                } else if shown_in_inspector(g, p) {
                    assert(all.subrange(0, i as int).contains(p));
                    assert(pred(p));
                }
            }
        }
        if own && parent_shown {
            let row = make_row(g, x);
            rows.push(row);
            shown.push(x);
        }
        i += 1;
    }
    proof {
        assert(all.subrange(0, all.len() as int) =~= all);
    }
    InspectorOutline { node_count: order.len(), selected_count: g.selection().selected().len(), rows }
}

/// A node hidden from the inspector hides its whole subtree: no node at or
/// below it gets a row.
pub proof fn lemma_hidden_hides_subtree(g: &SceneGraph, a: NodeId, x: NodeId)
    requires
        g.wf(),
        g.is_ancestor(a, x),
        !listed_itself(g, a),
    ensures
        !inspector_order(g).contains(x),
{
    let order = g.dfs_order(g.root_ids().reverse());
    let pred = |y: NodeId| shown_in_inspector(g, y);
    order.filter_lemma(pred);
    if inspector_order(g).contains(x) {
        let k = choose|k: int| 0 <= k < inspector_order(g).len() && inspector_order(g)[k] == x;
        assert(pred(inspector_order(g)[k]));
    }
}

} // verus!
