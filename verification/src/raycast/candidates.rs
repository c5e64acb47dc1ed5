//! Which scene nodes a ray can hit: visible mesh nodes on an active layer.

use vstd::prelude::*;

use crate::ids::{MaterialId, MeshId, NodeId};
use crate::scene::graph::SceneGraph;
use crate::scene::node::{NodeKind, SceneNode};

verus! {

/// The mesh and material a node offers to picking under the layer mask
/// `layers`: none for a hidden node, a node on no active layer, or a node
/// without a mesh.
pub open spec fn pickable_mesh(node: SceneNode, layers: u32) -> Option<(MeshId, MaterialId)> {
    if !node.visible || node.layer & layers == 0 {
        None
    } else {
        match node.kind {
            NodeKind::Mesh { mesh_id, material_id } => Some((mesh_id, material_id)),
            _ => None,
        }
    }
}

/// The pickable mesh nodes among `order`, in that order, with their meshes.
pub open spec fn pickable_in(scene: &SceneGraph, order: Seq<NodeId>, layers: u32) -> Seq<(NodeId, MeshId)>
    decreases order.len(),
{
    if order.len() == 0 {
        Seq::empty()
    } else {
        let rest = pickable_in(scene, order.drop_last(), layers);
        match pickable_mesh(scene.node(order.last()), layers) {
            Some(found) => rest.push((order.last(), found.0)),
            None => rest,
        }
    }
}

/// The mesh and material of node `node_id`, if it is a visible mesh node on
/// one of the `layers`.
pub fn mesh_node(scene: &SceneGraph, node_id: NodeId, layers: u32) -> (r: Option<(MeshId, MaterialId)>)
    requires
        scene.wf(),
    ensures
        r == if scene.has(node_id) {
            pickable_mesh(scene.node(node_id), layers)
        } else {
            None
        },
{
    let node = match scene.get(node_id) {
        Some(node) => node,
        None => return None,
    };
    if !node.visible || node.layer & layers == 0 {
        return None;
    }
    match node.kind {
        NodeKind::Mesh { mesh_id, material_id } => Some((mesh_id, material_id)),
        _ => None,
    }
}

/// The visible mesh nodes on the `layers`, in depth-first order, with
/// their meshes: the entries a picking hierarchy is built from.
pub fn pickable_meshes(scene: &SceneGraph, layers: u32) -> (r: Vec<(NodeId, MeshId)>)
    requires
        scene.wf(),
    ensures
        r@ == pickable_in(scene, scene.dfs_order(scene.root_ids().reverse()), layers),
{
    let order = scene.iter_depth_first();
    let mut out: Vec<(NodeId, MeshId)> = Vec::new();
    let mut i: usize = 0;
    while i < order.len()
        invariant
            scene.wf(),
            i <= order@.len(),
            forall|x: NodeId| #[trigger] order@.contains(x) ==> scene.has(x),
            out@ == pickable_in(scene, order@.subrange(0, i as int), layers),
        decreases order@.len() - i,
    {
        let id = order[i];
        proof {
            assert(order@.contains(id));
            assert(order@.subrange(0, i + 1).drop_last() =~= order@.subrange(0, i as int));
        }
        match mesh_node(scene, id, layers) {
            Some((mesh_id, _)) => out.push((id, mesh_id)),
            None => {},
        }
        i += 1;
    }
    proof {
        assert(order@.subrange(0, order@.len() as int) =~= order@);
    }
    out
}

} // verus!
