use scenekit::ids::{LightId, MaterialId, MeshId, NodeId};
use scenekit::raycast::candidates::{mesh_node, pickable_meshes};
use scenekit::scene::graph::SceneGraph;
use scenekit::scene::node::SceneNode;

#[test]
fn only_visible_meshes_on_active_layers_are_pickable() {
    let mut g = SceneGraph::new();
    let root = g.add(SceneNode::group("root"));
    let cube = g.add_child(root, SceneNode::mesh("cube", MeshId(1), MaterialId(10))).unwrap();
    let hidden = g.add_child(root, SceneNode::mesh("hidden", MeshId(2), MaterialId(10)).visible(false)).unwrap();
    let layered = g.add_child(cube, SceneNode::mesh("layered", MeshId(3), MaterialId(11)).layer(0b100)).unwrap();
    let lamp = g.add(SceneNode::light("lamp", LightId(1)));
    let floor = g.add(SceneNode::mesh("floor", MeshId(4), MaterialId(12)));

    assert_eq!(mesh_node(&g, cube, u32::MAX), Some((MeshId(1), MaterialId(10))));
    assert_eq!(mesh_node(&g, hidden, u32::MAX), None);
    assert_eq!(mesh_node(&g, layered, 0b1), None);
    assert_eq!(mesh_node(&g, layered, 0b110), Some((MeshId(3), MaterialId(11))));
    assert_eq!(mesh_node(&g, lamp, u32::MAX), None);
    assert_eq!(mesh_node(&g, NodeId(99), u32::MAX), None);

    assert_eq!(
        pickable_meshes(&g, u32::MAX),
        vec![(cube, MeshId(1)), (layered, MeshId(3)), (floor, MeshId(4))]
    );
    assert_eq!(pickable_meshes(&g, 0b1), vec![(cube, MeshId(1)), (floor, MeshId(4))]);
    assert_eq!(pickable_meshes(&g, 0), vec![]);
}
