use scenekit::ids::{LightId, MaterialId, MeshId};
use scenekit::scene::editor::NodeEditorMetadata;
use scenekit::scene::graph::SceneGraph;
use scenekit::scene::inspector::inspector_outline;
use scenekit::scene::node::SceneNode;
use scenekit::scene::selection::SelectionMode;

#[test]
fn outline_lists_nodes_depth_first_with_their_fields() {
    let mut g = SceneGraph::new();
    let root = g.add(SceneNode::group("root"));
    let cube = g.add_child(root, SceneNode::mesh("cube", MeshId(1), MaterialId(1)).layer(1)).unwrap();
    let lamp = g.add_child(root, SceneNode::light("lamp", LightId(1)).visible(false)).unwrap();
    let other = g.add(SceneNode::new("other"));
    let mut meta = NodeEditorMetadata::default();
    meta.label = Some(String::from("Lamp"));
    meta.locked = true;
    g.set_editor_metadata(lamp, meta).unwrap();
    g.select(cube, SelectionMode::Replace).unwrap();

    let outline = inspector_outline(&g);
    assert_eq!(outline.node_count, 4);
    assert_eq!(outline.selected_count, 1);
    let ids: Vec<_> = outline.rows.iter().map(|r| r.id).collect();
    assert_eq!(ids, vec![root, cube, lamp, other]);

    let r = &outline.rows[0];
    assert_eq!((r.parent, r.label.as_str(), r.kind, r.visible, r.all_layers), (None, "root", "group", true, true));
    let c = &outline.rows[1];
    assert_eq!((c.parent, c.kind, c.all_layers, c.selected, c.locked), (Some(root), "mesh", false, true, false));
    let l = &outline.rows[2];
    assert_eq!((l.label.as_str(), l.kind, l.visible, l.locked, l.selected), ("Lamp", "light", false, true, false));
    assert_eq!(outline.rows[3].kind, "empty");
}

#[test]
fn hidden_nodes_hide_their_subtrees() {
    let mut g = SceneGraph::new();
    let a = g.add(SceneNode::new("a"));
    let b = g.add_child(a, SceneNode::new("b")).unwrap();
    let _c = g.add_child(b, SceneNode::new("c")).unwrap();
    let d = g.add_child(a, SceneNode::new("d")).unwrap();
    let mut hidden = NodeEditorMetadata::default();
    hidden.visible_in_inspector = false;
    g.set_editor_metadata(b, hidden).unwrap();

    let outline = inspector_outline(&g);
    assert_eq!(outline.node_count, 4);
    let ids: Vec<_> = outline.rows.iter().map(|r| r.id).collect();
    assert_eq!(ids, vec![a, d]);
    assert_eq!(outline.rows[1].parent, Some(a));

    let empty = inspector_outline(&SceneGraph::new());
    assert_eq!((empty.node_count, empty.selected_count, empty.rows.len()), (0, 0, 0));
}
