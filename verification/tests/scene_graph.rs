use scenekit::ids::{NodeId, ValidationError};
use scenekit::scene::editor::{LayerMask, LayerPolicy, NodeEditorMetadata};
use scenekit::scene::graph::SceneGraph;
use scenekit::scene::node::SceneNode;
use scenekit::scene::selection::SelectionMode;

fn graph_abc() -> (SceneGraph, NodeId, NodeId, NodeId) {
    let mut g = SceneGraph::new();
    let a = g.add(SceneNode::new("a"));
    let b = g.add_child(a, SceneNode::new("b")).unwrap();
    let c = g.add_child(b, SceneNode::new("c")).unwrap();
    (g, a, b, c)
}

#[test]
fn ids_start_at_one_and_increase() {
    let mut g = SceneGraph::new();
    let a = g.add(SceneNode::new("a"));
    let b = g.add(SceneNode::new("b"));
    assert_eq!(a, NodeId::new(1));
    assert_eq!(b, NodeId::new(2));
    assert_eq!(g.roots(), &[a, b]);
}

#[test]
fn add_child_links_parent_and_child() {
    let (g, a, b, c) = graph_abc();
    assert_eq!(g.parent(b), Some(a));
    assert_eq!(g.parent(c), Some(b));
    assert_eq!(g.parent(a), None);
    assert_eq!(g.children(a), Some(&[b][..]));
    assert_eq!(g.children(c), Some(&[][..]));
    assert_eq!(g.roots(), &[a]);
    assert_eq!(g.get(c).unwrap().name, "c");
}

#[test]
fn add_child_of_unknown_parent_is_invalid_id() {
    let mut g = SceneGraph::new();
    assert_eq!(g.add_child(NodeId::new(7), SceneNode::new("x")), Err(ValidationError::InvalidId));
    assert!(g.roots().is_empty());
}

#[test]
fn remove_takes_the_whole_subtree() {
    let (mut g, a, b, c) = graph_abc();
    let d = g.add(SceneNode::new("d"));
    assert_eq!(g.remove(b), Ok(()));
    assert!(g.get(b).is_none());
    assert!(g.get(c).is_none());
    assert!(g.get(a).is_some());
    assert_eq!(g.children(a), Some(&[][..]));
    assert_eq!(g.roots(), &[a, d]);
    assert_eq!(g.remove(b), Err(ValidationError::InvalidId));
}

#[test]
fn removed_ids_are_not_reused() {
    let mut g = SceneGraph::new();
    let a = g.add(SceneNode::new("a"));
    g.remove(a).unwrap();
    let b = g.add(SceneNode::new("b"));
    assert_eq!(b, NodeId::new(2));
    assert!(g.get(a).is_none());
}

#[test]
fn add_then_remove_restores_roots() {
    let mut g = SceneGraph::new();
    let a = g.add(SceneNode::new("a"));
    let before: Vec<NodeId> = g.roots().to_vec();
    let x = g.add(SceneNode::new("x"));
    g.remove(x).unwrap();
    assert_eq!(g.roots(), &before[..]);
    assert!(g.get(a).is_some());
}

#[test]
fn reparent_moves_node_to_new_parent_end() {
    let mut g = SceneGraph::new();
    let a = g.add(SceneNode::new("a"));
    let b = g.add(SceneNode::new("b"));
    let c = g.add_child(a, SceneNode::new("c")).unwrap();
    let d = g.add_child(b, SceneNode::new("d")).unwrap();
    assert_eq!(g.reparent(c, Some(b)), Ok(()));
    assert_eq!(g.parent(c), Some(b));
    assert_eq!(g.children(a), Some(&[][..]));
    assert_eq!(g.children(b), Some(&[d, c][..]));
    assert_eq!(g.reparent(c, None), Ok(()));
    assert_eq!(g.roots(), &[a, b, c]);
    assert_eq!(g.parent(c), None);
}

#[test]
fn reparent_rejects_cycles_and_unknown_ids() {
    let (mut g, a, b, c) = graph_abc();
    assert_eq!(g.reparent(a, Some(c)), Err(ValidationError::InvalidState));
    assert_eq!(g.reparent(a, Some(a)), Err(ValidationError::InvalidState));
    assert_eq!(g.reparent(b, Some(NodeId::new(99))), Err(ValidationError::InvalidId));
    assert_eq!(g.reparent(NodeId::new(99), None), Err(ValidationError::InvalidId));
    assert_eq!(g.parent(a), None);
    assert_eq!(g.parent(b), Some(a));
}

#[test]
fn reparent_to_same_parent_changes_nothing() {
    let (mut g, a, b, _c) = graph_abc();
    g.update_world_transforms();
    assert_eq!(g.reparent(b, Some(a)), Ok(()));
    assert!(g.update_world_transforms().is_empty());
}

#[test]
fn depth_first_order_visits_children_in_order() {
    let mut g = SceneGraph::new();
    let a = g.add(SceneNode::new("a"));
    let b = g.add(SceneNode::new("b"));
    let a1 = g.add_child(a, SceneNode::new("a1")).unwrap();
    let a2 = g.add_child(a, SceneNode::new("a2")).unwrap();
    let a11 = g.add_child(a1, SceneNode::new("a11")).unwrap();
    let b1 = g.add_child(b, SceneNode::new("b1")).unwrap();
    assert_eq!(g.iter_depth_first(), vec![a, a1, a11, a2, b, b1]);
    assert_eq!(g.iter_breadth_first(), vec![a, b, a1, a2, b1, a11]);
}

#[test]
fn empty_graph_traversals_are_empty() {
    let g = SceneGraph::default();
    assert!(g.iter_depth_first().is_empty());
    assert!(g.iter_breadth_first().is_empty());
    assert_eq!(g.find_by_name("a"), None);
}

#[test]
fn find_by_name_returns_first_in_depth_first_order() {
    let mut g = SceneGraph::new();
    let a = g.add(SceneNode::new("a"));
    let x1 = g.add_child(a, SceneNode::new("x")).unwrap();
    let _x2 = g.add(SceneNode::new("x"));
    assert_eq!(g.find_by_name("x"), Some(x1));
    assert_eq!(g.find_by_name("missing"), None);
}

#[test]
fn update_returns_new_nodes_parents_first_then_nothing() {
    let (mut g, a, b, c) = graph_abc();
    let updated = g.update_world_transforms();
    assert_eq!(updated, vec![a, b, c]);
    assert!(g.update_world_transforms().is_empty());
}

#[test]
fn marking_a_clean_subtree_refreshes_exactly_that_subtree() {
    let (mut g, a, b, c) = graph_abc();
    let d = g.add(SceneNode::new("d"));
    g.update_world_transforms();
    assert_eq!(g.mark_subtree_dirty(b), Ok(()));
    assert_eq!(g.update_world_transforms(), vec![b, c]);
    assert_eq!(g.mark_subtree_dirty(NodeId::new(42)), Err(ValidationError::InvalidId));
    let _ = (a, d);
}

#[test]
fn moved_dirty_subtree_is_refreshed_by_the_next_update() {
    let (mut g, a, b, c) = graph_abc();
    g.update_world_transforms();
    g.mark_subtree_dirty(a).unwrap();
    g.reparent(b, None).unwrap();
    assert_eq!(g.update_world_transforms(), vec![a, b, c]);
    assert!(g.update_world_transforms().is_empty());
}

#[test]
fn get_mut_edits_node_and_marks_subtree() {
    let (mut g, _a, b, c) = graph_abc();
    g.update_world_transforms();
    {
        let node = g.get_mut(b).unwrap();
        node.name = String::from("renamed");
        node.visible = false;
    }
    assert_eq!(g.get(b).unwrap().name, "renamed");
    assert!(!g.get(b).unwrap().visible);
    assert_eq!(g.update_world_transforms(), vec![b, c]);
    assert!(g.get_mut(NodeId::new(77)).is_none());
}

#[test]
fn default_metadata_is_stored_sparsely() {
    let (mut g, a, _b, _c) = graph_abc();
    assert!(g.editor_metadata(a).is_none());
    assert!(g.editor_metadata_or_default(a).unwrap().is_default());
    let mut locked = NodeEditorMetadata::default();
    locked.locked = true;
    locked.tags.push(String::from("tag"));
    assert_eq!(g.set_editor_metadata(a, locked.clone()), Ok(()));
    assert_eq!(g.editor_metadata(a), Some(&locked));
    assert_eq!(g.editor_metadata_or_default(a), Some(locked));
    assert_eq!(g.set_editor_metadata(a, NodeEditorMetadata::default()), Ok(()));
    assert!(g.editor_metadata(a).is_none());
    assert_eq!(g.set_editor_metadata(NodeId::new(50), NodeEditorMetadata::default()), Err(ValidationError::InvalidId));
    assert_eq!(g.editor_metadata_or_default(NodeId::new(50)), None);
}

#[test]
fn clear_editor_metadata_restores_defaults() {
    let (mut g, a, _b, _c) = graph_abc();
    let mut m = NodeEditorMetadata::default();
    m.selectable = false;
    g.set_editor_metadata(a, m).unwrap();
    assert!(!g.is_selectable(a));
    assert_eq!(g.clear_editor_metadata(a), Ok(()));
    assert!(g.editor_metadata(a).is_none());
    assert!(g.is_selectable(a));
    assert_eq!(g.clear_editor_metadata(NodeId::new(9)), Err(ValidationError::InvalidId));
}

#[test]
fn removing_a_node_drops_its_metadata_and_selection() {
    let (mut g, a, b, c) = graph_abc();
    let mut m = NodeEditorMetadata::default();
    m.label = Some(String::from("label"));
    g.set_editor_metadata(c, m).unwrap();
    g.select_many(vec![a, b, c]).unwrap();
    g.set_hovered(Some(c)).unwrap();
    g.set_active(Some(b)).unwrap();
    g.remove(b).unwrap();
    assert_eq!(g.selection().selected(), &[a]);
    assert_eq!(g.selection().hovered, None);
    assert_eq!(g.selection().active, None);
    assert!(g.editor_metadata(c).is_none());
}

#[test]
fn permissions_follow_visibility_metadata_and_layers() {
    let mut g = SceneGraph::new();
    let a = g.add(SceneNode::new("a").layer(0b10));
    let hidden = g.add(SceneNode::new("h").visible(false));
    assert!(g.is_selectable(a) && g.is_draggable(a) && g.is_transformable(a));
    assert!(!g.is_selectable(hidden));
    let mut policy = LayerPolicy::default();
    policy.selectable = LayerMask::from_bits(0b01);
    g.set_layer_policy(policy);
    assert_eq!(g.layer_policy(), policy);
    assert!(!g.is_selectable(a));
    assert!(g.is_draggable(a));
    let mut m = NodeEditorMetadata::default();
    m.locked = true;
    g.set_editor_metadata(a, m).unwrap();
    assert!(!g.is_draggable(a));
    assert!(!g.is_transformable(a));
    assert!(!g.is_selectable(NodeId::new(100)));
}

#[test]
fn select_modes_and_errors() {
    let (mut g, a, b, c) = graph_abc();
    let change = g.select(a, SelectionMode::Replace).unwrap();
    assert_eq!(change.added, vec![a]);
    assert!(change.removed.is_empty());
    g.select(c, SelectionMode::Add).unwrap();
    assert_eq!(g.selection().selected(), &[a, c]);
    let change = g.select(a, SelectionMode::Toggle).unwrap();
    assert_eq!(change.removed, vec![a]);
    assert_eq!(g.selection().selected(), &[c]);
    assert_eq!(g.select(NodeId::new(55), SelectionMode::Add), Err(ValidationError::InvalidId));
    let mut m = NodeEditorMetadata::default();
    m.selectable = false;
    g.set_editor_metadata(b, m).unwrap();
    assert_eq!(g.select(b, SelectionMode::Add), Err(ValidationError::InvalidState));
    assert!(g.select(b, SelectionMode::Remove).is_ok());
    assert_eq!(g.selection().selected(), &[c]);
}

#[test]
fn select_many_keeps_only_selectable_ids() {
    let (mut g, a, b, c) = graph_abc();
    let mut m = NodeEditorMetadata::default();
    m.selectable = false;
    g.set_editor_metadata(b, m).unwrap();
    let change = g.select_many(vec![c, b, a, c]).unwrap();
    assert_eq!(g.selection().selected(), &[a, c]);
    assert_eq!(change.added, vec![a, c]);
    assert_eq!(g.select_many(vec![a, NodeId::new(31)]), Err(ValidationError::InvalidId));
    assert_eq!(g.selection().selected(), &[a, c]);
    let cleared = g.clear_selection();
    assert_eq!(cleared.removed, vec![a, c]);
    assert!(g.selection().selected().is_empty());
}

#[test]
fn hovered_and_active_are_checked() {
    let (mut g, a, b, _c) = graph_abc();
    assert_eq!(g.set_hovered(Some(NodeId::new(8))), Err(ValidationError::InvalidId));
    assert_eq!(g.set_hovered(Some(a)), Ok(()));
    assert_eq!(g.selection().hovered, Some(a));
    assert_eq!(g.set_hovered(None), Ok(()));
    assert_eq!(g.selection().hovered, None);
    let mut m = NodeEditorMetadata::default();
    m.locked = true;
    g.set_editor_metadata(b, m).unwrap();
    assert_eq!(g.set_active(Some(b)), Err(ValidationError::InvalidState));
    assert_eq!(g.set_hovered(Some(b)), Err(ValidationError::InvalidState));
    assert_eq!(g.set_active(Some(a)), Ok(()));
    assert_eq!(g.selection().active, Some(a));
}

#[test]
fn editor_transform_needs_permission() {
    let (mut g, a, b, c) = graph_abc();
    g.update_world_transforms();
    let mut m = NodeEditorMetadata::default();
    m.locked = true;
    g.set_editor_metadata(b, m).unwrap();
    assert_eq!(g.set_editor_transform(b), Err(ValidationError::InvalidState));
    assert_eq!(g.set_editor_transform(NodeId::new(64)), Err(ValidationError::InvalidId));
    assert_eq!(g.set_editor_transform(a), Ok(()));
    assert_eq!(g.update_world_transforms(), vec![a, b, c]);
}

#[test]
fn with_capacity_starts_empty() {
    let g = SceneGraph::with_capacity(16);
    assert!(g.roots().is_empty());
    assert!(g.get(NodeId::new(1)).is_none());
}

#[test]
fn removed_node_leaves_every_list() {
    let (mut g, a, b, c) = graph_abc();
    g.remove(b).unwrap();
    assert_eq!(g.children(a), Some(&[][..]));
    assert_eq!(g.roots(), &[a]);
    assert!(g.get(b).is_none() && g.get(c).is_none());
    g.remove(a).unwrap();
    assert!(g.roots().is_empty());
}

#[test]
fn a_fresh_graph_accepts_nodes() {
    let mut g = SceneGraph::with_capacity(8);
    let a = g.add(SceneNode::new("a"));
    assert_eq!(a, NodeId::new(1));
    assert_eq!(g.update_world_transforms(), vec![a]);
}
