use scenekit::ids::NodeId;
use scenekit::scene::selection::{apply_selection, binary_search_id, replace_selection, SelectionMode, SelectionState};

fn ids(raw: &[u64]) -> Vec<NodeId> {
    raw.iter().map(|r| NodeId::new(*r)).collect()
}

#[test]
fn replace_mode_keeps_only_the_node() {
    let mut s = SelectionState::new();
    replace_selection(&mut s, ids(&[3, 1, 2]));
    let c = apply_selection(&mut s, NodeId::new(5), SelectionMode::Replace);
    assert_eq!(s.selected(), &ids(&[5])[..]);
    assert_eq!(c.added, ids(&[5]));
    assert_eq!(c.removed, ids(&[1, 2, 3]));
}

#[test]
fn add_mode_inserts_in_order_once() {
    let mut s = SelectionState::default();
    apply_selection(&mut s, NodeId::new(4), SelectionMode::Add);
    apply_selection(&mut s, NodeId::new(2), SelectionMode::Add);
    let c = apply_selection(&mut s, NodeId::new(4), SelectionMode::Add);
    assert_eq!(s.selected(), &ids(&[2, 4])[..]);
    assert!(c.added.is_empty() && c.removed.is_empty());
    assert!(s.contains(NodeId::new(2)));
    assert!(!s.contains(NodeId::new(3)));
}

#[test]
fn toggle_twice_restores_selection() {
    let mut s = SelectionState::new();
    replace_selection(&mut s, ids(&[1, 7]));
    let before = s.selected().to_vec();
    apply_selection(&mut s, NodeId::new(4), SelectionMode::Toggle);
    assert_eq!(s.selected(), &ids(&[1, 4, 7])[..]);
    apply_selection(&mut s, NodeId::new(4), SelectionMode::Toggle);
    assert_eq!(s.selected(), &before[..]);
}

#[test]
fn remove_mode_of_absent_node_changes_nothing() {
    let mut s = SelectionState::new();
    replace_selection(&mut s, ids(&[1]));
    let c = apply_selection(&mut s, NodeId::new(9), SelectionMode::Remove);
    assert_eq!(s.selected(), &ids(&[1])[..]);
    assert!(c.added.is_empty() && c.removed.is_empty());
}

#[test]
fn replace_selection_sorts_and_dedups_and_reports_diff() {
    let mut s = SelectionState::new();
    replace_selection(&mut s, ids(&[5, 1]));
    let c = replace_selection(&mut s, ids(&[3, 5, 3, 2]));
    assert_eq!(s.selected(), &ids(&[2, 3, 5])[..]);
    assert_eq!(c.added, ids(&[2, 3]));
    assert_eq!(c.removed, ids(&[1]));
    assert_eq!(s.hovered, None);
}

#[test]
fn default_mode_is_replace() {
    assert_eq!(SelectionMode::default(), SelectionMode::Replace);
}

#[test]
fn binary_search_reports_position() {
    let v = ids(&[2, 4, 8]);
    assert_eq!(binary_search_id(&v, NodeId::new(4)), Ok(1));
    assert_eq!(binary_search_id(&v, NodeId::new(5)), Err(2));
    assert_eq!(binary_search_id(&v, NodeId::new(1)), Err(0));
    assert_eq!(binary_search_id(&v, NodeId::new(9)), Err(3));
}
