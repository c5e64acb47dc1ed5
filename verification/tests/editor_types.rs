use scenekit::ids::{CameraId, LightId, MaterialId, MeshId, NodeId, TextureId};
use scenekit::scene::editor::{
    LayerMask, LayerPolicy, NodeEditorMetadata, TransformConstraint, TransformMode, TransformSpace,
};
use scenekit::scene::node::{BillboardMode, NodeKind, SceneNode, Sprite};

#[test]
fn layer_mask_bit_operations() {
    let mut m = LayerMask::from_bits(0b0101);
    assert_eq!(m.bits(), 0b0101);
    assert!(m.intersects(LayerMask::from_bits(0b0100)));
    assert!(!m.intersects(LayerMask::from_bits(0b1010)));
    assert!(m.matches_node(0b0001));
    assert!(!m.matches_node(0b1000));
    m.insert(LayerMask::from_bits(0b1000));
    assert_eq!(m.bits(), 0b1101);
    m.remove(LayerMask::from_bits(0b0001));
    assert_eq!(m.bits(), 0b1100);
    assert_eq!(LayerMask::none().bits(), 0);
    assert_eq!(LayerMask::all().bits(), u32::MAX);
    assert!(!LayerMask::none().matches_node(u32::MAX));
}

#[test]
fn layer_policy_defaults_to_all_layers() {
    let p = LayerPolicy::default();
    assert_eq!(p.selectable.bits(), u32::MAX);
    assert_eq!(p.draggable.bits(), u32::MAX);
    assert_eq!(p.transformable.bits(), u32::MAX);
}

#[test]
fn metadata_default_grants_everything() {
    let m = NodeEditorMetadata::default();
    assert!(m.is_default());
    assert!(m.selectable && m.draggable && m.transformable && m.visible_in_inspector);
    assert!(!m.locked);
    let mut n = m.clone();
    n.tags.push(String::from("x"));
    assert!(!n.is_default());
    assert_eq!(n.clone(), n);
}

#[test]
fn transform_enums_default() {
    assert_eq!(TransformMode::default(), TransformMode::Translate);
    assert_eq!(TransformSpace::default(), TransformSpace::World);
    assert_eq!(TransformConstraint::default(), TransformConstraint::Free);
}

#[test]
fn scene_node_builders() {
    let n = SceneNode::new("root");
    assert_eq!(n.name, "root");
    assert!(n.visible);
    assert_eq!(n.layer, u32::MAX);
    assert_eq!(n.kind, NodeKind::Empty);
    let g = SceneNode::group("g").visible(false).layer(3);
    assert_eq!(g.kind, NodeKind::Group);
    assert!(!g.visible);
    assert_eq!(g.layer, 3);
    let m = SceneNode::mesh("m", MeshId::new(2), MaterialId::new(3));
    assert_eq!(m.kind, NodeKind::Mesh { mesh_id: MeshId::new(2), material_id: MaterialId::new(3) });
    let l = SceneNode::light("l", LightId::new(4));
    assert_eq!(l.kind, NodeKind::Light { light_id: LightId::new(4) });
    let c = SceneNode::camera("c", CameraId::new(5));
    assert_eq!(c.kind, NodeKind::Camera { camera_id: CameraId::new(5) });
    let s = SceneNode::sprite("s", Sprite::new(TextureId::new(6)).billboard(BillboardMode::FaceCamera));
    assert_eq!(s.kind, NodeKind::Sprite(Sprite { texture_id: TextureId::new(6), billboard: BillboardMode::FaceCamera }));
    assert_eq!(SceneNode::empty("e").kind, NodeKind::Empty);
    assert_eq!(SceneNode::default().name, "");
    assert_eq!(n.clone(), n);
}

#[test]
fn ids_report_null() {
    assert!(NodeId::new(0).is_null());
    assert!(!NodeId::new(1).is_null());
    assert_eq!(NodeId::new(12).get(), 12);
    assert!(TextureId::new(0).is_null());
}

#[test]
fn layer_mask_insert_and_remove_round_trip() {
    let original = LayerMask::from_bits(0b0011);
    let other = LayerMask::from_bits(0b1100);
    let mut m = original;
    m.insert(other);
    assert!(m.intersects(other));
    let once = m;
    m.insert(other);
    assert_eq!(m, once);
    m.remove(other);
    assert_eq!(m, original);
    assert!(!m.intersects(other));
    let mut untouched = original;
    untouched.remove(LayerMask::from_bits(0b0100));
    assert_eq!(untouched, original);
}
