use scenekit::ids::MeshId;
use scenekit::render::skinning::GpuSkinningRegistry;

type Mat = [f32; 16];

fn identity() -> Mat {
    let mut m = [0.0; 16];
    m[0] = 1.0;
    m[5] = 1.0;
    m[10] = 1.0;
    m[15] = 1.0;
    m
}

#[test]
fn skins_register_update_and_unregister() {
    let mut registry: GpuSkinningRegistry<Mat, f32> = GpuSkinningRegistry::new();
    let mesh = MeshId(3);
    assert!(!registry.has_skin(mesh));
    assert!(!registry.update_bone_matrices(mesh, &[identity()]));
    assert!(registry.bones(mesh).is_none());
    assert_eq!(registry.skin_count(), 0);

    registry.register_skin(mesh, vec![identity(), identity()]);
    assert!(registry.has_skin(mesh));
    assert_eq!(registry.bones(mesh).map(|b| b.len()), Some(2));
    assert_eq!(registry.skin_count(), 1);
    assert_eq!(registry.morph_count(), 0);

    let mut moved = identity();
    moved[12] = 2.5;
    assert!(registry.update_bone_matrices(mesh, &[moved]));
    assert_eq!(registry.bones(mesh), Some(&[moved][..]));

    assert!(registry.unregister_skin(mesh));
    assert!(!registry.unregister_skin(mesh));
    assert!(!registry.has_skin(mesh));
    assert_eq!(registry.skin_count(), 0);
}

#[test]
fn morph_weights_are_kept_apart_from_skins() {
    let mut registry: GpuSkinningRegistry<Mat, f32> = GpuSkinningRegistry::default();
    let mesh = MeshId(7);
    assert!(!registry.update_morph_weights(mesh, &[0.5]));
    registry.register_morph_targets(mesh, vec![0.0, 1.0]);
    assert!(registry.has_morph(mesh));
    assert!(!registry.has_skin(mesh));
    assert!(registry.update_morph_weights(mesh, &[0.25, 0.75, 1.0]));
    assert_eq!(registry.morph_weights(mesh), Some(&[0.25, 0.75, 1.0][..]));
    registry.register_morph_targets(mesh, vec![1.0]);
    assert_eq!(registry.morph_weights(mesh), Some(&[1.0][..]));
    assert_eq!(registry.morph_count(), 1);
    assert!(registry.unregister_morph(mesh));
    assert_eq!(registry.morph_weights(MeshId(7)), None);
}
