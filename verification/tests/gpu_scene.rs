use scenekit::ids::{LightId, MaterialId, MeshId, TextureId, ValidationError};
use scenekit::render::gpu_scene::{DrawCall, GpuScene};
use scenekit::render::sort::DrawSubmission;
use scenekit::texture::format::TextureFormat;
use scenekit::texture::sampler::Sampler;
use scenekit::texture::texture::Texture2D;

#[derive(Clone, Debug, PartialEq)]
struct Mesh {
    vertex_count: usize,
}

#[derive(Clone, Debug, PartialEq)]
enum Material {
    Unlit([f32; 4]),
    Lambert([f32; 3]),
}

#[derive(Clone, Debug, PartialEq)]
struct Light {
    intensity: f32,
}

type Scene = GpuScene<Mesh, Material, Light>;

#[test]
fn null_ids_are_refused() {
    let mut scene = Scene::new();
    assert_eq!(scene.register_mesh(MeshId(0), Mesh { vertex_count: 3 }), Err(ValidationError::InvalidId));
    assert_eq!(
        scene.register_material(MaterialId(0), Material::Unlit([1.0; 4])),
        Err(ValidationError::InvalidId)
    );
    assert_eq!(scene.register_light(LightId(0), Light { intensity: 1.0 }), Err(ValidationError::InvalidId));
    assert_eq!((scene.mesh_count(), scene.material_count(), scene.light_count()), (0, 0, 0));
}

#[test]
fn resources_register_replace_and_unregister() {
    let mut scene = Scene::default();
    assert_eq!(scene.register_mesh(MeshId(1), Mesh { vertex_count: 3 }), Ok(()));
    assert_eq!(scene.register_mesh(MeshId(1), Mesh { vertex_count: 6 }), Ok(()));
    assert_eq!(scene.mesh(MeshId(1)), Some(&Mesh { vertex_count: 6 }));
    assert_eq!(scene.mesh_count(), 1);

    assert_eq!(scene.register_material(MaterialId(2), Material::Lambert([0.5; 3])), Ok(()));
    assert_eq!(scene.material(MaterialId(2)), Some(&Material::Lambert([0.5; 3])));
    assert_eq!(scene.register_light(LightId(4), Light { intensity: 2.0 }), Ok(()));
    assert_eq!(scene.light(LightId(4)).map(|l| l.intensity), Some(2.0));

    assert!(scene.unregister_mesh(MeshId(1)));
    assert!(!scene.unregister_mesh(MeshId(1)));
    assert_eq!(scene.mesh(MeshId(1)), None);
    assert_eq!(scene.material_count(), 1);
    assert!(scene.unregister_material(MaterialId(2)));
    assert!(scene.unregister_light(LightId(4)));
    assert_eq!(scene.light_count(), 0);
}

#[test]
fn clearing_one_kind_keeps_the_others() {
    let mut scene = Scene::new();
    scene.register_mesh(MeshId(1), Mesh { vertex_count: 3 }).unwrap();
    scene.register_material(MaterialId(1), Material::Unlit([0.0; 4])).unwrap();
    scene.register_light(LightId(1), Light { intensity: 1.0 }).unwrap();
    let tex = Texture2D::new(2, 2, TextureFormat::Rgba8Unorm, vec![0; 16]).unwrap();
    assert_eq!(scene.register_texture2d(TextureId(1), &tex, Sampler::new()), Ok(()));
    assert_eq!(scene.textures().len(), 1);
    assert_eq!(scene.texture(TextureId(1)).map(|t| t.width), Some(2));

    scene.clear_meshes();
    assert_eq!((scene.mesh_count(), scene.material_count(), scene.light_count()), (0, 1, 1));
    scene.clear_materials();
    assert_eq!(scene.material_count(), 0);
    assert_eq!(scene.light_count(), 1);
    scene.clear_textures();
    assert!(scene.texture(TextureId(1)).is_none());
    assert_eq!(scene.light_count(), 1);
    assert!(scene.unregister_texture(TextureId(1)) == false);
    scene.clear_lights();
    assert_eq!(scene.light_count(), 0);
}

fn submission(mesh: u64, material: u64, transparent: bool) -> DrawSubmission {
    DrawSubmission {
        mesh_id: MeshId(mesh),
        material_id: MaterialId(material),
        depth_key: 0,
        transparent,
        render_order: 0,
    }
}

#[test]
fn draws_without_resources_are_skipped_and_offsets_follow_the_index() {
    let mut scene = Scene::new();
    scene.register_mesh(MeshId(1), Mesh { vertex_count: 3 }).unwrap();
    scene.register_material(MaterialId(1), Material::Unlit([1.0; 4])).unwrap();
    let opaque = vec![submission(1, 1, false), submission(2, 1, false), submission(1, 9, false)];
    let transparent = vec![submission(1, 1, true)];
    let calls = scene.draw_calls(&opaque, &transparent, 256, 512);
    assert_eq!(
        calls,
        vec![
            DrawCall { draw_index: 0, mesh_id: MeshId(1), material_id: MaterialId(1), object_offset: 0, material_offset: 0 },
            DrawCall {
                draw_index: 3,
                mesh_id: MeshId(1),
                material_id: MaterialId(1),
                object_offset: 768,
                material_offset: 1536
            },
        ]
    );
    assert!(scene.draw_calls(&vec![], &vec![], 256, 256).is_empty());
}
